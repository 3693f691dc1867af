use embassy_defmt_usb::buffer::{Controller, LogBuffer, USB_BUF_SIZE};
use embassy_defmt_usb::swap;

/// The contents of the buffer that is drained next, and its index.
fn next_closed(c: &Controller) -> Option<(usize, Vec<u8>)> {
    c.get_flushing().map(|(i, buf)| (i, buf.bytes().to_vec()))
}

#[test]
fn buffer_starts_open_and_empty() {
    let buf = LogBuffer::new();
    assert!(!buf.is_flushing());
    assert_eq!(buf.bytes(), &[] as &[u8]);
    assert_eq!(USB_BUF_SIZE, 32);
}

#[test]
fn buffer_keeps_its_last_byte_free() {
    let mut buf = LogBuffer::new();
    assert!(buf.accepts(31));
    assert!(!buf.accepts(32));
    buf.write(&[7; 30]);
    assert!(buf.accepts(1));
    assert!(!buf.accepts(2));
    buf.write(&[8]);
    assert!(buf.accepts(0));
    assert!(!buf.accepts(1));
    assert!(!buf.accepts(usize::MAX));
}

#[test]
fn buffer_can_be_filled_to_the_last_byte() {
    let mut buf = LogBuffer::new();
    buf.write(&[5; 32]);
    assert_eq!(buf.bytes(), &[5; 32]);
    assert!(!buf.accepts(0));
}

#[test]
fn buffer_appends_in_order() {
    let mut buf = LogBuffer::new();
    buf.write(&[1, 2, 3]);
    buf.write(&[]);
    buf.write(&[4, 5]);
    assert_eq!(buf.bytes(), &[1, 2, 3, 4, 5]);
}

#[test]
fn closed_buffer_accepts_nothing_and_keeps_its_contents() {
    let mut buf = LogBuffer::new();
    buf.write(&[1, 2]);
    buf.set_flushing();
    assert!(buf.is_flushing());
    assert!(!buf.accepts(0));
    assert_eq!(buf.bytes(), &[1, 2]);
    buf.reset();
    assert!(!buf.is_flushing());
    assert_eq!(buf.bytes(), &[] as &[u8]);
}

#[test]
fn nothing_is_closed_at_first() {
    let c = Controller::new();
    assert!(c.get_flushing().is_none());
}

#[test]
fn swapped_frame_is_found() {
    let mut c = Controller::new();
    embassy_defmt_usb::write(&mut c, &[1, 2]);
    embassy_defmt_usb::write(&mut c, &[3]);
    assert_eq!(next_closed(&c), None);
    swap(&mut c);
    assert_eq!(next_closed(&c), Some((0, vec![1, 2, 3])));
}

#[test]
fn second_half_takes_the_next_frame() {
    let mut c = Controller::new();
    embassy_defmt_usb::write(&mut c, &[1]);
    swap(&mut c);
    embassy_defmt_usb::write(&mut c, &[2]);
    swap(&mut c);
    assert_eq!(next_closed(&c), Some((0, vec![1])));
    c.reset_buffer(0);
    assert_eq!(next_closed(&c), Some((1, vec![2])));
    c.reset_buffer(1);
    assert_eq!(next_closed(&c), None);
}

#[test]
fn write_that_does_not_fit_swaps() {
    let mut c = Controller::new();
    embassy_defmt_usb::write(&mut c, &[1; 20]);
    embassy_defmt_usb::write(&mut c, &[2; 12]);
    assert_eq!(next_closed(&c), Some((0, vec![1; 20])));
    swap(&mut c);
    c.reset_buffer(0);
    assert_eq!(next_closed(&c), Some((1, vec![2; 12])));
}

#[test]
fn write_is_whole_or_dropped() {
    let mut c = Controller::new();
    embassy_defmt_usb::write(&mut c, &[1]);
    embassy_defmt_usb::write(&mut c, &[2; 32]);
    assert_eq!(next_closed(&c), Some((0, vec![1])));
    swap(&mut c);
    c.reset_buffer(0);
    assert_eq!(next_closed(&c), Some((1, vec![])));
}

#[test]
fn closed_buffers_are_untouched() {
    let mut c = Controller::new();
    embassy_defmt_usb::write(&mut c, &[1]);
    swap(&mut c);
    embassy_defmt_usb::write(&mut c, &[2]);
    swap(&mut c);
    for n in 0..5 {
        embassy_defmt_usb::write(&mut c, &[9; 3]);
        if n % 2 == 0 {
            swap(&mut c);
        }
    }
    assert_eq!(next_closed(&c), Some((0, vec![1])));
    c.reset_buffer(0);
    assert_eq!(next_closed(&c), Some((1, vec![2])));
}

#[test]
fn pieces_join_without_gaps() {
    let mut c = Controller::new();
    for b in 0..31u8 {
        embassy_defmt_usb::write(&mut c, &[b]);
    }
    swap(&mut c);
    assert_eq!(next_closed(&c), Some((0, (0..31).collect::<Vec<u8>>())));
}

#[test]
fn disabled_controller_ignores_the_logger() {
    let mut c = Controller::new();
    embassy_defmt_usb::write(&mut c, &[1]);
    swap(&mut c);
    embassy_defmt_usb::write(&mut c, &[2]);
    c.disable();
    assert_eq!(next_closed(&c), None);
    embassy_defmt_usb::write(&mut c, &[3]);
    swap(&mut c);
    assert_eq!(next_closed(&c), None);
    c.enable();
    assert_eq!(next_closed(&c), None);
    // The second half is still the current one.
    embassy_defmt_usb::write(&mut c, &[4]);
    swap(&mut c);
    assert_eq!(next_closed(&c), Some((1, vec![4])));
}

#[test]
fn two_swaps_return_to_the_first_half() {
    let mut c = Controller::new();
    swap(&mut c);
    swap(&mut c);
    c.reset_buffer(0);
    embassy_defmt_usb::write(&mut c, &[1]);
    swap(&mut c);
    assert_eq!(next_closed(&c), Some((0, vec![1])));
}

#[test]
fn lower_index_is_drained_first() {
    let mut c = Controller::new();
    swap(&mut c);
    c.reset_buffer(0);
    embassy_defmt_usb::write(&mut c, &[1]);
    swap(&mut c);
    embassy_defmt_usb::write(&mut c, &[2]);
    swap(&mut c);
    assert_eq!(next_closed(&c), Some((0, vec![2])));
}

#[test]
fn third_write_is_dropped_when_both_halves_are_closed() {
    let mut c = Controller::new();
    embassy_defmt_usb::write(&mut c, &[1; 20]);
    embassy_defmt_usb::write(&mut c, &[2; 20]);
    embassy_defmt_usb::write(&mut c, &[3; 12]);
    assert_eq!(next_closed(&c), Some((0, vec![1; 20])));
    c.reset_buffer(0);
    assert_eq!(next_closed(&c), Some((1, vec![2; 20])));
    c.reset_buffer(1);
    // The first half is the current one again.
    embassy_defmt_usb::write(&mut c, &[4]);
    swap(&mut c);
    assert_eq!(next_closed(&c), Some((0, vec![4])));
}

#[test]
fn two_writes_are_one() {
    let mut c = Controller::new();
    let mut d = Controller::new();
    embassy_defmt_usb::write(&mut c, &[1, 2]);
    embassy_defmt_usb::write(&mut c, &[3]);
    embassy_defmt_usb::write(&mut d, &[1, 2, 3]);
    swap(&mut c);
    swap(&mut d);
    assert_eq!(next_closed(&c), next_closed(&d));
}

#[test]
fn second_reset_changes_nothing() {
    let mut c = Controller::new();
    embassy_defmt_usb::write(&mut c, &[1]);
    swap(&mut c);
    embassy_defmt_usb::write(&mut c, &[2]);
    c.reset_buffer(0);
    c.reset_buffer(0);
    assert_eq!(next_closed(&c), None);
    swap(&mut c);
    assert_eq!(next_closed(&c), Some((1, vec![2])));
}
