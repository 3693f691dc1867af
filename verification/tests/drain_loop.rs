use embassy_defmt_usb::buffer::Controller;
use embassy_defmt_usb::drain::{DrainAction, DrainEvent, EndpointError};
use embassy_defmt_usb::{UsbDefmtLogger, UsbDefmtTask};
use embassy_time::Duration;

#[derive(Debug, PartialEq)]
enum Asked {
    Wait,
    Write(Vec<u8>),
    Sleep(Duration),
    Abort,
}

fn asked(action: DrainAction) -> Asked {
    match action {
        DrainAction::WaitEnabled => Asked::Wait,
        DrainAction::Write(p) => Asked::Write(p.as_slice().to_vec()),
        DrainAction::Sleep(d) => Asked::Sleep(d),
        DrainAction::Abort => Asked::Abort,
    }
}

fn nap() -> Duration {
    Duration::from_millis(5)
}

/// A started task that waits for the endpoint.
fn waiting(c: &mut Controller) -> UsbDefmtTask {
    let mut task = UsbDefmtLogger::new().with_timeout(nap()).build(1, 0).task;
    assert_eq!(asked(task.run(c, DrainEvent::Start)), Asked::Wait);
    task
}

fn ok() -> DrainEvent {
    DrainEvent::Written(Ok(()))
}

fn disabled() -> DrainEvent {
    DrainEvent::Written(Err(EndpointError::Disabled))
}

fn frame(c: &mut Controller, bytes: &[u8]) {
    c.write(bytes);
    c.swap();
}

/// The packets of one transfer, from an enabled endpoint to the sleep after it.
fn transfer(bytes: &[u8], max_packet_size: u16) -> Vec<Vec<u8>> {
    let mut c = Controller::new();
    let mut task = waiting(&mut c);
    frame(&mut c, bytes);
    let mut out = Vec::new();
    let mut action = asked(task.run(&mut c, DrainEvent::Enabled { max_packet_size }));
    while let Asked::Write(p) = action {
        out.push(p);
        action = asked(task.run(&mut c, ok()));
    }
    assert_eq!(action, Asked::Sleep(nap()));
    assert!(c.get_flushing().is_none());
    out
}

#[test]
fn nothing_to_send_sleeps() {
    let mut c = Controller::new();
    let mut task = waiting(&mut c);
    let e = DrainEvent::Enabled { max_packet_size: 64 };
    assert_eq!(asked(task.run(&mut c, e)), Asked::Sleep(nap()));
    let e = DrainEvent::Elapsed { max_packet_size: 64 };
    assert_eq!(asked(task.run(&mut c, e)), Asked::Sleep(nap()));
    // Without anything to send the packet size does not matter.
    let e = DrainEvent::Elapsed { max_packet_size: 0 };
    assert_eq!(asked(task.run(&mut c, e)), Asked::Sleep(nap()));
}

#[test]
fn short_frame_is_one_packet() {
    assert_eq!(transfer(&[1, 2, 3], 64), vec![vec![1, 2, 3]]);
}

#[test]
fn frame_is_cut_into_packets() {
    assert_eq!(
        transfer(&[1, 2, 3, 4, 5, 6, 7], 3),
        vec![vec![1, 2, 3], vec![4, 5, 6], vec![7]]
    );
}

#[test]
fn full_last_packet_is_followed_by_an_empty_one() {
    assert_eq!(transfer(&[1, 2, 3, 4], 4), vec![vec![1, 2, 3, 4], vec![]]);
    assert_eq!(
        transfer(&[1, 2, 3, 4], 2),
        vec![vec![1, 2], vec![3, 4], vec![]]
    );
    assert_eq!(transfer(&[9], 1), vec![vec![9], vec![]]);
}

#[test]
fn packets_hold_the_frame() {
    let bytes: Vec<u8> = (0..31).collect();
    for max in 1..40u16 {
        let packets = transfer(&bytes, max);
        assert_eq!(packets.concat(), bytes);
        assert_eq!(packets.len(), 31 / max as usize + 1);
        let (last, full) = packets.split_last().unwrap();
        assert!(last.len() < max as usize);
        assert!(full.iter().all(|p| p.len() == max as usize));
    }
}

#[test]
fn largest_packet_size_works() {
    assert_eq!(transfer(&[1, 2], u16::MAX), vec![vec![1, 2]]);
}

#[test]
fn empty_closed_buffer_is_reset_without_a_packet() {
    assert_eq!(transfer(&[], 8), Vec::<Vec<u8>>::new());
}

#[test]
fn disconnection_drops_everything_and_waits() {
    let mut c = Controller::new();
    let mut task = waiting(&mut c);
    frame(&mut c, &[1, 2, 3]);
    let e = DrainEvent::Enabled { max_packet_size: 2 };
    assert_eq!(asked(task.run(&mut c, e)), Asked::Write(vec![1, 2]));
    frame(&mut c, &[4]);
    assert_eq!(asked(task.run(&mut c, disabled())), Asked::Wait);
    assert!(c.get_flushing().is_none());
    // Disabled: nothing is taken.
    frame(&mut c, &[5]);
    let e = DrainEvent::Enabled { max_packet_size: 2 };
    assert_eq!(asked(task.run(&mut c, e)), Asked::Sleep(nap()));
    // Enabled again.
    frame(&mut c, &[6]);
    let e = DrainEvent::Elapsed { max_packet_size: 2 };
    assert_eq!(asked(task.run(&mut c, e)), Asked::Write(vec![6]));
}

#[test]
fn disconnection_during_the_empty_packet_counts_too() {
    let mut c = Controller::new();
    let mut task = waiting(&mut c);
    frame(&mut c, &[1, 2]);
    let e = DrainEvent::Enabled { max_packet_size: 2 };
    assert_eq!(asked(task.run(&mut c, e)), Asked::Write(vec![1, 2]));
    assert_eq!(asked(task.run(&mut c, ok())), Asked::Write(vec![]));
    assert_eq!(asked(task.run(&mut c, disabled())), Asked::Wait);
    assert!(c.get_flushing().is_none());
}

#[test]
fn logging_goes_on_during_a_transfer() {
    let mut c = Controller::new();
    let mut task = waiting(&mut c);
    frame(&mut c, &[1, 2, 3]);
    let e = DrainEvent::Enabled { max_packet_size: 2 };
    assert_eq!(asked(task.run(&mut c, e)), Asked::Write(vec![1, 2]));
    frame(&mut c, &[4, 5]);
    frame(&mut c, &[6]);
    assert_eq!(asked(task.run(&mut c, ok())), Asked::Write(vec![3]));
    assert_eq!(asked(task.run(&mut c, ok())), Asked::Sleep(nap()));
    let e = DrainEvent::Elapsed { max_packet_size: 2 };
    assert_eq!(asked(task.run(&mut c, e)), Asked::Write(vec![4, 5]));
}

#[test]
fn packet_size_is_looked_at_once_per_transfer() {
    let mut c = Controller::new();
    let mut task = waiting(&mut c);
    frame(&mut c, &[1, 2, 3]);
    let e = DrainEvent::Enabled { max_packet_size: 8 };
    assert_eq!(asked(task.run(&mut c, e)), Asked::Write(vec![1, 2, 3]));
    assert_eq!(asked(task.run(&mut c, ok())), Asked::Sleep(nap()));
    frame(&mut c, &[1, 2, 3]);
    let e = DrainEvent::Elapsed { max_packet_size: 1 };
    assert_eq!(asked(task.run(&mut c, e)), Asked::Write(vec![1]));
}

#[test]
fn refused_packet_resets_its_buffer_and_ends_the_loop() {
    let mut c = Controller::new();
    let mut task = waiting(&mut c);
    frame(&mut c, &[1, 2, 3]);
    let e = DrainEvent::Enabled { max_packet_size: 2 };
    assert_eq!(asked(task.run(&mut c, e)), Asked::Write(vec![1, 2]));
    let e = DrainEvent::Written(Err(EndpointError::BufferOverflow));
    assert_eq!(asked(task.run(&mut c, e)), Asked::Abort);
    assert!(c.get_flushing().is_none());
    // Still enabled, and the second half is the current one.
    frame(&mut c, &[4]);
    let (idx, buf) = c.get_flushing().unwrap();
    assert_eq!((idx, buf.bytes()), (1, &[4][..]));
}

#[test]
fn frame_that_runs_over_is_sent_in_two_transfers() {
    let mut c = Controller::new();
    let mut task = waiting(&mut c);
    let bytes: Vec<u8> = (0..50).collect();
    for b in &bytes {
        c.write(&[*b]);
    }
    let e = DrainEvent::Enabled { max_packet_size: 64 };
    assert_eq!(asked(task.run(&mut c, e)), Asked::Write(bytes[..31].to_vec()));
    assert_eq!(asked(task.run(&mut c, ok())), Asked::Sleep(nap()));
    c.swap();
    let e = DrainEvent::Elapsed { max_packet_size: 64 };
    assert_eq!(asked(task.run(&mut c, e)), Asked::Write(bytes[31..].to_vec()));
}
