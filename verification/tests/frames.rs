use embassy_defmt_usb::buffer::Controller;
use embassy_defmt_usb::encoder::MultiEncoder;
use embassy_defmt_usb::rtt::{RttBuffer, RttChannel, MODE_BLOCK_IF_FULL, MODE_NON_BLOCKING_TRIM};

/// The encoded bytes of one frame.
fn frame(m: &mut MultiEncoder, data: &[u8]) -> Vec<u8> {
    let mut out = m.acquire().concat();
    out.extend(m.write(data).concat());
    out.extend(m.release().concat());
    out
}

#[test]
fn only_the_first_frame_starts_with_a_separator() {
    let mut m = MultiEncoder::new();
    assert_eq!(m.acquire(), vec![vec![0]]);
    m.release();
    assert_eq!(m.acquire(), Vec::<Vec<u8>>::new());
}

#[test]
fn frames_are_encoded() {
    let mut m = MultiEncoder::new();
    assert_eq!(frame(&mut m, &[]), [0, 0]);
    assert_eq!(frame(&mut m, &[]), [0]);
    assert_eq!(frame(&mut m, &[0]), [0x7F, 0]);
    assert_eq!(frame(&mut m, &[1]), [1, 0x7E, 0]);
    assert_eq!(frame(&mut m, &[0, 1]), [1, 0x7D, 0]);
    assert_eq!(
        frame(&mut m, &[0x11, 0x22, 0x33, 0x44, 0x55, 0x66, 0]),
        [0x11, 0x22, 0x33, 0x44, 0x55, 0x66, 0x40, 0]
    );
}

#[test]
fn frame_can_be_written_in_parts() {
    let mut whole = MultiEncoder::new();
    let expected = frame(&mut whole, &[5, 0, 0, 7, 9]);
    let mut m = MultiEncoder::new();
    let mut out = m.acquire().concat();
    for part in [&[5u8, 0][..], &[][..], &[0, 7, 9][..]] {
        out.extend(m.write(part).concat());
    }
    out.extend(m.release().concat());
    assert_eq!(out, expected);
}

#[test]
fn separators_stand_only_between_frames() {
    let mut m = MultiEncoder::new();
    frame(&mut m, &[]);
    for len in 0..300usize {
        let data: Vec<u8> = (0..len).map(|i| if i % 3 == 0 { 0 } else { i as u8 }).collect();
        let out = frame(&mut m, &data);
        assert_eq!(out.iter().position(|&b| b == 0), Some(out.len() - 1));
    }
}

#[test]
fn encoder_is_taken_from_acquire_to_release() {
    let mut m = MultiEncoder::new();
    assert!(!m.is_taken());
    m.acquire();
    assert!(m.is_taken());
    m.write(&[1, 2]);
    assert!(m.is_taken());
    m.release();
    assert!(!m.is_taken());
}

#[test]
fn frame_reaches_both_transports() {
    let mut m = MultiEncoder::new();
    let mut channel = RttChannel {
        write: 1022,
        read: 0,
        flags: MODE_NON_BLOCKING_TRIM,
    };
    let mut ring = RttBuffer::new();
    let mut c = Controller::new();

    let mut all = m.acquire();
    all.extend(m.write(&[1, 2, 0, 3]));
    all.extend(m.release());
    for piece in &all {
        let n = MultiEncoder::sink(&mut channel, &mut ring, &mut c, piece, 0);
        assert_eq!(n, piece.len());
    }
    assert!(m.flush(&mut c, &channel));

    let expected = [0, 1, 2, 3, 0x74, 0];
    assert_eq!(all.concat(), expected);
    let (idx, buf) = c.get_flushing().unwrap();
    assert_eq!(idx, 0);
    assert_eq!(buf.bytes(), expected);
    let in_ring: Vec<u8> = (0..6).map(|i| ring.inner[(1022 + i) % 1024]).collect();
    assert_eq!(in_ring, expected);
    assert_eq!(channel.write, 4);
}

#[test]
fn double_buffer_waits_for_the_channel() {
    let mut channel = RttChannel {
        write: 7,
        read: 10,
        flags: MODE_BLOCK_IF_FULL,
    };
    let mut ring = RttBuffer::new();
    let mut c = Controller::new();
    let piece = [1, 2, 3, 4, 5];
    let sent = MultiEncoder::sink(&mut channel, &mut ring, &mut c, &piece, 0);
    assert_eq!(sent, 2);
    // The host has not moved.
    let sent = MultiEncoder::sink(&mut channel, &mut ring, &mut c, &piece, sent);
    assert_eq!(sent, 2);
    c.swap();
    assert_eq!(c.get_flushing().unwrap().1.bytes(), &[] as &[u8]);
    c.reset_buffer(0);
    // It reads on.
    channel.read = channel.write;
    let sent = MultiEncoder::sink(&mut channel, &mut ring, &mut c, &piece, sent);
    assert_eq!(sent, 5);
    assert_eq!(ring.inner[7..12], piece);
    assert!(!MultiEncoder::new().flush(&mut c, &channel));
    let (idx, buf) = c.get_flushing().unwrap();
    assert_eq!((idx, buf.bytes()), (1, &piece[..]));
}

#[test]
fn empty_piece_is_written_at_once() {
    let mut channel = RttChannel {
        write: 9,
        read: 10,
        flags: MODE_BLOCK_IF_FULL,
    };
    let mut ring = RttBuffer::new();
    let mut c = Controller::new();
    assert_eq!(MultiEncoder::sink(&mut channel, &mut ring, &mut c, &[], 0), 0);
    assert_eq!(channel.write, 9);
}

#[test]
fn fresh_encoder_has_nothing_pending() {
    let mut m = MultiEncoder::new();
    m.acquire();
    assert_eq!(m.release(), vec![vec![0]]);
    m.acquire();
    m.write(&[1, 0]);
    assert_eq!(m.release(), vec![vec![0x7E], vec![0]]);
    m.acquire();
    assert_eq!(m.release(), vec![vec![0]]);
}
