use embassy_defmt_usb::rtt::{
    rtt_available, RttBuffer, RttChannel, MODE_BLOCK_IF_FULL, MODE_NON_BLOCKING_TRIM, RTT_BUF_SIZE,
};

fn channel(read: usize, write: usize, flags: usize) -> RttChannel {
    RttChannel { write, read, flags }
}

/// What a host reads, from its position up to the target's.
fn unread(c: &RttChannel, b: &RttBuffer) -> Vec<u8> {
    let mut out = Vec::new();
    let mut at = c.read;
    while at != c.write {
        out.push(b.inner[at]);
        at = (at + 1) % RTT_BUF_SIZE;
    }
    out
}

#[test]
fn ring_starts_with_zeros() {
    let mut b = RttBuffer::new();
    assert_eq!(b.inner, [0; 1024]);
    b.get()[3] = 9;
    assert_eq!(b.inner[3], 9);
}

#[test]
fn room_up_to_the_reader_or_the_end() {
    assert_eq!(rtt_available(10, 4, 1024), 5);
    assert_eq!(rtt_available(5, 4, 1024), 0);
    assert_eq!(rtt_available(0, 0, 1024), 1023);
    assert_eq!(rtt_available(0, 1023, 1024), 0);
    assert_eq!(rtt_available(4, 4, 1024), 1020);
    assert_eq!(rtt_available(1, 1023, 1024), 1);
    assert_eq!(rtt_available(1, 1024, 1024), 0);
}

#[test]
fn mode_tells_whether_a_host_is_connected() {
    assert!(channel(0, 0, MODE_BLOCK_IF_FULL).host_is_connected());
    assert!(!channel(0, 0, MODE_NON_BLOCKING_TRIM).host_is_connected());
    assert!(!channel(0, 0, 0).host_is_connected());
    assert!(!channel(0, 0, 3).host_is_connected());
    assert!(channel(0, 0, 0xF6).host_is_connected());
}

#[test]
fn blocking_pass_stops_at_the_end_of_the_ring() {
    let mut b = RttBuffer::new();
    let mut c = channel(5, 1022, MODE_BLOCK_IF_FULL);
    assert_eq!(c.blocking_write(&mut b, &[1, 2, 3, 4]), 2);
    assert_eq!(c.write, 0);
    assert_eq!(b.inner[1022..], [1, 2]);
    assert_eq!(b.inner[0], 0);
    assert_eq!(c.blocking_write(&mut b, &[3, 4]), 2);
    assert_eq!(c.write, 2);
    assert_eq!(b.inner[..2], [3, 4]);
    assert_eq!(c.read, 5);
}

#[test]
fn blocking_pass_takes_nothing_when_full_or_empty_handed() {
    let mut b = RttBuffer::new();
    let mut c = channel(5, 4, MODE_BLOCK_IF_FULL);
    assert_eq!(c.blocking_write(&mut b, &[1]), 0);
    let mut d = channel(0, 7, MODE_BLOCK_IF_FULL);
    assert_eq!(d.blocking_write(&mut b, &[]), 0);
    assert_eq!((c.write, d.write), (4, 7));
    assert_eq!(b.inner, [0; 1024]);
}

#[test]
fn write_impl_wraps_around() {
    let mut b = RttBuffer::new();
    let mut c = channel(0, 0, 0);
    assert_eq!(c.write_impl(&mut b, &[1, 2, 3, 4], 1022, 3), 3);
    assert_eq!(c.write, 1);
    assert_eq!(b.inner[1022..], [1, 2]);
    assert_eq!(b.inner[..2], [3, 0]);
    assert_eq!(c.write_impl(&mut b, &[7], 1024, 9), 1);
    assert_eq!((c.write, b.inner[0]), (1, 7));
}

#[test]
fn nonblocking_pass_overwrites() {
    let mut b = RttBuffer::new();
    let mut c = channel(3, 1020, MODE_NON_BLOCKING_TRIM);
    let bytes: Vec<u8> = (0..1500u32).map(|i| (i % 251) as u8).collect();
    assert_eq!(c.nonblocking_write(&mut b, &bytes), 1024);
    assert_eq!(c.write, 1020);
    for i in 0..1024 {
        assert_eq!(b.inner[(1020 + i) % 1024], bytes[i]);
    }
}

#[test]
fn all_is_written_without_a_host() {
    let mut b = RttBuffer::new();
    let mut c = channel(3, 1000, MODE_NON_BLOCKING_TRIM);
    let bytes: Vec<u8> = (0..3000u32).map(|i| (i % 241) as u8).collect();
    assert_eq!(c.write_all(&mut b, &bytes), 3000);
    assert_eq!(c.write, (1000 + 3000) % 1024);
    for i in 3000 - 1024..3000 {
        assert_eq!(b.inner[(1000 + i) % 1024], bytes[i]);
    }
}

#[test]
fn connected_host_misses_nothing() {
    let mut b = RttBuffer::new();
    let mut c = channel(1000, 1000, MODE_BLOCK_IF_FULL);
    let bytes: Vec<u8> = (0..2500u32).map(|i| (i % 239) as u8).collect();
    let mut seen = Vec::new();
    let mut sent = 0;
    while sent < bytes.len() {
        let n = c.write_all(&mut b, &bytes[sent..]);
        assert_eq!(n, std::cmp::min(1023, bytes.len() - sent));
        sent += n;
        assert!(!c.flush());
        seen.extend(unread(&c, &b));
        c.read = c.write;
        assert!(c.flush());
    }
    assert_eq!(seen, bytes);
}

#[test]
fn new_bytes_follow_unread_ones() {
    let mut b = RttBuffer::new();
    let mut c = channel(1021, 1021, MODE_BLOCK_IF_FULL);
    assert_eq!(c.write_all(&mut b, &[1, 2]), 2);
    assert_eq!(c.write_all(&mut b, &[3, 4, 5]), 3);
    assert_eq!(unread(&c, &b), [1, 2, 3, 4, 5]);
    assert_eq!(c.write_all(&mut b, &[6; 2000]), 1023 - 5);
    assert_eq!(c.write_all(&mut b, &[7]), 0);
    assert_eq!(unread(&c, &b)[..6], [1, 2, 3, 4, 5, 6]);
}

#[test]
fn read_position_past_the_ring() {
    let mut b = RttBuffer::new();
    let mut c = channel(1024, 1020, MODE_BLOCK_IF_FULL);
    assert_eq!(c.write_all(&mut b, &[1; 10]), 3);
    let mut c = channel(1030, 1020, MODE_BLOCK_IF_FULL);
    assert_eq!(c.write_all(&mut b, &[1; 10]), 10);
    assert_eq!(c.write, 6);
}

#[test]
fn implausible_positions_are_told() {
    assert!(channel(0, 0, MODE_BLOCK_IF_FULL).can_write(usize::MAX));
    assert!(channel(2049, 0, MODE_BLOCK_IF_FULL).can_write(usize::MAX));
    assert!(channel(2050, 0, MODE_BLOCK_IF_FULL).can_write(2048));
    assert!(!channel(2050, 0, MODE_BLOCK_IF_FULL).can_write(2049));
    assert!(!channel(2050, 1, MODE_BLOCK_IF_FULL).can_write(2048));
    assert!(channel(usize::MAX, 1, MODE_NON_BLOCKING_TRIM).can_write(usize::MAX));
    assert!(!channel(0, 1024, MODE_NON_BLOCKING_TRIM).can_write(0));
}

#[test]
fn flush_waits_only_for_a_host() {
    assert!(channel(1, 2, MODE_NON_BLOCKING_TRIM).flush());
    assert!(!channel(1, 2, MODE_BLOCK_IF_FULL).flush());
    assert!(channel(2, 2, MODE_BLOCK_IF_FULL).flush());
}
