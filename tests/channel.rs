use io_channel::{new_io_channel, ChannelError, Channels};

#[test]
fn basic_read_write() {
    let mut buf: [u8; 5] = [0; 5];
    let mut chans = Channels::new();
    let (mut read, mut write) = new_io_channel(&mut chans);
    write.write(&mut chans, &[1, 2, 3, 4, 5]).unwrap();
    let res = read.read(&mut chans, &mut buf);
    if let Ok(s) = res {
        assert_eq!(s, 5);
    } else {
        assert!(false);
    }
    assert_eq!(buf, [1, 2, 3, 4, 5]);
}

#[test]
fn read_dropped() {
    let mut chans = Channels::new();
    let (read, mut write) = new_io_channel(&mut chans);
    read.close(&mut chans);
    let res = write.write(&mut chans, &[1, 2, 3, 4, 5]);
    if let Err(e) = res {
        assert_eq!(e, ChannelError::BrokenPipe);
    } else {
        assert!(false);
    }
}

#[test]
fn write_dropped() {
    let mut buf: [u8; 5] = [0; 5];
    let mut chans = Channels::new();
    let (mut read, write) = new_io_channel(&mut chans);
    drop(write);
    let res = read.read(&mut chans, &mut buf);
    if let Ok(s) = res {
        assert_eq!(s, 0);
    } else {
        assert!(false);
    }
}

#[test]
fn several_writes_come_back_in_order() {
    let mut chans = Channels::new();
    let (mut read, mut write) = new_io_channel(&mut chans);
    assert_eq!(write.write(&mut chans, &[9, 8]), Ok(2));
    assert_eq!(write.write(&mut chans, &[]), Ok(0));
    assert_eq!(write.write(&mut chans, &[7, 6, 5]), Ok(3));
    let mut buf: [u8; 8] = [0; 8];
    assert_eq!(read.read(&mut chans, &mut buf), Ok(5));
    assert_eq!(buf, [9, 8, 7, 6, 5, 0, 0, 0]);
    assert_eq!(read.read(&mut chans, &mut buf), Ok(0));
}

#[test]
fn partial_read_then_rest() {
    let mut chans = Channels::new();
    let (mut read, mut write) = new_io_channel(&mut chans);
    assert_eq!(write.write(&mut chans, &[1, 2, 3, 4, 5]), Ok(5));
    let mut small: [u8; 3] = [0; 3];
    assert_eq!(read.read(&mut chans, &mut small), Ok(3));
    assert_eq!(small, [1, 2, 3]);
    let mut large: [u8; 5] = [0; 5];
    assert_eq!(read.read(&mut chans, &mut large), Ok(2));
    assert_eq!(large[..2], [4, 5]);
}

#[test]
fn fresh_channel_reads_nothing() {
    let mut chans = Channels::new();
    let (mut read, _write) = new_io_channel(&mut chans);
    let mut buf: [u8; 4] = [7; 4];
    assert_eq!(read.read(&mut chans, &mut buf), Ok(0));
    assert_eq!(buf, [7, 7, 7, 7]);
}

#[test]
fn empty_buffer_reads_nothing() {
    let mut chans = Channels::new();
    let (mut read, mut write) = new_io_channel(&mut chans);
    assert_eq!(write.write(&mut chans, &[1, 2]), Ok(2));
    let mut buf: [u8; 0] = [];
    assert_eq!(read.read(&mut chans, &mut buf), Ok(0));
    let mut rest: [u8; 2] = [0; 2];
    assert_eq!(read.read(&mut chans, &mut rest), Ok(2));
    assert_eq!(rest, [1, 2]);
}

#[test]
fn write_after_close_keeps_nothing() {
    let mut chans = Channels::new();
    let (read, mut write) = new_io_channel(&mut chans);
    assert_eq!(write.write(&mut chans, &[1, 2, 3]), Ok(3));
    read.close(&mut chans);
    assert_eq!(write.write(&mut chans, &[1, 2, 3, 4, 5]), Err(ChannelError::BrokenPipe));
    assert_eq!(write.write(&mut chans, &[]), Err(ChannelError::BrokenPipe));
    assert_eq!(write.write(&mut chans, &[6]), Err(ChannelError::BrokenPipe));
}

#[test]
fn queued_bytes_outlive_the_writer() {
    let mut chans = Channels::new();
    let (mut read, mut write) = new_io_channel(&mut chans);
    assert_eq!(write.write(&mut chans, &[4, 5, 6]), Ok(3));
    drop(write);
    let mut buf: [u8; 2] = [0; 2];
    assert_eq!(read.read(&mut chans, &mut buf), Ok(2));
    assert_eq!(buf, [4, 5]);
    assert_eq!(read.read(&mut chans, &mut buf), Ok(1));
    assert_eq!(buf, [6, 5]);
    for _ in 0..3 {
        assert_eq!(read.read(&mut chans, &mut buf), Ok(0));
    }
}

#[test]
fn flush_follows_the_reader() {
    let mut chans = Channels::new();
    let (read, mut write) = new_io_channel(&mut chans);
    assert_eq!(write.flush(&chans), Ok(()));
    assert_eq!(write.write(&mut chans, &[1]), Ok(1));
    assert_eq!(write.flush(&chans), Ok(()));
    read.close(&mut chans);
    assert_eq!(write.flush(&chans), Err(ChannelError::BrokenPipe));
    assert_eq!(write.flush(&chans), Err(ChannelError::BrokenPipe));
}

#[test]
fn drain_returns_each_byte_once() {
    let mut chans = Channels::new();
    let (mut read, mut write) = new_io_channel(&mut chans);
    assert_eq!(write.write(&mut chans, &[10, 20, 30, 40, 50, 60, 70]), Ok(7));
    let mut out: Vec<u8> = Vec::new();
    let mut buf: [u8; 3] = [0; 3];
    let mut counts: Vec<usize> = Vec::new();
    for _ in 0..5 {
        let n = read.read(&mut chans, &mut buf).unwrap();
        counts.push(n);
        out.extend_from_slice(&buf[..n]);
    }
    assert_eq!(counts, vec![3, 3, 1, 0, 0]);
    assert_eq!(out, vec![10, 20, 30, 40, 50, 60, 70]);
}

#[test]
fn channels_are_independent() {
    let mut chans = Channels::new();
    let (mut read_a, mut write_a) = new_io_channel(&mut chans);
    let (read_b, mut write_b) = new_io_channel(&mut chans);
    assert_eq!(write_a.write(&mut chans, &[1, 2]), Ok(2));
    assert_eq!(write_b.write(&mut chans, &[3]), Ok(1));
    read_b.close(&mut chans);
    assert_eq!(write_b.write(&mut chans, &[4]), Err(ChannelError::BrokenPipe));
    let (mut read_c, mut write_c) = new_io_channel(&mut chans);
    assert_eq!(write_b.flush(&chans), Err(ChannelError::BrokenPipe));
    assert_eq!(write_c.write(&mut chans, &[5]), Ok(1));
    let mut buf: [u8; 4] = [0; 4];
    assert_eq!(read_a.read(&mut chans, &mut buf), Ok(2));
    assert_eq!(buf[..2], [1, 2]);
    assert_eq!(read_c.read(&mut chans, &mut buf), Ok(1));
    assert_eq!(buf[0], 5);
    assert_eq!(write_a.flush(&chans), Ok(()));
}
