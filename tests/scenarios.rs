use ptyd::config::{ICANON, TERMIOS_SIZE, VMIN, VTIME};
use ptyd::pty::{Signal, SignalRequest};
use ptyd::resource::{Error, O_NONBLOCK};
use ptyd::scheme::PtyScheme;

fn read_all(s: &mut PtyScheme, id: usize) -> Vec<Vec<u8>> {
    let mut packets = Vec::new();
    loop {
        let mut buf = [0u8; 256];
        match s.read(id, &mut buf) {
            Ok(Some(n)) if n > 0 => packets.push(buf[..n].to_vec()),
            _ => return packets,
        }
    }
}

fn set_raw(s: &mut PtyScheme, termios_id: usize, vmin: u8, vtime: u8) {
    let mut image = [0u8; TERMIOS_SIZE];
    assert_eq!(s.read(termios_id, &mut image), Ok(Some(TERMIOS_SIZE)));
    let mut lflag = u32::from_le_bytes([image[12], image[13], image[14], image[15]]);
    lflag &= !ICANON;
    image[12..16].copy_from_slice(&lflag.to_le_bytes());
    image[16 + VMIN] = vmin;
    image[16 + VTIME] = vtime;
    assert_eq!(s.write(termios_id, &image), Ok(Some(TERMIOS_SIZE)));
}

#[test]
fn controller_echo_then_subordinate_line() {
    let mut s = PtyScheme::new();
    assert_eq!(s.open("", 0), Ok(0));
    assert_eq!(s.write(0, b"hi\n"), Ok(Some(3)));
    let echoed = read_all(&mut s, 0);
    assert_eq!(echoed, vec![vec![0, b'h'], vec![0, b'i'], vec![0, b'\r', b'\n']]);
    let joined: Vec<u8> = echoed.iter().flat_map(|p| p[1..].to_vec()).collect();
    assert_eq!(joined, b"hi\r\n".to_vec());
    assert_eq!(s.open("0", 0), Ok(1));
    let mut buf = [0u8; 16];
    assert_eq!(s.read(1, &mut buf), Ok(Some(3)));
    assert_eq!(&buf[..3], b"hi\n");
}

#[test]
fn termios_sideband_switches_to_raw_mode() {
    let mut s = PtyScheme::new();
    assert_eq!(s.open("", 0), Ok(0));
    assert_eq!(s.open("0", 0), Ok(1));
    assert_eq!(s.dup(0, b"termios"), Ok(2));
    set_raw(&mut s, 2, 1, 0);
    assert_eq!(s.write(0, b"x"), Ok(Some(1)));
    let mut buf = [0u8; 16];
    assert_eq!(s.read(1, &mut buf), Ok(Some(1)));
    assert_eq!(buf[0], b'x');
}

#[test]
fn interrupt_character_signals_process_group() {
    let mut s = PtyScheme::new();
    assert_eq!(s.open("", 0), Ok(0));
    assert_eq!(s.open("0", 0), Ok(1));
    assert_eq!(s.dup(0, b"termios"), Ok(2));
    assert_eq!(s.dup(0, b"pgrp"), Ok(3));
    assert_eq!(s.write(3, &42u64.to_le_bytes()), Ok(Some(8)));
    assert_eq!(s.write(0, &[0x03]), Ok(Some(1)));
    assert_eq!(s.take_signals(), vec![SignalRequest { pgrp: 42, signal: Signal::Interrupt }]);
    assert_eq!(s.take_signals(), vec![]);
    let mut buf = [0u8; 16];
    assert_eq!(s.read(1, &mut buf), Ok(None));
    let mut word = [0u8; 8];
    assert_eq!(s.read(3, &mut word), Ok(Some(8)));
    assert_eq!(u64::from_le_bytes(word), 42);
}

#[test]
fn closing_controller_detaches_subordinates() {
    let mut s = PtyScheme::new();
    assert_eq!(s.open("", 0), Ok(0));
    assert_eq!(s.open("0", 0), Ok(1));
    assert_eq!(s.open("0", 0), Ok(2));
    assert_eq!(s.dup(1, b"winsize"), Ok(3));
    assert_eq!(s.close(0), Ok(0));
    let mut buf = [0u8; 16];
    assert_eq!(s.read(1, &mut buf), Ok(Some(0)));
    assert_eq!(s.write(2, b"x"), Err(Error::BrokenPipe));
    assert_eq!(s.fsync(2), Err(Error::BrokenPipe));
    assert_eq!(s.read(3, &mut buf), Ok(Some(0)));
    assert_eq!(s.write(3, &[1, 2, 3, 4]), Err(Error::BrokenPipe));
    assert_eq!(s.fpath(1, &mut buf), Err(Error::BrokenPipe));
}

#[test]
fn duplicated_controller_keeps_pty_alive() {
    let mut s = PtyScheme::new();
    assert_eq!(s.open("", 0), Ok(0));
    assert_eq!(s.dup(0, b""), Ok(1));
    assert_eq!(s.open("0", 0), Ok(2));
    assert_eq!(s.close(0), Ok(0));
    assert_eq!(s.write(2, b"ok"), Ok(Some(2)));
    let mut buf = [0u8; 8];
    assert_eq!(s.read(1, &mut buf), Ok(Some(3)));
    assert_eq!(&buf[..3], &[0, b'o', b'k']);
    assert_eq!(s.close(1), Ok(0));
    assert_eq!(s.write(2, b"ok"), Err(Error::BrokenPipe));
}

#[test]
fn nonblocking_controller_read_fails_blocking_one_parks() {
    let mut s = PtyScheme::new();
    assert_eq!(s.open("", O_NONBLOCK), Ok(0));
    assert_eq!(s.open("0", 0), Ok(1));
    let mut buf = [0u8; 16];
    assert_eq!(s.read(0, &mut buf), Err(Error::Again));
    assert_eq!(s.open("", 0), Ok(2));
    assert_eq!(s.open("2", 0), Ok(3));
    assert_eq!(s.read(2, &mut buf), Ok(None));
    assert_eq!(s.write(3, b"ab"), Ok(Some(2)));
    assert_eq!(s.read(2, &mut buf), Ok(Some(3)));
    assert_eq!(&buf[..3], &[0, b'a', b'b']);
}

#[test]
fn controller_read_without_peers_fails() {
    let mut s = PtyScheme::new();
    assert_eq!(s.open("", 0), Ok(0));
    let mut buf = [0u8; 16];
    assert_eq!(s.read(0, &mut buf), Err(Error::Again));
}

#[test]
fn full_subordinate_queue_parks_controller_writes() {
    let mut s = PtyScheme::new();
    assert_eq!(s.open("", 0), Ok(0));
    assert_eq!(s.open("0", 0), Ok(1));
    for _ in 0..64 {
        assert_eq!(s.write(0, b"\n"), Ok(Some(1)));
    }
    assert_eq!(s.write(0, b"\n"), Ok(None));
    let mut buf = [0u8; 16];
    assert_eq!(s.read(1, &mut buf), Ok(Some(1)));
    assert_eq!(s.write(0, b"\n"), Ok(Some(1)));
    assert_eq!(s.write(0, b"\n"), Ok(None));
}

#[test]
fn full_controller_queue_parks_subordinate_writes() {
    let mut s = PtyScheme::new();
    assert_eq!(s.open("", 0), Ok(0));
    assert_eq!(s.open("0", 0), Ok(1));
    for _ in 0..64 {
        assert_eq!(s.write(1, b"y"), Ok(Some(1)));
    }
    assert_eq!(s.write(1, b"y"), Ok(None));
    let mut buf = [0u8; 16];
    assert_eq!(s.read(0, &mut buf), Ok(Some(2)));
    assert_eq!(s.write(1, b"y"), Ok(Some(1)));
}

#[test]
fn open_ids_increase() {
    let mut s = PtyScheme::new();
    assert_eq!(s.open("", 0), Ok(0));
    assert_eq!(s.open("/", 0), Ok(1));
    assert_eq!(s.open("0", 0), Ok(2));
    assert_eq!(s.open("nope", 0), Err(Error::Invalid));
    assert_eq!(s.open("/1", 0), Ok(3));
    assert_eq!(s.open("+1", 0), Ok(4));
    assert_eq!(s.next_id(), 5);
    assert_eq!(s.ids(), vec![0, 1, 2, 3, 4]);
}

#[test]
fn open_errors() {
    let mut s = PtyScheme::new();
    assert_eq!(s.open("", 0), Ok(0));
    assert_eq!(s.open("7", 0), Err(Error::NoEntry));
    assert_eq!(s.open("x1", 0), Err(Error::Invalid));
    assert_eq!(s.open("-1", 0), Err(Error::Invalid));
    assert_eq!(s.open("+", 0), Err(Error::Invalid));
    assert_eq!(s.open("99999999999999999999999", 0), Err(Error::Invalid));
    assert_eq!(s.open("0/", 0), Err(Error::Invalid));
    assert_eq!(s.next_id(), 1);
}

#[test]
fn bad_ids_and_names() {
    let mut s = PtyScheme::new();
    let mut buf = [0u8; 4];
    assert_eq!(s.read(9, &mut buf), Err(Error::BadFd));
    assert_eq!(s.write(9, b"a"), Err(Error::BadFd));
    assert_eq!(s.dup(9, b""), Err(Error::BadFd));
    assert_eq!(s.fcntl(9, 3, 0), Err(Error::BadFd));
    assert_eq!(s.fevent(9), Err(Error::BadFd));
    assert_eq!(s.fpath(9, &mut buf), Err(Error::BadFd));
    assert_eq!(s.fstat(9), Err(Error::BadFd));
    assert_eq!(s.fsync(9), Err(Error::BadFd));
    assert_eq!(s.close(9), Ok(0));
    assert_eq!(s.open("", 0), Ok(0));
    assert_eq!(s.dup(0, b"tty"), Err(Error::Invalid));
    assert_eq!(s.fcntl(0, 99, 0), Err(Error::Invalid));
    assert_eq!(s.dup(0, b"pgrp"), Ok(1));
    assert_eq!(s.fevent(1), Err(Error::BadFd));
}

#[test]
fn fcntl_set_what_get_returned_is_no_op() {
    let mut s = PtyScheme::new();
    let flags = 0x0001_0000 | O_NONBLOCK | 0x42;
    assert_eq!(s.open("", flags), Ok(0));
    let got = s.fcntl(0, 3, 0).unwrap();
    assert_eq!(got, flags);
    assert_eq!(s.fcntl(0, 4, got), Ok(0));
    assert_eq!(s.fcntl(0, 3, 0), Ok(flags));
    assert_eq!(s.fcntl(0, 4, 0x0002_0000 | 0x8), Ok(0));
    assert_eq!(s.fcntl(0, 3, 0), Ok(0x0001_0000 | 0x8));
}

#[test]
fn fstat_and_fpath() {
    let mut s = PtyScheme::new();
    assert_eq!(s.open("", 0), Ok(0));
    assert_eq!(s.open("0", 0), Ok(1));
    assert_eq!(s.fstat(1), Ok(0x2000 | 0o666));
    let mut buf = [0u8; 32];
    assert_eq!(s.fpath(1, &mut buf), Ok(13));
    assert_eq!(&buf[..13], b"/scheme/pty/0");
    let mut short = [0u8; 5];
    assert_eq!(s.fpath(0, &mut short), Ok(5));
    assert_eq!(&short, b"/sche");
    for _ in 0..10 {
        s.open("", 0).unwrap();
    }
    assert_eq!(s.fpath(11, &mut buf), Ok(14));
    assert_eq!(&buf[..14], b"/scheme/pty/11");
}

#[test]
fn subordinate_sync_sends_marker() {
    let mut s = PtyScheme::new();
    assert_eq!(s.open("", 0), Ok(0));
    assert_eq!(s.open("0", 0), Ok(1));
    assert_eq!(s.fsync(1), Ok(0));
    assert_eq!(s.fsync(0), Ok(0));
    let mut buf = [0u8; 4];
    assert_eq!(s.read(0, &mut buf), Ok(Some(1)));
    assert_eq!(buf[0], 1);
}

#[test]
fn partial_reads_keep_the_rest() {
    let mut s = PtyScheme::new();
    assert_eq!(s.open("", 0), Ok(0));
    assert_eq!(s.open("0", 0), Ok(1));
    assert_eq!(s.write(1, b"123456789"), Ok(Some(9)));
    let mut three = [0u8; 3];
    assert_eq!(s.read(0, &mut three), Ok(Some(3)));
    assert_eq!(three, [0, b'1', b'2']);
    let mut buf = [0u8; 16];
    assert_eq!(s.read(0, &mut buf), Ok(Some(8)));
    assert_eq!(&buf[..8], &[0, b'3', b'4', b'5', b'6', b'7', b'8', b'9']);
    assert_eq!(s.write(0, b"abcdefghi\n"), Ok(Some(10)));
    assert_eq!(s.read(1, &mut three), Ok(Some(3)));
    assert_eq!(&three, b"abc");
    assert_eq!(s.read(1, &mut buf), Ok(Some(7)));
    assert_eq!(&buf[..7], b"defghi\n");
}

#[test]
fn readiness_latches() {
    let mut s = PtyScheme::new();
    assert_eq!(s.open("", 0), Ok(0));
    assert_eq!(s.open("0", 0), Ok(1));
    let ev = s.events(0).unwrap();
    assert!(!ev.read && ev.write);
    assert!(s.events(0).unwrap().is_empty());
    assert_eq!(s.write(1, b"z"), Ok(Some(1)));
    let ev = s.events(0).unwrap();
    assert!(ev.read && !ev.write);
    assert_eq!(ev.bits(), 1);
    assert!(s.events(0).unwrap().is_empty());
    let ev = s.fevent(0).unwrap();
    assert!(ev.read && ev.write);
    assert_eq!(ev.bits(), 3);
    assert_eq!(s.dup(0, b"winsize"), Ok(2));
    assert!(s.events(2).unwrap().is_empty());
}

#[test]
fn raw_mode_polling_read() {
    let mut s = PtyScheme::new();
    assert_eq!(s.open("", 0), Ok(0));
    assert_eq!(s.open("0", 0), Ok(1));
    assert_eq!(s.dup(0, b"termios"), Ok(2));
    set_raw(&mut s, 2, 0, 0);
    let mut buf = [0u8; 16];
    assert_eq!(s.read(1, &mut buf), Ok(Some(0)));
    assert_eq!(s.write(0, b"ab"), Ok(Some(2)));
    assert_eq!(s.read(1, &mut buf), Ok(Some(2)));
    assert_eq!(&buf[..2], b"ab");
}

#[test]
fn raw_mode_minimum_count() {
    let mut s = PtyScheme::new();
    assert_eq!(s.open("", 0), Ok(0));
    assert_eq!(s.open("0", 0), Ok(1));
    assert_eq!(s.dup(0, b"termios"), Ok(2));
    set_raw(&mut s, 2, 3, 0);
    let mut buf = [0u8; 16];
    assert_eq!(s.write(0, b"ab"), Ok(Some(2)));
    assert_eq!(s.read(1, &mut buf), Ok(None));
    assert_eq!(s.write(0, b"c"), Ok(Some(1)));
    assert_eq!(s.read(1, &mut buf), Ok(Some(3)));
    assert_eq!(&buf[..3], b"abc");
}

#[test]
fn raw_mode_timer_from_first_byte() {
    let mut s = PtyScheme::new();
    assert_eq!(s.open("", 0), Ok(0));
    assert_eq!(s.open("0", 0), Ok(1));
    assert_eq!(s.dup(0, b"termios"), Ok(2));
    set_raw(&mut s, 2, 0, 2);
    let mut buf = [0u8; 16];
    assert_eq!(s.read(1, &mut buf), Ok(None));
    s.timeout(1);
    assert_eq!(s.read(1, &mut buf), Ok(None));
    s.timeout(2);
    assert_eq!(s.read(1, &mut buf), Ok(Some(0)));
    assert_eq!(s.write(0, b"q"), Ok(Some(1)));
    assert_eq!(s.read(1, &mut buf), Ok(Some(1)));
    assert_eq!(buf[0], b'q');
}

#[test]
fn raw_mode_inter_byte_timer() {
    let mut s = PtyScheme::new();
    assert_eq!(s.open("", 0), Ok(0));
    assert_eq!(s.open("0", 0), Ok(1));
    assert_eq!(s.dup(0, b"termios"), Ok(2));
    set_raw(&mut s, 2, 4, 3);
    let mut buf = [0u8; 16];
    assert_eq!(s.write(0, b"ab"), Ok(Some(2)));
    assert_eq!(s.read(1, &mut buf), Ok(None));
    s.timeout(2);
    assert_eq!(s.read(1, &mut buf), Ok(None));
    s.timeout(3);
    assert_eq!(s.read(1, &mut buf), Ok(Some(2)));
    assert_eq!(&buf[..2], b"ab");
    assert_eq!(s.write(0, b"wxyz"), Ok(Some(4)));
    assert_eq!(s.read(1, &mut buf), Ok(Some(4)));
    assert_eq!(&buf[..4], b"wxyz");
}

#[test]
fn winsize_sideband_round_trip() {
    let mut s = PtyScheme::new();
    assert_eq!(s.open("", 0), Ok(0));
    assert_eq!(s.dup(0, b"winsize"), Ok(1));
    let mut buf = [9u8; 6];
    assert_eq!(s.read(1, &mut buf), Ok(Some(4)));
    assert_eq!(buf, [0, 0, 0, 0, 9, 9]);
    assert_eq!(s.write(1, &[24, 0, 80, 0, 7]), Ok(Some(4)));
    assert_eq!(s.read(1, &mut buf), Ok(Some(4)));
    assert_eq!(&buf[..4], &[24, 0, 80, 0]);
    assert_eq!(s.write(1, &[25]), Ok(Some(1)));
    assert_eq!(s.read(1, &mut buf), Ok(Some(4)));
    assert_eq!(&buf[..4], &[25, 0, 80, 0]);
}

#[test]
fn edited_line_reaches_subordinate() {
    let mut s = PtyScheme::new();
    assert_eq!(s.open("", 0), Ok(0));
    assert_eq!(s.open("0", 0), Ok(1));
    assert_eq!(s.write(0, b"lx\x7fs\n"), Ok(Some(5)));
    let mut buf = [0u8; 16];
    assert_eq!(s.read(1, &mut buf), Ok(Some(3)));
    assert_eq!(&buf[..3], b"ls\n");
}
