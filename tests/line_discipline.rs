use ptyd::config::{Termios, ECHO, ICANON, IGNCR, INLCR, ISIG, VEOF, VEOL};
use ptyd::pty::{Pty, Signal, SignalRequest};

fn drain_subordinate(p: &mut Pty) -> Vec<Vec<u8>> {
    let mut out = Vec::new();
    loop {
        let mut buf = [0u8; 256];
        match p.read_subordinate(&mut buf) {
            Some(n) => out.push(buf[..n].to_vec()),
            None => return out,
        }
    }
}

fn drain_controller(p: &mut Pty) -> Vec<Vec<u8>> {
    let mut out = Vec::new();
    loop {
        let mut buf = [0u8; 256];
        match p.read_controller(&mut buf) {
            Some(n) => out.push(buf[..n].to_vec()),
            None => return out,
        }
    }
}

#[test]
fn new_pty_has_default_settings() {
    let p = Pty::new(7);
    let d = redox_termios::Termios::default();
    assert_eq!(p.id, 7);
    assert_eq!(p.pgrp, 0);
    assert_eq!(p.termios.c_iflag, d.c_iflag);
    assert_eq!(p.termios.c_oflag, d.c_oflag);
    assert_eq!(p.termios.c_cflag, d.c_cflag);
    assert_eq!(p.termios.c_lflag, d.c_lflag);
    assert_eq!(p.termios.c_cc, d.c_cc);
    assert_eq!(p.termios.c_cflag, 0o45417);
    assert_eq!(p.termios.c_cc[VEOF], 4);
    assert_eq!(p.winsize.ws_row, 0);
    assert_eq!(p.timeout_count, 0);
    assert!(p.timeout_character.is_none());
}

#[test]
fn erase_removes_previous_byte() {
    let mut p = Pty::new(0);
    p.input(b"ab\x7fc\n");
    assert_eq!(drain_subordinate(&mut p), vec![b"ac\n".to_vec()]);
    assert!(p.cooked.is_empty());
}

#[test]
fn erase_on_empty_line_does_nothing() {
    let mut p = Pty::new(0);
    p.input(b"\x7f\x7fx\n");
    assert_eq!(drain_subordinate(&mut p), vec![b"x\n".to_vec()]);
    let echoed = drain_controller(&mut p);
    assert_eq!(echoed, vec![vec![0, b'x'], vec![0, b'\r', b'\n']]);
}

#[test]
fn erase_echoes_backspace_space_backspace() {
    let mut p = Pty::new(0);
    p.input(b"a\x7f");
    assert_eq!(drain_controller(&mut p), vec![vec![0, b'a'], vec![0, 8, b' ', 8]]);
}

#[test]
fn echo_expands_newlines() {
    let mut p = Pty::new(0);
    p.input(b"one\ntwo\n");
    let echoed = drain_controller(&mut p);
    assert_eq!(echoed.len(), 8);
    let joined: Vec<u8> = echoed.iter().flat_map(|q| { assert_eq!(q[0], 0); q[1..].to_vec() }).collect();
    assert_eq!(joined, b"one\r\ntwo\r\n".to_vec());
    assert_eq!(drain_subordinate(&mut p), vec![b"one\n".to_vec(), b"two\n".to_vec()]);
}

#[test]
fn carriage_return_becomes_newline() {
    let mut p = Pty::new(0);
    p.input(b"ok\r");
    assert_eq!(drain_subordinate(&mut p), vec![b"ok\n".to_vec()]);
}

#[test]
fn ignored_carriage_return_and_nul_are_dropped() {
    let mut p = Pty::new(0);
    p.termios.c_iflag |= IGNCR;
    p.input(b"a\r\0b\n");
    assert_eq!(drain_subordinate(&mut p), vec![b"ab\n".to_vec()]);
}

#[test]
fn inlcr_turns_newline_into_carriage_return() {
    let mut p = Pty::new(0);
    p.termios.c_iflag |= INLCR;
    p.termios.c_iflag &= !0o400;
    p.input(b"a\n");
    assert!(drain_subordinate(&mut p).is_empty());
    assert_eq!(p.cooked, b"a\r".to_vec());
}

#[test]
fn end_of_file_flushes_without_the_byte() {
    let mut p = Pty::new(0);
    p.input(b"abc\x04");
    assert_eq!(drain_subordinate(&mut p), vec![b"abc".to_vec()]);
    p.input(b"\x04");
    assert_eq!(drain_subordinate(&mut p), vec![Vec::<u8>::new()]);
}

#[test]
fn end_of_line_character_terminates() {
    let mut p = Pty::new(0);
    p.termios.c_cc[VEOL] = b';';
    p.input(b"ls;");
    assert_eq!(drain_subordinate(&mut p), vec![b"ls;".to_vec()]);
}

#[test]
fn kill_and_control_characters_are_swallowed() {
    let mut p = Pty::new(0);
    p.input(b"a\x15\x17\x12\x11\x13\x16\x0fb\n");
    assert_eq!(drain_subordinate(&mut p), vec![b"ab\n".to_vec()]);
}

#[test]
fn signals_need_a_process_group() {
    let mut p = Pty::new(0);
    p.input(b"\x03\x1c\x1a");
    assert!(p.signals.is_empty());
    p.pgrp = 9;
    p.input(b"\x03\x1c\x1a");
    assert_eq!(
        p.signals,
        vec![
            SignalRequest { pgrp: 9, signal: Signal::Interrupt },
            SignalRequest { pgrp: 9, signal: Signal::Quit },
            SignalRequest { pgrp: 9, signal: Signal::Suspend },
        ]
    );
    p.signals.clear();
    p.termios.c_lflag &= !ISIG;
    p.input(b"\x03\n");
    assert!(p.signals.is_empty());
    assert_eq!(drain_subordinate(&mut p), vec![vec![3, b'\n']]);
}

#[test]
fn no_echo_when_echo_is_off() {
    let mut p = Pty::new(0);
    p.termios.c_lflag &= !ECHO;
    p.input(b"pw\n");
    assert!(drain_controller(&mut p).is_empty());
    assert_eq!(drain_subordinate(&mut p), vec![b"pw\n".to_vec()]);
}

#[test]
fn output_without_post_processing() {
    let mut p = Pty::new(0);
    p.output(b"a\nb");
    p.termios.c_oflag = 0;
    p.output(b"a\nb");
    assert_eq!(drain_controller(&mut p), vec![vec![0, b'a', b'\r', b'\n', b'b'], vec![0, b'a', b'\n', b'b']]);
}

#[test]
fn timeout_runs_readout_only_on_change() {
    let mut p = Pty::new(0);
    p.termios.c_lflag &= !ICANON;
    p.termios.c_cc[16] = 0;
    p.termios.c_cc[17] = 1;
    p.timeout(0);
    assert!(p.timeout_character.is_none());
    p.timeout(5);
    assert_eq!(p.timeout_character, Some(5));
    p.timeout(u64::MAX);
    assert!(p.timeout_character.is_none());
    assert_eq!(drain_subordinate(&mut p), vec![Vec::<u8>::new()]);
}

#[test]
fn timer_elapsed_wraps_around() {
    let mut p = Pty::new(0);
    p.termios.c_lflag &= !ICANON;
    p.termios.c_cc[16] = 2;
    p.termios.c_cc[17] = 3;
    p.timeout(u64::MAX - 1);
    p.input(b"k");
    assert_eq!(p.timeout_character, Some(u64::MAX - 1));
    p.timeout(0);
    assert!(drain_subordinate(&mut p).is_empty());
    p.timeout(1);
    assert_eq!(drain_subordinate(&mut p), vec![b"k".to_vec()]);
}

#[test]
fn termios_image_matches_memory_layout() {
    let d = redox_termios::Termios::default();
    let mine = Pty::new(0).termios;
    let image = mine.to_bytes();
    assert_eq!(image.as_slice(), &*d);
    let back = Termios::from_bytes(&image);
    assert_eq!(back.c_lflag, d.c_lflag);
    assert_eq!(back.c_cc, d.c_cc);
    let w = redox_termios::Winsize { ws_row: 0x1234, ws_col: 0x5678 };
    let mine_w = ptyd::config::Winsize { ws_row: 0x1234, ws_col: 0x5678 };
    assert_eq!(mine_w.to_bytes().as_slice(), &*w);
}

#[test]
fn path_is_written_clipped() {
    let p = Pty::new(305);
    let mut buf = [b'#'; 20];
    assert_eq!(p.path(&mut buf), 15);
    assert_eq!(&buf[..16], b"/scheme/pty/305#");
}
