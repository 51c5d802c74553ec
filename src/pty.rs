//! The state shared by the endpoints of one pseudoterminal, and its line
//! discipline: input cooking on the controller side, output post-processing
//! on the subordinate side, and the VMIN/VTIME readout in raw mode.
use std::collections::VecDeque;

use vstd::prelude::*;

use crate::bytes::{append_tail, clipped, copy_clipped, decimal, min, push_decimal};
use crate::config::{
    cc, has_flag, Termios, Winsize, ECHO, ECHOE, ECHOK, ECHONL, ICANON, ICRNL, IEXTEN, IGNCR,
    INLCR, ISIG, IXON, NCCS, ONLCR, OPOST, VDISCARD, VEOF, VEOL, VEOL2, VERASE, VINTR, VKILL,
    VLNEXT, VMIN, VQUIT, VREPRINT, VSTART, VSTOP, VSUSP, VTIME, VWERASE,
};

verus! {

pub const NL: u8 = 10;
pub const CR: u8 = 13;

/// A signal that the line discipline raises for the foreground process group.
#[derive(Clone, Copy, Debug, PartialEq, Eq, Structural)]
pub enum Signal {
    Interrupt,
    Quit,
    Suspend,
}

/// A request to deliver `signal` to process group `pgrp`.
#[derive(Clone, Copy, Debug, PartialEq, Eq, Structural)]
pub struct SignalRequest {
    pub pgrp: u64,
    pub signal: Signal,
}

/// What the line discipline does with one input byte.
#[derive(Clone, Copy, Debug, PartialEq, Eq, Structural)]
pub enum Action {
    /// The byte is dropped or swallowed.
    Ignore,
    /// The byte ends a line: it is appended and the line is flushed.
    Terminate { echo: bool },
    /// The line is flushed without the byte.
    Eof,
    /// The last byte of the line is removed.
    Erase,
    /// A signal is raised.
    Raise { signal: Signal },
    /// The byte is appended to the line.
    Keep,
}

/// The state of one pseudoterminal.
pub struct Pty {
    pub id: usize,
    /// The foreground process group, `0` when none was set.
    pub pgrp: u64,
    pub termios: Termios,
    pub winsize: Winsize,
    /// The line being cooked.
    pub cooked: Vec<u8>,
    /// Packets for the controller; each starts with a tag byte (`0` data, `1` sync).
    pub miso: VecDeque<Vec<u8>>,
    /// Packets for the subordinate: cooked lines or raw chunks.
    pub mosi: VecDeque<Vec<u8>>,
    /// The current timer tick.
    pub timeout_count: u64,
    /// The tick at which the inter-byte timer started, if it runs.
    pub timeout_character: Option<u64>,
    /// Signals raised by the line discipline and not yet delivered.
    pub signals: Vec<SignalRequest>,
}

/// The parts of a `Pty` that the line discipline changes.
pub struct Line {
    pub cooked: Seq<u8>,
    pub to_controller: Seq<Seq<u8>>,
    pub to_subordinate: Seq<Seq<u8>>,
    pub anchor: Option<u64>,
    pub signals: Seq<SignalRequest>,
}

pub open spec fn packets(q: VecDeque<Vec<u8>>) -> Seq<Seq<u8>> {
    q@.map_values(|p: Vec<u8>| p@)
}

impl Pty {
    pub open spec fn line(&self) -> Line {
        Line {
            cooked: self.cooked@,
            to_controller: packets(self.miso),
            to_subordinate: packets(self.mosi),
            anchor: self.timeout_character,
            signals: self.signals@,
        }
    }

    /// `self` and `other` agree on everything but the line state.
    pub open spec fn same_settings(&self, other: Pty) -> bool {
        &&& self.id == other.id
        &&& self.pgrp == other.pgrp
        &&& self.termios == other.termios
        &&& self.winsize == other.winsize
        &&& self.timeout_count == other.timeout_count
    }
}

pub open spec fn default_cc() -> Seq<u8> {
    seq![
        4u8, 0, 0, 127, 23, 21, 18, 0, 3, 28, 26, 0, 17, 19, 22, 15,
        1, 0, 0, 0, 0, 0, 0, 0, 0, 0, 0, 0, 0, 0, 0, 0,
    ]
}

/// The settings of a new terminal: canonical mode with echo and signals,
/// CR-to-NL on input and NL-to-CRNL on output.
pub open spec fn is_default_termios(t: Termios) -> bool {
    &&& t.c_iflag == ICRNL | IXON
    &&& t.c_oflag == OPOST | ONLCR
    &&& t.c_cflag == 0o45417
    &&& t.c_lflag == ISIG | ICANON | ECHO | ECHOE | ECHOK | IEXTEN
    &&& t.c_cc@ == default_cc()
}

/// Relies on `redox_termios::Termios::default`, whose source sets exactly
/// these flag words and control characters.
#[verifier::external_body]
fn default_termios() -> (r: Termios)
    ensures
        is_default_termios(r),
{
    let t = redox_termios::Termios::default();
    Termios { c_iflag: t.c_iflag, c_oflag: t.c_oflag, c_cflag: t.c_cflag, c_lflag: t.c_lflag, c_cc: t.c_cc }
}

/// `p` is a new pseudoterminal with id `id`: default settings, no process
/// group, empty line and queues, timer at tick `0` and stopped.
pub open spec fn is_fresh(p: Pty, id: usize) -> bool {
    &&& p.id == id
    &&& p.pgrp == 0
    &&& is_default_termios(p.termios)
    &&& p.winsize == (Winsize { ws_row: 0, ws_col: 0 })
    &&& p.cooked@ == Seq::<u8>::empty()
    &&& packets(p.miso) == Seq::<Seq<u8>>::empty()
    &&& packets(p.mosi) == Seq::<Seq<u8>>::empty()
    &&& p.timeout_count == 0
    &&& p.timeout_character.is_none()
    &&& p.signals@ == Seq::<SignalRequest>::empty()
}

/// `p2` is `p` after a timer tick to `count`: when the tick changed, the
/// raw-mode readout ran at the new tick.
pub open spec fn ticked(p: Pty, count: u64, p2: Pty) -> bool {
    if p.timeout_count == count {
        p2 == p
    } else {
        &&& p2.line() == settle(p.line(), p.termios, count)
        &&& p2.timeout_count == count
        &&& p2.id == p.id
        &&& p2.pgrp == p.pgrp
        &&& p2.termios == p.termios
        &&& p2.winsize == p.winsize
    }
}

// ---- the line discipline, stated ----

/// The input mapping of one byte: NL/CR handling by `INLCR`, `IGNCR` and
/// `ICRNL` (`0` means the byte is dropped).
pub open spec fn translate(t: Termios, b: u8) -> u8 {
    if b == NL {
        if has_flag(t.c_iflag, INLCR) {
            CR
        } else {
            b
        }
    } else if b == CR {
        if has_flag(t.c_iflag, IGNCR) {
            0
        } else if has_flag(t.c_iflag, ICRNL) {
            NL
        } else {
            b
        }
    } else {
        b
    }
}

/// `b` is the (enabled) control character `i`.
pub open spec fn is_cc(t: Termios, b: u8, i: int) -> bool {
    b != 0 && b == cc(t, i)
}

/// The action for a translated byte `b`, by the first rule that claims it.
pub open spec fn classify(t: Termios, b: u8) -> Action {
    let icanon = has_flag(t.c_lflag, ICANON);
    let iexten = has_flag(t.c_lflag, IEXTEN);
    let isig = has_flag(t.c_lflag, ISIG);
    let ixon = has_flag(t.c_iflag, IXON);
    if b == 0 {
        Action::Ignore
    } else if icanon && b == NL {
        Action::Terminate { echo: has_flag(t.c_lflag, ECHO) || has_flag(t.c_lflag, ECHONL) }
    } else if icanon && is_cc(t, b, VEOF as int) {
        Action::Eof
    } else if icanon && (is_cc(t, b, VEOL as int) || is_cc(t, b, VEOL2 as int)) {
        Action::Terminate { echo: has_flag(t.c_lflag, ECHO) }
    } else if icanon && is_cc(t, b, VERASE as int) {
        Action::Erase
    } else if icanon && ((iexten && is_cc(t, b, VWERASE as int)) || is_cc(t, b, VKILL as int) || (
    iexten && is_cc(t, b, VREPRINT as int))) {
        Action::Ignore
    } else if isig && is_cc(t, b, VINTR as int) {
        Action::Raise { signal: Signal::Interrupt }
    } else if isig && is_cc(t, b, VQUIT as int) {
        Action::Raise { signal: Signal::Quit }
    } else if isig && is_cc(t, b, VSUSP as int) {
        Action::Raise { signal: Signal::Suspend }
    } else if ixon && (is_cc(t, b, VSTART as int) || is_cc(t, b, VSTOP as int)) {
        Action::Ignore
    } else if iexten && (is_cc(t, b, VLNEXT as int) || is_cc(t, b, VDISCARD as int)) {
        Action::Ignore
    } else {
        Action::Keep
    }
}

/// Output post-processing of `bytes`: with `OPOST` and `ONLCR`, each NL
/// becomes CR NL.
pub open spec fn expand(t: Termios, bytes: Seq<u8>) -> Seq<u8>
    decreases bytes.len(),
{
    if bytes.len() == 0 {
        seq![]
    } else {
        let b = bytes.last();
        expand(t, bytes.drop_last()) + if has_flag(t.c_oflag, OPOST) && has_flag(t.c_oflag, ONLCR)
            && b == NL {
            seq![CR, NL]
        } else {
            seq![b]
        }
    }
}

/// The controller packet that output of `bytes` produces.
pub open spec fn data_packet(t: Termios, bytes: Seq<u8>) -> Seq<u8> {
    seq![0u8] + expand(t, bytes)
}

pub open spec fn emit(l: Line, t: Termios, bytes: Seq<u8>) -> Line {
    Line { to_controller: l.to_controller.push(data_packet(t, bytes)), ..l }
}

pub open spec fn flush(l: Line) -> Line {
    Line { to_subordinate: l.to_subordinate.push(l.cooked), cooked: seq![], ..l }
}

/// The effect of one input byte `b` at tick `now`.
pub open spec fn step(l: Line, t: Termios, pgrp: u64, now: u64, b: u8) -> Line {
    let c = translate(t, b);
    match classify(t, c) {
        Action::Ignore => l,
        Action::Terminate { echo } => {
            let l1 = if echo {
                emit(l, t, seq![c])
            } else {
                l
            };
            flush(Line { cooked: l1.cooked.push(c), ..l1 })
        },
        Action::Eof => flush(l),
        Action::Erase => if l.cooked.len() > 0 {
            let l1 = Line { cooked: l.cooked.drop_last(), ..l };
            if has_flag(t.c_lflag, ECHOE) {
                emit(l1, t, seq![8u8, 32u8, 8u8])
            } else {
                l1
            }
        } else {
            l
        },
        Action::Raise { signal } => if pgrp != 0 {
            Line { signals: l.signals.push(SignalRequest { pgrp, signal }), ..l }
        } else {
            l
        },
        Action::Keep => {
            let l1 = if has_flag(t.c_lflag, ECHO) {
                emit(l, t, seq![c])
            } else {
                l
            };
            Line { cooked: l1.cooked.push(c), anchor: Some(now), ..l1 }
        },
    }
}

/// The effect of the input bytes, one after the other.
pub open spec fn feed(l: Line, t: Termios, pgrp: u64, now: u64, bytes: Seq<u8>) -> Line
    decreases bytes.len(),
{
    if bytes.len() == 0 {
        l
    } else {
        step(feed(l, t, pgrp, now, bytes.drop_last()), t, pgrp, now, bytes.last())
    }
}

/// `b` does not end or flush the line: once mapped it is kept,
/// erases, raises a signal or is dropped.
pub open spec fn edits(t: Termios, b: u8) -> bool {
    let c = translate(t, b);
    classify(t, c) == Action::Keep || classify(t, c) == Action::Erase || classify(t, c) == Action::Ignore
        || classify(t, c) is Raise
}

/// The line `cooked` after the bytes `line`: each erase byte removes the
/// last byte, if any; each kept byte is appended, as translated; other bytes
/// leave the line as it is.
pub open spec fn edited(t: Termios, cooked: Seq<u8>, line: Seq<u8>) -> Seq<u8>
    decreases line.len(),
{
    if line.len() == 0 {
        cooked
    } else {
        let c = edited(t, cooked, line.drop_last());
        let b = translate(t, line.last());
        match classify(t, b) {
            Action::Erase => if c.len() > 0 {
                c.drop_last()
            } else {
                c
            },
            Action::Keep => c.push(b),
            _ => c,
        }
    }
}

proof fn lemma_editing(l: Line, t: Termios, pgrp: u64, now: u64, line: Seq<u8>)
    requires
        forall|i: int| 0 <= i < line.len() ==> edits(t, #[trigger] line[i]),
    ensures
        feed(l, t, pgrp, now, line).cooked == edited(t, l.cooked, line),
        feed(l, t, pgrp, now, line).to_subordinate == l.to_subordinate,
    decreases line.len(),
{
    if line.len() > 0 {
        let rest = line.drop_last();
        assert forall|i: int| 0 <= i < rest.len() implies edits(t, #[trigger] rest[i]) by {
            assert(rest[i] == line[i]);
        }
        lemma_editing(l, t, pgrp, now, rest);
        assert(edits(t, line[line.len() - 1]));
    }
}

/// In canonical mode, a line ended by NL with no terminator before it
/// reaches the subordinate as one packet: the edited line with the NL, each
/// erase byte having removed the byte before it; the line being cooked is
/// then empty.
pub proof fn lemma_canonical_line(l: Line, t: Termios, pgrp: u64, now: u64, line: Seq<u8>)
    requires
        has_flag(t.c_lflag, ICANON),
        translate(t, NL) == NL,
        forall|i: int| 0 <= i < line.len() ==> edits(t, #[trigger] line[i]),
    ensures
        settle(feed(l, t, pgrp, now, line.push(NL)), t, now).to_subordinate == l.to_subordinate.push(
            edited(t, l.cooked, line).push(NL),
        ),
        settle(feed(l, t, pgrp, now, line.push(NL)), t, now).cooked == Seq::<u8>::empty(),
        l.to_subordinate.len() == 0 ==> settle(feed(l, t, pgrp, now, line.push(NL)), t, now).to_subordinate[0]
            == edited(t, l.cooked, line).push(NL),
{
    lemma_editing(l, t, pgrp, now, line);
    assert(line.push(NL).drop_last() =~= line);
}

/// `b` is echoed as it arrived: a kept byte, or NL ending the line.
pub open spec fn echoes(t: Termios, b: u8) -> bool {
    translate(t, b) == b && (classify(t, b) == Action::Keep || b == NL)
}

/// One echo packet for each byte of `bytes`.
pub open spec fn echo_packets(t: Termios, bytes: Seq<u8>) -> Seq<Seq<u8>>
    decreases bytes.len(),
{
    if bytes.len() == 0 {
        Seq::empty()
    } else {
        echo_packets(t, bytes.drop_last()).push(data_packet(t, seq![bytes.last()]))
    }
}

/// What a reader of `packets` sees: their bytes after each tag, in order.
pub open spec fn payload(packets: Seq<Seq<u8>>) -> Seq<u8>
    decreases packets.len(),
{
    if packets.len() == 0 {
        Seq::empty()
    } else {
        payload(packets.drop_last()) + packets.last().skip(1)
    }
}

proof fn lemma_echo_packets(t: Termios, bytes: Seq<u8>)
    ensures
        payload(echo_packets(t, bytes)) == expand(t, bytes),
    decreases bytes.len(),
{
    if bytes.len() > 0 {
        let b = bytes.last();
        lemma_echo_packets(t, bytes.drop_last());
        let tail = if has_flag(t.c_oflag, OPOST) && has_flag(t.c_oflag, ONLCR) && b == NL {
            seq![CR, NL]
        } else {
            seq![b]
        };
        assert(seq![b].drop_last() =~= Seq::<u8>::empty());
        assert(seq![b].last() == b);
        assert(expand(t, Seq::<u8>::empty()) == Seq::<u8>::empty());
        assert(expand(t, seq![b]) =~= tail);
        assert(data_packet(t, seq![b]).skip(1) =~= tail);
        let e = echo_packets(t, bytes);
        assert(e.drop_last() =~= echo_packets(t, bytes.drop_last()));
        assert(e.last() == data_packet(t, seq![b]));
        assert(payload(e) == payload(e.drop_last()) + e.last().skip(1));
    }
}

proof fn lemma_echo_feed(l: Line, t: Termios, pgrp: u64, now: u64, bytes: Seq<u8>)
    requires
        has_flag(t.c_lflag, ICANON),
        has_flag(t.c_lflag, ECHO),
        forall|i: int| 0 <= i < bytes.len() ==> echoes(t, #[trigger] bytes[i]),
    ensures
        feed(l, t, pgrp, now, bytes).to_controller == l.to_controller + echo_packets(t, bytes),
    decreases bytes.len(),
{
    if bytes.len() == 0 {
        assert(l.to_controller + Seq::<Seq<u8>>::empty() =~= l.to_controller);
    } else {
        let rest = bytes.drop_last();
        assert forall|i: int| 0 <= i < rest.len() implies echoes(t, #[trigger] rest[i]) by {
            assert(rest[i] == bytes[i]);
        }
        lemma_echo_feed(l, t, pgrp, now, rest);
        assert(echoes(t, bytes[bytes.len() - 1]));
        assert(l.to_controller + echo_packets(t, bytes) =~= (l.to_controller + echo_packets(t, rest)).push(
            data_packet(t, seq![bytes.last()]),
        ));
    }
}

/// With canonical mode and echo on, every kept byte and NL written to the
/// controller comes back to it as one echo packet, and the bytes after the
/// tags are the input with output post-processing applied (NL as CR NL
/// under `OPOST` and `ONLCR`).
pub proof fn lemma_echo_round_trip(l: Line, t: Termios, pgrp: u64, now: u64, bytes: Seq<u8>)
    requires
        has_flag(t.c_lflag, ICANON),
        has_flag(t.c_lflag, ECHO),
        forall|i: int| 0 <= i < bytes.len() ==> echoes(t, #[trigger] bytes[i]),
    ensures
        settle(feed(l, t, pgrp, now, bytes), t, now).to_controller == l.to_controller + echo_packets(t, bytes),
        payload(echo_packets(t, bytes)) == expand(t, bytes),
{
    lemma_echo_feed(l, t, pgrp, now, bytes);
    lemma_echo_packets(t, bytes);
}

/// The inter-byte timer started at `anchor` has run `vtime` ticks by `now`.
pub open spec fn expired(now: u64, anchor: u64, vtime: u8) -> bool {
    now.wrapping_sub(anchor) >= vtime
}

/// The raw-mode readout (VMIN/VTIME); canonical mode leaves the line as is.
pub open spec fn settle(l: Line, t: Termios, now: u64) -> Line {
    let vmin = cc(t, VMIN as int);
    let vtime = cc(t, VTIME as int);
    if has_flag(t.c_lflag, ICANON) {
        l
    } else if vtime == 0 {
        if vmin == 0 {
            if l.to_subordinate.len() == 0 {
                flush(l)
            } else {
                l
            }
        } else if l.cooked.len() >= vmin {
            flush(l)
        } else {
            l
        }
    } else if vmin == 0 {
        if l.cooked.len() > 0 {
            flush(l)
        } else {
            match l.anchor {
                Some(a) => if expired(now, a, vtime) {
                    let l1 = Line { anchor: None, ..l };
                    if l1.to_subordinate.len() == 0 {
                        flush(l1)
                    } else {
                        l1
                    }
                } else {
                    l
                },
                None => Line { anchor: Some(now), ..l },
            }
        }
    } else if l.cooked.len() >= vmin {
        flush(l)
    } else if l.cooked.len() > 0 {
        match l.anchor {
            Some(a) => if expired(now, a, vtime) {
                flush(Line { anchor: None, ..l })
            } else {
                l
            },
            None => l,
        }
    } else {
        l
    }
}

/// The path of the pseudoterminal with id `id`: `/scheme/pty/<id>`.
pub open spec fn pty_path(id: usize) -> Seq<u8> {
    seq![47u8, 115, 99, 104, 101, 109, 101, 47, 112, 116, 121, 47] + decimal(id as nat)
}

/// The controller queue after a read of at most `len` bytes from its front
/// packet: an unread tail goes back to the front behind a copy of the tag.
pub open spec fn after_tagged_read(q: Seq<Seq<u8>>, len: int) -> Seq<Seq<u8>> {
    let p = q[0];
    let n = min(len, p.len() as int);
    if n < p.len() {
        seq![seq![p[0]] + p.skip(n)] + q.skip(1)
    } else {
        q.skip(1)
    }
}

/// The subordinate queue after a read of at most `len` bytes from its front
/// packet: an unread tail goes back to the front as it is.
pub open spec fn after_plain_read(q: Seq<Seq<u8>>, len: int) -> Seq<Seq<u8>> {
    let p = q[0];
    let n = min(len, p.len() as int);
    if n < p.len() {
        seq![p.skip(n)] + q.skip(1)
    } else {
        q.skip(1)
    }
}

// ---- the line discipline, implemented ----

fn has(word: u32, flag: u32) -> (r: bool)
    ensures
        r == has_flag(word, flag),
{
    word & flag == flag
}

fn classify_byte(t: &Termios, b: u8) -> (r: Action)
    ensures
        r == classify(*t, b),
{
    let icanon = has(t.c_lflag, ICANON);
    let iexten = has(t.c_lflag, IEXTEN);
    let isig = has(t.c_lflag, ISIG);
    let ixon = has(t.c_iflag, IXON);
    let is = |i: usize| -> (r: bool)
        requires
            i < NCCS,
        ensures
            r == is_cc(*t, b, i as int),
        { b != 0 && b == t.c_cc[i] };
    if b == 0 {
        Action::Ignore
    } else if icanon && b == NL {
        Action::Terminate { echo: has(t.c_lflag, ECHO) || has(t.c_lflag, ECHONL) }
    } else if icanon && is(VEOF) {
        Action::Eof
    } else if icanon && (is(VEOL) || is(VEOL2)) {
        Action::Terminate { echo: has(t.c_lflag, ECHO) }
    } else if icanon && is(VERASE) {
        Action::Erase
    } else if icanon && ((iexten && is(VWERASE)) || is(VKILL) || (iexten && is(VREPRINT))) {
        Action::Ignore
    } else if isig && is(VINTR) {
        Action::Raise { signal: Signal::Interrupt }
    } else if isig && is(VQUIT) {
        Action::Raise { signal: Signal::Quit }
    } else if isig && is(VSUSP) {
        Action::Raise { signal: Signal::Suspend }
    } else if ixon && (is(VSTART) || is(VSTOP)) {
        Action::Ignore
    } else if iexten && (is(VLNEXT) || is(VDISCARD)) {
        Action::Ignore
    } else {
        Action::Keep
    }
}

fn translate_byte(t: &Termios, b: u8) -> (r: u8)
    ensures
        r == translate(*t, b),
{
    if b == NL {
        if has(t.c_iflag, INLCR) {
            CR
        } else {
            b
        }
    } else if b == CR {
        if has(t.c_iflag, IGNCR) {
            0
        } else if has(t.c_iflag, ICRNL) {
            NL
        } else {
            b
        }
    } else {
        b
    }
}

impl Pty {
    /// A new pseudoterminal with default settings and empty queues.
    pub fn new(id: usize) -> (r: Pty)
        ensures
            is_fresh(r, id),
    {
        let r = Pty {
            id,
            pgrp: 0,
            termios: default_termios(),
            winsize: Winsize { ws_row: 0, ws_col: 0 },
            cooked: Vec::new(),
            miso: VecDeque::new(),
            mosi: VecDeque::new(),
            timeout_count: 0,
            timeout_character: None,
            signals: Vec::new(),
        };
        proof {
            assert(packets(r.miso) =~= Seq::<Seq<u8>>::empty());
            assert(packets(r.mosi) =~= Seq::<Seq<u8>>::empty());
        }
        r
    }

    /// Writes `/scheme/pty/<id>` into `buf`, clipped to its length, and
    /// returns the number of bytes written.
    pub fn path(&self, buf: &mut [u8]) -> (n: usize)
        ensures
            final(buf)@ == clipped(old(buf)@, pty_path(self.id)),
            n == crate::bytes::min(old(buf)@.len() as int, pty_path(self.id).len() as int),
    {
        let mut p: Vec<u8> = Vec::new();
        p.push(47);
        p.push(115);
        p.push(99);
        p.push(104);
        p.push(101);
        p.push(109);
        p.push(101);
        p.push(47);
        p.push(112);
        p.push(116);
        p.push(121);
        p.push(47);
        push_decimal(&mut p, self.id);
        proof {
            assert(p@ =~= pty_path(self.id));
        }
        copy_clipped(buf, p.as_slice())
    }

    /// Moves the cooked line, as one packet, to the subordinate's queue.
    fn flush(&mut self)
        ensures
            final(self).line() == flush(old(self).line()),
            final(self).same_settings(*old(self)),
    {
        let mut line: Vec<u8> = Vec::new();
        std::mem::swap(&mut line, &mut self.cooked);
        self.mosi.push_back(line);
        proof {
            assert(packets(self.mosi) =~= packets(old(self).mosi).push(old(self).cooked@));
            assert(self.cooked@ =~= Seq::<u8>::empty());
        }
    }

    /// Processes one input byte.
    fn input_byte(&mut self, b: u8)
        ensures
            final(self).line() == step(
                old(self).line(),
                old(self).termios,
                old(self).pgrp,
                old(self).timeout_count,
                b,
            ),
            final(self).same_settings(*old(self)),
    {
        let c = translate_byte(&self.termios, b);
        let echo_on = has(self.termios.c_lflag, ECHO);
        let ghost l = old(self).line();
        let ghost t = old(self).termios;
        match classify_byte(&self.termios, c) {
            Action::Ignore => {},
            Action::Terminate { echo } => {
                if echo {
                    self.output(&[c]);
                    assert(seq![c] =~= [c]@);
                }
                self.cooked.push(c);
                self.flush();
                proof {
                    let l1 = if echo { emit(l, t, seq![c]) } else { l };
                    assert(flush(Line { cooked: l1.cooked.push(c), ..l1 }).to_subordinate =~= self.line().to_subordinate);
                }
            },
            Action::Eof => {
                self.flush();
            },
            Action::Erase => {
                if self.cooked.len() > 0 {
                    self.cooked.pop();
                    if has(self.termios.c_lflag, ECHOE) {
                        self.output(&[8, 32, 8]);
                        assert(seq![8u8, 32u8, 8u8] =~= [8u8, 32u8, 8u8]@);
                    }
                }
            },
            Action::Raise { signal } => {
                if self.pgrp != 0 {
                    self.signals.push(SignalRequest { pgrp: self.pgrp, signal });
                }
            },
            Action::Keep => {
                if echo_on {
                    self.output(&[c]);
                    assert(seq![c] =~= [c]@);
                }
                self.timeout_character = Some(self.timeout_count);
                self.cooked.push(c);
            },
        }
        proof {
            let s = step(l, t, old(self).pgrp, old(self).timeout_count, b);
            assert(self.line().cooked =~= s.cooked);
            assert(self.line().signals =~= s.signals);
            assert(self.line().to_controller =~= s.to_controller);
            assert(self.line().to_subordinate =~= s.to_subordinate);
        }
    }

    /// Runs the line discipline on bytes written to the controller, then the
    /// raw-mode readout.
    pub fn input(&mut self, buf: &[u8])
        ensures
            final(self).line() == settle(
                feed(old(self).line(), old(self).termios, old(self).pgrp, old(self).timeout_count, buf@),
                old(self).termios,
                old(self).timeout_count,
            ),
            final(self).same_settings(*old(self)),
    {
        let mut i: usize = 0;
        while i < buf.len()
            invariant
                i <= buf@.len(),
                self.same_settings(*old(self)),
                self.line() == feed(
                    old(self).line(),
                    old(self).termios,
                    old(self).pgrp,
                    old(self).timeout_count,
                    buf@.take(i as int),
                ),
            decreases buf@.len() - i,
        {
            self.input_byte(buf[i]);
            proof {
                assert(buf@.take(i + 1).drop_last() =~= buf@.take(i as int));
            }
            i += 1;
        }
        proof {
            assert(buf@.take(buf@.len() as int) =~= buf@);
        }
        self.update();
    }

    /// Appends one data packet holding `buf`, post-processed, to the
    /// controller's queue.
    pub fn output(&mut self, buf: &[u8])
        ensures
            final(self).line() == emit(old(self).line(), old(self).termios, buf@),
            final(self).same_settings(*old(self)),
    {
        let onlcr = has(self.termios.c_oflag, OPOST) && has(self.termios.c_oflag, ONLCR);
        let mut v: Vec<u8> = Vec::new();
        v.push(0);
        let mut i: usize = 0;
        while i < buf.len()
            invariant
                i <= buf@.len(),
                onlcr == (has_flag(self.termios.c_oflag, OPOST) && has_flag(self.termios.c_oflag, ONLCR)),
                v@ == seq![0u8] + expand(self.termios, buf@.take(i as int)),
            decreases buf@.len() - i,
        {
            let b = buf[i];
            if onlcr && b == NL {
                v.push(CR);
            }
            v.push(b);
            proof {
                assert(buf@.take(i + 1).drop_last() =~= buf@.take(i as int));
                assert(v@ =~= seq![0u8] + expand(self.termios, buf@.take(i + 1)));
            }
            i += 1;
        }
        proof {
            assert(buf@.take(buf@.len() as int) =~= buf@);
        }
        self.miso.push_back(v);
        proof {
            assert(packets(self.miso) =~= packets(old(self).miso).push(data_packet(self.termios, buf@)));
        }
    }

    /// The raw-mode readout: decides by VMIN and VTIME whether the bytes
    /// gathered so far go to the subordinate.
    pub fn update(&mut self)
        ensures
            final(self).line() == settle(old(self).line(), old(self).termios, old(self).timeout_count),
            final(self).same_settings(*old(self)),
    {
        let icanon = has(self.termios.c_lflag, ICANON);
        let vmin = self.termios.c_cc[VMIN];
        let vtime = self.termios.c_cc[VTIME];
        if icanon {
        } else if vtime == 0 {
            if vmin == 0 {
                if self.mosi.len() == 0 {
                    self.flush();
                }
            } else if self.cooked.len() >= vmin as usize {
                self.flush();
            }
        } else if vmin == 0 {
            if self.cooked.len() > 0 {
                self.flush();
            } else {
                match self.timeout_character {
                    Some(a) => {
                        if self.timeout_count.wrapping_sub(a) >= vtime as u64 {
                            self.timeout_character = None;
                            if self.mosi.len() == 0 {
                                self.flush();
                            }
                        }
                    },
                    None => {
                        self.timeout_character = Some(self.timeout_count);
                    },
                }
            }
        } else if self.cooked.len() >= vmin as usize {
            self.flush();
        } else if self.cooked.len() > 0 {
            match self.timeout_character {
                Some(a) => {
                    if self.timeout_count.wrapping_sub(a) >= vtime as u64 {
                        self.timeout_character = None;
                        self.flush();
                    }
                },
                None => {},
            }
        }
    }

    /// Takes the front packet of the controller queue into `buf`, as far as
    /// it fits; `None` when the queue is empty.
    pub fn read_controller(&mut self, buf: &mut [u8]) -> (r: Option<usize>)
        ensures
            packets(old(self).miso).len() == 0 ==> {
                &&& r.is_none()
                &&& final(self).line() == old(self).line()
                &&& final(self).same_settings(*old(self))
                &&& final(buf)@ == old(buf)@
            },
            packets(old(self).miso).len() > 0 ==> {
                let p = packets(old(self).miso)[0];
                &&& r == Some(min(old(buf)@.len() as int, p.len() as int) as usize)
                &&& final(buf)@ == clipped(old(buf)@, p)
                &&& final(self).line() == (Line {
                    to_controller: after_tagged_read(packets(old(self).miso), old(buf)@.len() as int),
                    ..old(self).line()
                })
                &&& final(self).same_settings(*old(self))
            },
    {
        match self.miso.pop_front() {
            Some(packet) => {
                let n = copy_clipped(buf, packet.as_slice());
                if n < packet.len() {
                    let mut rest: Vec<u8> = Vec::new();
                    rest.push(packet[0]);
                    append_tail(&mut rest, packet.as_slice(), n);
                    self.miso.push_front(rest);
                }
                proof {
                    assert(packets(self.miso) =~= after_tagged_read(packets(old(self).miso), old(buf)@.len() as int));
                }
                Some(n)
            },
            None => None,
        }
    }

    /// Takes the front packet of the subordinate queue into `buf`, as far as
    /// it fits; `None` when the queue is empty.
    pub fn read_subordinate(&mut self, buf: &mut [u8]) -> (r: Option<usize>)
        ensures
            packets(old(self).mosi).len() == 0 ==> {
                &&& r.is_none()
                &&& final(self).line() == old(self).line()
                &&& final(self).same_settings(*old(self))
                &&& final(buf)@ == old(buf)@
            },
            packets(old(self).mosi).len() > 0 ==> {
                let p = packets(old(self).mosi)[0];
                &&& r == Some(min(old(buf)@.len() as int, p.len() as int) as usize)
                &&& final(buf)@ == clipped(old(buf)@, p)
                &&& final(self).line() == (Line {
                    to_subordinate: after_plain_read(packets(old(self).mosi), old(buf)@.len() as int),
                    ..old(self).line()
                })
                &&& final(self).same_settings(*old(self))
            },
    {
        match self.mosi.pop_front() {
            Some(packet) => {
                let n = copy_clipped(buf, packet.as_slice());
                if n < packet.len() {
                    let mut rest: Vec<u8> = Vec::new();
                    append_tail(&mut rest, packet.as_slice(), n);
                    self.mosi.push_front(rest);
                }
                proof {
                    assert(packets(self.mosi) =~= after_plain_read(packets(old(self).mosi), old(buf)@.len() as int));
                }
                Some(n)
            },
            None => None,
        }
    }

    /// Appends the sync marker, a packet holding only the tag `1`, to the
    /// controller queue.
    pub fn push_sync(&mut self)
        ensures
            final(self).line() == (Line {
                to_controller: old(self).line().to_controller.push(seq![1u8]),
                ..old(self).line()
            }),
            final(self).same_settings(*old(self)),
    {
        let mut v: Vec<u8> = Vec::new();
        v.push(1);
        self.miso.push_back(v);
        proof {
            assert(packets(self.miso) =~= packets(old(self).miso).push(seq![1u8]));
        }
    }

    /// Moves the timer to tick `count`; when it changed, runs the readout.
    pub fn timeout(&mut self, count: u64)
        ensures
            old(self).timeout_count == count ==> *final(self) == *old(self),
            old(self).timeout_count != count ==> {
                &&& final(self).line() == settle(old(self).line(), old(self).termios, count)
                &&& final(self).timeout_count == count
                &&& final(self).id == old(self).id
                &&& final(self).pgrp == old(self).pgrp
                &&& final(self).termios == old(self).termios
                &&& final(self).winsize == old(self).winsize
            },
    {
        if self.timeout_count != count {
            self.timeout_count = count;
            self.update();
        }
    }
}

} // verus!
