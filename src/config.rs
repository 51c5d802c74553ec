//! Terminal line settings (`termios`), the window size, and the byte images
//! through which the sideband handles expose them.
use vstd::prelude::*;

verus! {

/// Number of control characters in `c_cc`.
pub const NCCS: usize = 32;

// Indices into `c_cc`.
pub const VEOF: usize = 0;
pub const VEOL: usize = 1;
pub const VEOL2: usize = 2;
pub const VERASE: usize = 3;
pub const VWERASE: usize = 4;
pub const VKILL: usize = 5;
pub const VREPRINT: usize = 6;
pub const VINTR: usize = 8;
pub const VQUIT: usize = 9;
pub const VSUSP: usize = 10;
pub const VSTART: usize = 12;
pub const VSTOP: usize = 13;
pub const VLNEXT: usize = 14;
pub const VDISCARD: usize = 15;
pub const VMIN: usize = 16;
pub const VTIME: usize = 17;

// Input flags (`c_iflag`).
pub const INLCR: u32 = 0o000100;
pub const IGNCR: u32 = 0o000200;
pub const ICRNL: u32 = 0o000400;
pub const IXON: u32 = 0o001000;

// Output flags (`c_oflag`).
pub const OPOST: u32 = 0o000001;
pub const ONLCR: u32 = 0o000002;

// Local flags (`c_lflag`).
pub const ISIG: u32 = 0x00000080;
pub const ICANON: u32 = 0x00000100;
pub const ECHO: u32 = 0x00000008;
pub const ECHOE: u32 = 0x00000002;
pub const ECHOK: u32 = 0x00000004;
pub const ECHONL: u32 = 0x00000010;
pub const IEXTEN: u32 = 0x00000400;

/// Size in bytes of the image of a [`Termios`].
pub const TERMIOS_SIZE: usize = 48;

/// Size in bytes of the image of a [`Winsize`].
pub const WINSIZE_SIZE: usize = 4;

/// Size in bytes of the image of a process-group id (one 64-bit word).
pub const PGRP_SIZE: usize = 8;

/// The line settings of a terminal.
#[derive(Clone, Copy, Debug)]
pub struct Termios {
    pub c_iflag: u32,
    pub c_oflag: u32,
    pub c_cflag: u32,
    pub c_lflag: u32,
    pub c_cc: [u8; 32],
}

/// The size of a terminal window, in character cells.
#[derive(Clone, Copy, Debug, Default)]
pub struct Winsize {
    pub ws_row: u16,
    pub ws_col: u16,
}

pub open spec fn has_flag(word: u32, flag: u32) -> bool {
    word & flag == flag
}

/// Control character `i` of `t`.
pub open spec fn cc(t: Termios, i: int) -> u8 {
    t.c_cc@[i]
}

pub open spec fn le16(x: u16) -> Seq<u8> {
    seq![x as u8, (x >> 8u16) as u8]
}

pub open spec fn le32(x: u32) -> Seq<u8> {
    seq![x as u8, (x >> 8u32) as u8, (x >> 16u32) as u8, (x >> 24u32) as u8]
}

pub open spec fn le64(x: u64) -> Seq<u8> {
    seq![
        x as u8,
        (x >> 8u64) as u8,
        (x >> 16u64) as u8,
        (x >> 24u64) as u8,
        (x >> 32u64) as u8,
        (x >> 40u64) as u8,
        (x >> 48u64) as u8,
        (x >> 56u64) as u8,
    ]
}

/// The in-memory image of a `Termios`: the four flag words, little-endian,
/// followed by the control characters.
pub open spec fn termios_image(t: Termios) -> Seq<u8> {
    le32(t.c_iflag) + le32(t.c_oflag) + le32(t.c_cflag) + le32(t.c_lflag) + t.c_cc@
}

/// The in-memory image of a `Winsize`: rows, then columns, little-endian.
pub open spec fn winsize_image(w: Winsize) -> Seq<u8> {
    le16(w.ws_row) + le16(w.ws_col)
}

/// The in-memory image of a process-group id: one little-endian word.
pub open spec fn pgrp_image(p: u64) -> Seq<u8> {
    le64(p)
}

proof fn lemma_le16(a: u8, b: u8)
    ensures
        le16(((a as u16) | ((b as u16) << 8u16)) as u16) == seq![a, b],
{
    let x: u16 = ((a as u16) | ((b as u16) << 8u16)) as u16;
    assert(x as u8 == a && (x >> 8u16) as u8 == b) by (bit_vector)
        requires
            x == ((a as u16) | ((b as u16) << 8u16)) as u16,
    ;
    assert(le16(x) =~= seq![a, b]);
}

proof fn lemma_le32(a: u8, b: u8, c: u8, d: u8)
    ensures
        le32(
            ((a as u32) | ((b as u32) << 8u32) | ((c as u32) << 16u32) | ((d as u32) << 24u32)) as u32,
        ) == seq![a, b, c, d],
{
    let x: u32 = ((a as u32) | ((b as u32) << 8u32) | ((c as u32) << 16u32) | ((d as u32)
        << 24u32)) as u32;
    assert(x as u8 == a && (x >> 8u32) as u8 == b && (x >> 16u32) as u8 == c && (x >> 24u32) as u8
        == d) by (bit_vector)
        requires
            x == ((a as u32) | ((b as u32) << 8u32) | ((c as u32) << 16u32) | ((d as u32)
                << 24u32)) as u32,
    ;
    assert(le32(x) =~= seq![a, b, c, d]);
}

proof fn lemma_le64(b: Seq<u8>)
    requires
        b.len() == 8,
    ensures
        le64(
            ((b[0] as u64) | ((b[1] as u64) << 8u64) | ((b[2] as u64) << 16u64) | ((b[3] as u64)
                << 24u64) | ((b[4] as u64) << 32u64) | ((b[5] as u64) << 40u64) | ((b[6] as u64)
                << 48u64) | ((b[7] as u64) << 56u64)) as u64,
        ) == b,
{
    let (b0, b1, b2, b3, b4, b5, b6, b7) = (b[0], b[1], b[2], b[3], b[4], b[5], b[6], b[7]);
    let x: u64 = ((b0 as u64) | ((b1 as u64) << 8u64) | ((b2 as u64) << 16u64) | ((b3 as u64)
        << 24u64) | ((b4 as u64) << 32u64) | ((b5 as u64) << 40u64) | ((b6 as u64) << 48u64) | ((
    b7 as u64) << 56u64)) as u64;
    assert(x as u8 == b0 && (x >> 8u64) as u8 == b1 && (x >> 16u64) as u8 == b2 && (x >> 24u64)
        as u8 == b3 && (x >> 32u64) as u8 == b4 && (x >> 40u64) as u8 == b5 && (x >> 48u64) as u8
        == b6 && (x >> 56u64) as u8 == b7) by (bit_vector)
        requires
            x == ((b0 as u64) | ((b1 as u64) << 8u64) | ((b2 as u64) << 16u64) | ((b3 as u64)
                << 24u64) | ((b4 as u64) << 32u64) | ((b5 as u64) << 40u64) | ((b6 as u64)
                << 48u64) | ((b7 as u64) << 56u64)) as u64,
    ;
    assert(le64(x) =~= b);
}

/// The image of a process-group id.
pub fn pgrp_to_bytes(p: u64) -> (r: Vec<u8>)
    ensures
        r@ == pgrp_image(p),
        r@.len() == PGRP_SIZE,
{
    let mut v: Vec<u8> = Vec::new();
    v.push(p as u8);
    v.push((p >> 8) as u8);
    v.push((p >> 16) as u8);
    v.push((p >> 24) as u8);
    v.push((p >> 32) as u8);
    v.push((p >> 40) as u8);
    v.push((p >> 48) as u8);
    v.push((p >> 56) as u8);
    assert(v@ =~= pgrp_image(p));
    v
}

/// The process-group id whose image is `b`.
pub fn pgrp_from_bytes(b: &[u8]) -> (r: u64)
    requires
        b@.len() == PGRP_SIZE,
    ensures
        pgrp_image(r) == b@,
{
    let r: u64 = (b[0] as u64) | ((b[1] as u64) << 8) | ((b[2] as u64) << 16) | ((b[3] as u64)
        << 24) | ((b[4] as u64) << 32) | ((b[5] as u64) << 40) | ((b[6] as u64) << 48) | ((
    b[7] as u64) << 56);
    proof {
        lemma_le64(b@);
    }
    r
}

fn push_le16(v: &mut Vec<u8>, x: u16)
    ensures
        final(v)@ == old(v)@ + le16(x),
{
    v.push(x as u8);
    v.push((x >> 8) as u8);
    assert(final(v)@ =~= old(v)@ + le16(x));
}

fn push_le32(v: &mut Vec<u8>, x: u32)
    ensures
        final(v)@ == old(v)@ + le32(x),
{
    v.push(x as u8);
    v.push((x >> 8) as u8);
    v.push((x >> 16) as u8);
    v.push((x >> 24) as u8);
    assert(final(v)@ =~= old(v)@ + le32(x));
}

fn read_le16(b: &[u8], at: usize) -> (r: u16)
    requires
        at + 2 <= b@.len(),
    ensures
        le16(r) == b@.subrange(at as int, at + 2),
{
    let r: u16 = (b[at] as u16) | ((b[at + 1] as u16) << 8);
    proof {
        lemma_le16(b@[at as int], b@[at + 1]);
        assert(b@.subrange(at as int, at + 2) =~= seq![b@[at as int], b@[at + 1]]);
    }
    r
}

fn read_le32(b: &[u8], at: usize) -> (r: u32)
    requires
        at + 4 <= b@.len(),
    ensures
        le32(r) == b@.subrange(at as int, at + 4),
{
    let r: u32 = (b[at] as u32) | ((b[at + 1] as u32) << 8) | ((b[at + 2] as u32) << 16) | ((b[at
        + 3] as u32) << 24);
    proof {
        lemma_le32(b@[at as int], b@[at + 1], b@[at + 2], b@[at + 3]);
        assert(b@.subrange(at as int, at + 4) =~= seq![
            b@[at as int],
            b@[at + 1],
            b@[at + 2],
            b@[at + 3],
        ]);
    }
    r
}

impl Termios {
    /// The in-memory image of these settings.
    pub fn to_bytes(&self) -> (r: Vec<u8>)
        ensures
            r@ == termios_image(*self),
            r@.len() == TERMIOS_SIZE,
    {
        let mut v: Vec<u8> = Vec::new();
        push_le32(&mut v, self.c_iflag);
        push_le32(&mut v, self.c_oflag);
        push_le32(&mut v, self.c_cflag);
        push_le32(&mut v, self.c_lflag);
        let mut i: usize = 0;
        while i < NCCS
            invariant
                i <= NCCS,
                v@ == le32(self.c_iflag) + le32(self.c_oflag) + le32(self.c_cflag) + le32(
                    self.c_lflag,
                ) + self.c_cc@.take(i as int),
            decreases NCCS - i,
        {
            v.push(self.c_cc[i]);
            proof {
                assert(self.c_cc@.take(i + 1) =~= self.c_cc@.take(i as int).push(self.c_cc@[i as int]));
            }
            i += 1;
        }
        proof {
            assert(self.c_cc@.take(NCCS as int) =~= self.c_cc@);
        }
        v
    }

    /// The settings whose image is `b`.
    pub fn from_bytes(b: &[u8]) -> (r: Termios)
        requires
            b@.len() == TERMIOS_SIZE,
        ensures
            termios_image(r) == b@,
    {
        let c_iflag = read_le32(b, 0);
        let c_oflag = read_le32(b, 4);
        let c_cflag = read_le32(b, 8);
        let c_lflag = read_le32(b, 12);
        let mut c_cc: [u8; 32] = [0u8; 32];
        let mut i: usize = 0;
        while i < NCCS
            invariant
                i <= NCCS,
                b@.len() == TERMIOS_SIZE,
                c_cc@.len() == NCCS,
                forall|j: int| 0 <= j < i ==> c_cc@[j] == b@[16 + j],
            decreases NCCS - i,
        {
            c_cc[i] = b[16 + i];
            i += 1;
        }
        let r = Termios { c_iflag, c_oflag, c_cflag, c_lflag, c_cc };
        proof {
            assert(c_cc@ =~= b@.subrange(16, 48));
            assert(b@ =~= b@.subrange(0, 4) + b@.subrange(4, 8) + b@.subrange(8, 12) + b@.subrange(
                12,
                16,
            ) + b@.subrange(16, 48));
        }
        r
    }
}

impl Winsize {
    /// The in-memory image of this size.
    pub fn to_bytes(&self) -> (r: Vec<u8>)
        ensures
            r@ == winsize_image(*self),
            r@.len() == WINSIZE_SIZE,
    {
        let mut v: Vec<u8> = Vec::new();
        push_le16(&mut v, self.ws_row);
        push_le16(&mut v, self.ws_col);
        v
    }

    /// The size whose image is `b`.
    pub fn from_bytes(b: &[u8]) -> (r: Winsize)
        requires
            b@.len() == WINSIZE_SIZE,
        ensures
            winsize_image(r) == b@,
    {
        let ws_row = read_le16(b, 0);
        let ws_col = read_le16(b, 2);
        proof {
            assert(b@ =~= b@.subrange(0, 2) + b@.subrange(2, 4));
        }
        Winsize { ws_row, ws_col }
    }
}

} // verus!
