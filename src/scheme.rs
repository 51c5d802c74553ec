//! The handle table: maps handle ids to endpoint handles and the
//! pseudoterminals they share, and carries out the request verbs on them.
use vstd::prelude::*;
use vstd::string::StringSliceAdditionalSpecFns;

use crate::bytes::{clipped, min};
use crate::config::{has_flag, pgrp_image, termios_image, winsize_image, ICANON};
use crate::controlterm::{control_read, control_write, latched, PtyControlTerm};
use crate::pgrp::PtyPgrp;
use crate::pty::{
    edited, edits, is_fresh, lemma_canonical_line, packets, pty_path, settle, ticked, translate, Line, Pty,
    SignalRequest, NL,
};
use crate::resource::{setfl, Error, Events, Resource, F_GETFL, F_SETFL, MODE_CHR};
use crate::subterm::{sub_read, sub_write, PtySubTerm};
use crate::table::{increasing, lemma_position, lemma_push, lemma_remove, lemma_table, lemma_update, table};
use crate::termios::PtyTermios;
use crate::winsize::PtyWinsize;

verus! {

pub const SLASH: u8 = 47;
pub const PLUS: u8 = 43;

// ---- paths and names ----

/// `b` without its leading slashes.
pub open spec fn trim_slashes(b: Seq<u8>) -> Seq<u8>
    decreases b.len(),
{
    if b.len() > 0 && b[0] == SLASH {
        trim_slashes(b.skip(1))
    } else {
        b
    }
}

pub open spec fn is_digit(c: u8) -> bool {
    48 <= c <= 57
}

pub open spec fn all_digits(d: Seq<u8>) -> bool {
    forall|i: int| 0 <= i < d.len() ==> is_digit(#[trigger] d[i])
}

/// The number that the decimal digits `d` spell.
pub open spec fn digits_value(d: Seq<u8>) -> nat
    decreases d.len(),
{
    if d.len() == 0 {
        0
    } else {
        digits_value(d.drop_last()) * 10 + (d.last() - 48) as nat
    }
}

/// The id that `b` spells: an optional `+`, then one or more decimal digits
/// whose value fits in a `usize`.
pub open spec fn parse_id(b: Seq<u8>) -> Option<usize> {
    let d = if b.len() > 0 && b[0] == PLUS {
        b.skip(1)
    } else {
        b
    };
    if d.len() > 0 && all_digits(d) && digits_value(d) <= usize::MAX {
        Some(digits_value(d) as usize)
    } else {
        None
    }
}

proof fn lemma_digits_grow(d: Seq<u8>, k: int)
    requires
        all_digits(d),
        0 <= k <= d.len(),
    ensures
        digits_value(d) >= digits_value(d.take(k)),
    decreases d.len(),
{
    if k == d.len() {
        assert(d.take(k) =~= d);
    } else {
        let e = d.drop_last();
        assert(all_digits(e)) by {
            assert forall|i: int| 0 <= i < e.len() implies is_digit(#[trigger] e[i]) by {
                assert(e[i] == d[i]);
            }
        }
        lemma_digits_grow(e, k);
        assert(e.take(k) =~= d.take(k));
        assert(is_digit(d[d.len() - 1]));
    }
}

/// Index of the first byte of `b` that is not a slash.
fn skip_slashes(b: &[u8]) -> (r: usize)
    ensures
        r <= b@.len(),
        trim_slashes(b@) == b@.skip(r as int),
{
    let mut i: usize = 0;
    assert(b@.skip(0) =~= b@);
    while i < b.len() && b[i] == SLASH
        invariant
            i <= b@.len(),
            trim_slashes(b@) == trim_slashes(b@.skip(i as int)),
        decreases b@.len() - i,
    {
        assert(b@.skip(i as int).skip(1) =~= b@.skip(i + 1));
        i += 1;
    }
    i
}

/// Parses `b[start..]` as an id.
fn parse_from(b: &[u8], start: usize) -> (r: Option<usize>)
    requires
        start <= b@.len(),
    ensures
        r == parse_id(b@.skip(start as int)),
{
    let ghost t = b@.skip(start as int);
    let mut i = start;
    if i < b.len() && b[i] == PLUS {
        i += 1;
    }
    let ghost d = b@.skip(i as int);
    let ghost dd = if t.len() > 0 && t[0] == PLUS {
        t.skip(1)
    } else {
        t
    };
    assert(d =~= dd);
    assert(parse_id(t) == if d.len() > 0 && all_digits(d) && digits_value(d) <= usize::MAX {
        Some(digits_value(d) as usize)
    } else {
        None::<usize>
    });
    if i == b.len() {
        return None;
    }
    let first = i;
    let mut v: usize = 0;
    while i < b.len()
        invariant
            first <= i <= b@.len(),
            d == b@.skip(first as int),
            t == b@.skip(start as int),
            parse_id(t) == if d.len() > 0 && all_digits(d) && digits_value(d) <= usize::MAX {
                Some(digits_value(d) as usize)
            } else {
                None::<usize>
            },
            all_digits(b@.subrange(first as int, i as int)),
            v == digits_value(b@.subrange(first as int, i as int)),
        decreases b@.len() - i,
    {
        let c = b[i];
        let ghost k = i - first;
        assert(b@.subrange(first as int, i + 1) =~= d.take(k + 1));
        assert(b@.subrange(first as int, i as int) =~= d.take(k));
        assert(d.take(k + 1).drop_last() =~= d.take(k));
        if c < 48 || c > 57 {
            assert(!is_digit(d[k]));
            assert(!all_digits(d));
            return None;
        }
        assert(all_digits(d.take(k + 1))) by {
            assert forall|j: int| 0 <= j < k + 1 implies is_digit(#[trigger] d.take(k + 1)[j]) by {
                if j < k {
                    assert(d.take(k + 1)[j] == d.take(k)[j]);
                }
            }
        }
        let digit = (c - 48) as usize;
        match v.checked_mul(10) {
            None => {
                proof {
                    if all_digits(d) {
                        lemma_digits_grow(d, k + 1);
                    }
                }
                return None;
            },
            Some(w) => match w.checked_add(digit) {
                None => {
                    proof {
                        if all_digits(d) {
                            lemma_digits_grow(d, k + 1);
                        }
                    }
                    return None;
                },
                Some(x) => {
                    v = x;
                },
            },
        }
        i += 1;
    }
    assert(b@.subrange(first as int, b@.len() as int) =~= d);
    Some(v)
}

/// `buf` holds exactly the bytes of `name`.
fn is_name(buf: &[u8], name: &[u8]) -> (r: bool)
    ensures
        r == (buf@ == name@),
{
    if buf.len() != name.len() {
        return false;
    }
    let mut i: usize = 0;
    while i < buf.len()
        invariant
            buf@.len() == name@.len(),
            i <= buf@.len(),
            buf@.take(i as int) == name@.take(i as int),
        decreases buf@.len() - i,
    {
        if buf[i] != name[i] {
            return false;
        }
        i += 1;
        assert(buf@.take(i as int) =~= name@.take(i as int)) by {
            assert(buf@.take(i - 1) == name@.take(i - 1));
            assert forall|j: int| 0 <= j < i implies buf@.take(i as int)[j] == name@.take(i as int)[j] by {
                if j < i - 1 {
                    assert(buf@.take(i - 1)[j] == name@.take(i - 1)[j]);
                }
            }
        }
    }
    assert(buf@ =~= buf@.take(i as int));
    assert(name@ =~= name@.take(i as int));
    true
}

pub open spec fn pgrp_name() -> Seq<u8> {
    seq![112u8, 103, 114, 112]
}

pub open spec fn termios_name() -> Seq<u8> {
    seq![116u8, 101, 114, 109, 105, 111, 115]
}

pub open spec fn winsize_name() -> Seq<u8> {
    seq![119u8, 105, 110, 115, 105, 122, 101]
}

/// The handle that dup of `h` with `name` makes: a copy for the empty name,
/// a sideband on the same pseudoterminal with the same flags for the three
/// sideband names, nothing for any other name.
pub open spec fn dup_target(h: Resource, name: Seq<u8>) -> Option<Resource> {
    if name.len() == 0 {
        Some(h)
    } else if name == pgrp_name() {
        Some(Resource::Pgrp(PtyPgrp { pty: h.pty_id(), flags: h.flags_of() }))
    } else if name == termios_name() {
        Some(Resource::Termios(PtyTermios { pty: h.pty_id(), flags: h.flags_of() }))
    } else if name == winsize_name() {
        Some(Resource::Winsize(PtyWinsize { pty: h.pty_id(), flags: h.flags_of() }))
    } else {
        None
    }
}

fn select_dup(h: Resource, name: &[u8]) -> (r: Option<Resource>)
    ensures
        r == dup_target(h, name@),
{
    assert([112u8, 103, 114, 112]@ =~= pgrp_name());
    assert([116u8, 101, 114, 109, 105, 111, 115]@ =~= termios_name());
    assert([119u8, 105, 110, 115, 105, 122, 101]@ =~= winsize_name());
    if name.len() == 0 {
        Some(h.boxed_clone())
    } else if is_name(name, &[112u8, 103, 114, 112]) {
        Some(Resource::Pgrp(PtyPgrp::new(h.pty(), h.flags())))
    } else if is_name(name, &[116u8, 101, 114, 109, 105, 111, 115]) {
        Some(Resource::Termios(PtyTermios::new(h.pty(), h.flags())))
    } else if is_name(name, &[119u8, 105, 110, 115, 105, 122, 101]) {
        Some(Resource::Winsize(PtyWinsize::new(h.pty(), h.flags())))
    } else {
        None
    }
}

// ---- the table ----

/// Handles and the pseudoterminals they share.
pub struct PtyScheme {
    next_id: usize,
    handles: Vec<(usize, Resource)>,
    ptys: Vec<(usize, Pty)>,
}

/// Some handle other than a controller refers to pseudoterminal `pid`.
pub open spec fn has_peers(h: Map<usize, Resource>, pid: usize) -> bool {
    exists|k: usize| h.contains_key(k) && !h[k].is_controller() && h[k].pty_id() == pid
}

/// Some controller handle refers to pseudoterminal `pid`.
pub open spec fn has_controller(h: Map<usize, Resource>, pid: usize) -> bool {
    exists|k: usize| h.contains_key(k) && h[k].is_controller() && h[k].pty_id() == pid
}

impl PtyScheme {
    /// The id that the next handle gets.
    pub closed spec fn next(&self) -> usize {
        self.next_id
    }

    /// The handles, by id.
    pub closed spec fn handles(&self) -> Map<usize, Resource> {
        table(self.handles@)
    }

    /// The live pseudoterminals, by id.
    pub closed spec fn ptys(&self) -> Map<usize, Pty> {
        table(self.ptys@)
    }

    /// Entries are kept in increasing id order, ids are below the next id,
    /// and the pseudoterminal of every controller is live.
    pub closed spec fn wf(&self) -> bool {
        &&& increasing(self.handles@)
        &&& increasing(self.ptys@)
        &&& forall|i: int|
            0 <= i < self.handles@.len() ==> #[trigger] self.handles@[i].0 < self.next_id
                && self.handles@[i].1.pty_id() < self.next_id
        &&& forall|i: int| 0 <= i < self.ptys@.len() ==> #[trigger] self.ptys@[i].0 < self.next_id
        &&& forall|k: usize|
            #[trigger] self.handles().contains_key(k) && self.handles()[k].is_controller()
                ==> self.ptys().contains_key(self.handles()[k].pty_id())
    }

    /// Nothing that the views show changed from `s` to `self`.
    pub open spec fn same(&self, s: PtyScheme) -> bool {
        &&& self.next() == s.next()
        &&& self.handles() == s.handles()
        &&& self.ptys() == s.ptys()
    }

    /// An empty table.
    pub fn new() -> (r: PtyScheme)
        ensures
            r.wf(),
            r.next() == 0,
            r.handles() == Map::<usize, Resource>::empty(),
            r.ptys() == Map::<usize, Pty>::empty(),
    {
        PtyScheme { next_id: 0, handles: Vec::new(), ptys: Vec::new() }
    }

    /// The id that the next handle gets.
    pub fn next_id(&self) -> (r: usize)
        ensures
            r == self.next(),
    {
        self.next_id
    }

    /// The handle ids, in increasing order.
    pub fn ids(&self) -> (r: Vec<usize>)
        requires
            self.wf(),
        ensures
            forall|i: int, j: int| 0 <= i < j < r@.len() ==> r@[i] < r@[j],
            forall|k: usize| self.handles().contains_key(k) <==> r@.contains(k),
    {
        let mut r: Vec<usize> = Vec::new();
        let mut i: usize = 0;
        while i < self.handles.len()
            invariant
                i <= self.handles@.len(),
                increasing(self.handles@),
                r@.len() == i,
                forall|j: int| 0 <= j < i ==> r@[j] == self.handles@[j].0,
            decreases self.handles@.len() - i,
        {
            r.push(self.handles[i].0);
            i += 1;
        }
        proof {
            lemma_table(self.handles@);
            assert forall|k: usize| self.handles().contains_key(k) <==> r@.contains(k) by {
                if self.handles().contains_key(k) {
                    let j = choose|j: int| 0 <= j < self.handles@.len() && self.handles@[j].0 == k;
                    assert(r@[j] == k);
                }
                if r@.contains(k) {
                    let j = choose|j: int| 0 <= j < r@.len() && r@[j] == k;
                    assert(table(self.handles@).contains_key(self.handles@[j].0));
                }
            }
        }
        r
    }

    fn find_handle(&self, id: usize) -> (r: Option<usize>)
        requires
            increasing(self.handles@),
        ensures
            match r {
                Some(i) => i < self.handles@.len() && self.handles@[i as int].0 == id
                    && self.handles().contains_key(id) && self.handles()[id] == self.handles@[i as int].1,
                None => !self.handles().contains_key(id),
            },
    {
        let mut i: usize = 0;
        while i < self.handles.len()
            invariant
                i <= self.handles@.len(),
                increasing(self.handles@),
                forall|j: int| 0 <= j < i ==> self.handles@[j].0 != id,
            decreases self.handles@.len() - i,
        {
            if self.handles[i].0 == id {
                proof {
                    lemma_position(self.handles@, i as int);
                }
                return Some(i);
            }
            i += 1;
        }
        proof {
            lemma_table(self.handles@);
        }
        None
    }

    fn find_pty(&self, pid: usize) -> (r: Option<usize>)
        requires
            increasing(self.ptys@),
        ensures
            match r {
                Some(i) => i < self.ptys@.len() && self.ptys@[i as int].0 == pid && self.ptys().contains_key(pid)
                    && self.ptys()[pid] == self.ptys@[i as int].1,
                None => !self.ptys().contains_key(pid),
            },
    {
        let mut i: usize = 0;
        while i < self.ptys.len()
            invariant
                i <= self.ptys@.len(),
                increasing(self.ptys@),
                forall|j: int| 0 <= j < i ==> self.ptys@[j].0 != pid,
            decreases self.ptys@.len() - i,
        {
            if self.ptys[i].0 == pid {
                proof {
                    lemma_position(self.ptys@, i as int);
                }
                return Some(i);
            }
            i += 1;
        }
        proof {
            lemma_table(self.ptys@);
        }
        None
    }

    /// Whether a handle other than a controller refers to pseudoterminal `pid`.
    fn peers(&self, pid: usize) -> (r: bool)
        requires
            increasing(self.handles@),
        ensures
            r == has_peers(self.handles(), pid),
    {
        proof {
            lemma_table(self.handles@);
        }
        let mut i: usize = 0;
        while i < self.handles.len()
            invariant
                i <= self.handles@.len(),
                increasing(self.handles@),
                forall|j: int|
                    0 <= j < i ==> !(!(#[trigger] self.handles@[j]).1.is_controller()
                        && self.handles@[j].1.pty_id() == pid),
            decreases self.handles@.len() - i,
        {
            let h = self.handles[i].1;
            let is_control = match h {
                Resource::Control(_) => true,
                _ => false,
            };
            if !is_control && h.pty() == pid {
                proof {
                    lemma_position(self.handles@, i as int);
                }
                return true;
            }
            i += 1;
        }
        proof {
            assert forall|k: usize| !(#[trigger] self.handles().contains_key(k) && !self.handles()[k].is_controller()
                && self.handles()[k].pty_id() == pid) by {
                if self.handles().contains_key(k) {
                    let j = choose|j: int| 0 <= j < self.handles@.len() && self.handles@[j].0 == k;
                    lemma_position(self.handles@, j);
                    assert(self.handles@[j] == self.handles@[j]);
                }
            }
        }
        false
    }

    /// Whether a controller handle refers to pseudoterminal `pid`.
    fn controlled(&self, pid: usize) -> (r: bool)
        requires
            increasing(self.handles@),
        ensures
            r == has_controller(self.handles(), pid),
    {
        proof {
            lemma_table(self.handles@);
        }
        let mut i: usize = 0;
        while i < self.handles.len()
            invariant
                i <= self.handles@.len(),
                increasing(self.handles@),
                forall|j: int|
                    0 <= j < i ==> !((#[trigger] self.handles@[j]).1.is_controller()
                        && self.handles@[j].1.pty_id() == pid),
            decreases self.handles@.len() - i,
        {
            let h = self.handles[i].1;
            let is_control = match h {
                Resource::Control(_) => true,
                _ => false,
            };
            if is_control && h.pty() == pid {
                proof {
                    lemma_position(self.handles@, i as int);
                }
                return true;
            }
            i += 1;
        }
        proof {
            assert forall|k: usize| !(#[trigger] self.handles().contains_key(k) && self.handles()[k].is_controller()
                && self.handles()[k].pty_id() == pid) by {
                if self.handles().contains_key(k) {
                    let j = choose|j: int| 0 <= j < self.handles@.len() && self.handles@[j].0 == k;
                    lemma_position(self.handles@, j);
                    assert(self.handles@[j] == self.handles@[j]);
                }
            }
        }
        false
    }

    /// Writes `h` back over entry `i`, which holds a handle of the same kind
    /// on the same pseudoterminal.
    fn set_handle(&mut self, i: usize, h: Resource)
        requires
            old(self).wf(),
            i < old(self).handles@.len(),
            h.pty_id() == old(self).handles@[i as int].1.pty_id(),
            h.is_controller() == old(self).handles@[i as int].1.is_controller(),
        ensures
            final(self).wf(),
            final(self).next() == old(self).next(),
            final(self).handles() == old(self).handles().insert(old(self).handles@[i as int].0, h),
            final(self).ptys() == old(self).ptys(),
            final(self).ptys@ == old(self).ptys@,
    {
        let k = self.handles[i].0;
        self.handles.set(i, (k, h));
        proof {
            lemma_update(old(self).handles@, i as int, h);
            assert(self.handles@ == old(self).handles@.update(i as int, (k, h)));
            lemma_shape(*old(self), *self);
        }
    }

    /// Installs `h` under a fresh id and returns that id.
    fn install(&mut self, h: Resource) -> (id: usize)
        requires
            old(self).wf(),
            old(self).next() < usize::MAX,
            h.pty_id() < old(self).next(),
            h.is_controller() ==> old(self).ptys().contains_key(h.pty_id()),
        ensures
            final(self).wf(),
            id == old(self).next(),
            final(self).next() == id + 1,
            final(self).handles() == old(self).handles().insert(id, h),
            final(self).ptys() == old(self).ptys(),
    {
        let id = self.next_id;
        self.next_id = id + 1;
        self.handles.push((id, h));
        proof {
            lemma_push(old(self).handles@, id, h);
            assert(self.handles@ == old(self).handles@.push((id, h)));
            assert(increasing(self.handles@)) by {
                assert forall|i: int, j: int| 0 <= i < j < self.handles@.len() implies self.handles@[i].0 < self.handles@[j].0 by {
                    if j == self.handles@.len() - 1 {
                        assert(old(self).handles@[i].0 < old(self).next_id);
                    } else {
                        assert(old(self).handles@[i] == self.handles@[i]);
                        assert(old(self).handles@[j] == self.handles@[j]);
                    }
                }
            }
            assert forall|i: int| 0 <= i < self.handles@.len() implies #[trigger] self.handles@[i].0 < self.next_id
                && self.handles@[i].1.pty_id() < self.next_id by {
                if i < old(self).handles@.len() {
                    assert(old(self).handles@[i] == self.handles@[i]);
                }
            }
            assert forall|i: int| 0 <= i < self.ptys@.len() implies #[trigger] self.ptys@[i].0 < self.next_id by {
                assert(old(self).ptys@[i].0 < old(self).next_id);
            }
            assert forall|k: usize| #[trigger] self.handles().contains_key(k) && self.handles()[k].is_controller()
                implies self.ptys().contains_key(self.handles()[k].pty_id()) by {
                if k != id {
                    assert(old(self).handles().contains_key(k));
                }
            }
        }
        id
    }

    /// Makes a new pseudoterminal and its controller, under a fresh id.
    fn install_controller(&mut self, flags: usize) -> (id: usize)
        requires
            old(self).wf(),
            old(self).next() < usize::MAX,
        ensures
            final(self).wf(),
            id == old(self).next(),
            final(self).next() == id + 1,
            final(self).handles() == old(self).handles().insert(
                id,
                Resource::Control(PtyControlTerm { pty: id, flags, notified_read: false, notified_write: false }),
            ),
            final(self).ptys() == old(self).ptys().insert(id, final(self).ptys()[id]),
            is_fresh(final(self).ptys()[id], id),
    {
        let id = self.next_id;
        let pty = Pty::new(id);
        let h = Resource::Control(PtyControlTerm::new(id, flags));
        self.ptys.push((id, pty));
        self.handles.push((id, h));
        self.next_id = id + 1;
        proof {
            lemma_push(old(self).ptys@, id, pty);
            lemma_push(old(self).handles@, id, h);
            assert(increasing(self.ptys@)) by {
                assert forall|i: int, j: int| 0 <= i < j < self.ptys@.len() implies self.ptys@[i].0 < self.ptys@[j].0 by {
                    if j == self.ptys@.len() - 1 {
                        assert(old(self).ptys@[i].0 < old(self).next_id);
                    } else {
                        assert(old(self).ptys@[i] == self.ptys@[i]);
                        assert(old(self).ptys@[j] == self.ptys@[j]);
                    }
                }
            }
            assert(increasing(self.handles@)) by {
                assert forall|i: int, j: int| 0 <= i < j < self.handles@.len() implies self.handles@[i].0 < self.handles@[j].0 by {
                    if j == self.handles@.len() - 1 {
                        assert(old(self).handles@[i].0 < old(self).next_id);
                    } else {
                        assert(old(self).handles@[i] == self.handles@[i]);
                        assert(old(self).handles@[j] == self.handles@[j]);
                    }
                }
            }
            assert forall|i: int| 0 <= i < self.handles@.len() implies #[trigger] self.handles@[i].0 < self.next_id
                && self.handles@[i].1.pty_id() < self.next_id by {
                if i < old(self).handles@.len() {
                    assert(old(self).handles@[i] == self.handles@[i]);
                }
            }
            assert forall|i: int| 0 <= i < self.ptys@.len() implies #[trigger] self.ptys@[i].0 < self.next_id by {
                if i < old(self).ptys@.len() {
                    assert(old(self).ptys@[i] == self.ptys@[i]);
                }
            }
            assert forall|k: usize| #[trigger] self.handles().contains_key(k) && self.handles()[k].is_controller()
                implies self.ptys().contains_key(self.handles()[k].pty_id()) by {
                if k != id {
                    assert(old(self).handles().contains_key(k));
                }
            }
        }
        id
    }

    /// Opens a path. The root path (empty once leading slashes are dropped)
    /// makes a new pseudoterminal and its controller; a decimal id of an
    /// existing handle makes a subordinate of that handle's pseudoterminal.
    /// Returns the new handle's id.
    pub fn open(&mut self, path: &str, flags: usize) -> (r: Result<usize, Error>)
        requires
            old(self).wf(),
            old(self).next() < usize::MAX,
        ensures
            final(self).wf(),
            open_post(*old(self), path.spec_bytes(), flags, *final(self), r),
    {
        let bytes = path.as_bytes();
        let start = skip_slashes(bytes);
        if start == bytes.len() {
            proof {
                assert(bytes@.skip(start as int).len() == 0);
            }
            let id = self.install_controller(flags);
            Ok(id)
        } else {
            match parse_from(bytes, start) {
                None => Err(Error::Invalid),
                Some(n) => match self.find_handle(n) {
                    None => Err(Error::NoEntry),
                    Some(i) => {
                        let pid = self.handles[i].1.pty();
                        let id = self.install(Resource::Sub(PtySubTerm::new(pid, flags)));
                        Ok(id)
                    },
                },
            }
        }
    }

    /// Makes a new handle from handle `old_id`: a copy for an empty `buf`, or
    /// the sideband that `buf` names (`pgrp`, `termios`, `winsize`). Returns
    /// the new handle's id.
    pub fn dup(&mut self, old_id: usize, buf: &[u8]) -> (r: Result<usize, Error>)
        requires
            old(self).wf(),
            old(self).next() < usize::MAX,
        ensures
            final(self).wf(),
            dup_post(*old(self), old_id, buf@, *final(self), r),
    {
        match self.find_handle(old_id) {
            None => Err(Error::BadFd),
            Some(i) => {
                let h = self.handles[i].1;
                proof {
                    assert(self.handles@[i as int].1.pty_id() < self.next_id);
                }
                match select_dup(h, buf) {
                    None => Err(Error::Invalid),
                    Some(nh) => {
                        let id = self.install(nh);
                        Ok(id)
                    },
                }
            },
        }
    }

    /// Drops handle `id`. When it was the last controller of its
    /// pseudoterminal, the pseudoterminal goes too.
    pub fn close(&mut self, id: usize) -> (r: Result<usize, Error>)
        requires
            old(self).wf(),
        ensures
            final(self).wf(),
            r == Ok::<usize, Error>(0),
            close_post(*old(self), id, *final(self)),
    {
        match self.find_handle(id) {
            None => {},
            Some(i) => {
                let h = self.handles[i].1;
                let pid = h.pty();
                self.handles.remove(i);
                proof {
                    lemma_remove(old(self).handles@, i as int);
                }
                let is_control = match h {
                    Resource::Control(_) => true,
                    _ => false,
                };
                if is_control && !self.controlled(pid) {
                    match self.find_pty(pid) {
                        Some(j) => {
                            self.ptys.remove(j);
                            proof {
                                lemma_remove(old(self).ptys@, j as int);
                            }
                        },
                        None => {},
                    }
                }
            },
        }
        Ok(0)
    }

    /// Reads from handle `id` into `buf`: a controller or subordinate takes a
    /// packet, a sideband copies its field; `Ok(None)` means the read parks.
    pub fn read(&mut self, id: usize, buf: &mut [u8]) -> (r: Result<Option<usize>, Error>)
        requires
            old(self).wf(),
        ensures
            final(self).wf(),
            read_post(*old(self), id, old(buf)@, *final(self), final(buf)@, r),
    {
        let i = match self.find_handle(id) {
            None => {
                return Err(Error::BadFd);
            },
            Some(i) => i,
        };
        let h = self.handles[i].1;
        let pid = h.pty();
        let found = self.find_pty(pid);
        match h {
            Resource::Control(c) => {
                let j = match found {
                    Some(j) => j,
                    None => {
                        // cannot happen: a controller keeps its pseudoterminal live
                        proof {
                            assert(self.handles().contains_key(id));
                        }
                        return Err(Error::BadFd);
                    },
                };
                let peers = self.peers(pid);
                let mut c2 = c;
                let ghost before = *self;
                let r = c2.read(&mut self.ptys[j].1, buf, peers);
                proof {
                    lemma_update(before.ptys@, j as int, self.ptys@[j as int].1);
                    assert(self.ptys@ == before.ptys@.update(j as int, (pid, self.ptys@[j as int].1)));
                    lemma_shape(before, *self);
                }
                self.set_handle(i, Resource::Control(c2));
                r
            },
            Resource::Sub(t) => {
                let mut t2 = t;
                match found {
                    Some(j) => {
                        let ghost before = *self;
                        let r = t2.read(&mut self.ptys[j].1, buf);
                        proof {
                            lemma_update(before.ptys@, j as int, self.ptys@[j as int].1);
                            assert(self.ptys@ == before.ptys@.update(j as int, (pid, self.ptys@[j as int].1)));
                            lemma_shape(before, *self);
                        }
                        self.set_handle(i, Resource::Sub(t2));
                        r
                    },
                    None => {
                        let r = t2.read_detached();
                        self.set_handle(i, Resource::Sub(t2));
                        r
                    },
                }
            },
            Resource::Pgrp(g) => match found {
                Some(j) => g.read(&self.ptys[j].1, buf),
                None => Ok(Some(0)),
            },
            Resource::Termios(g) => match found {
                Some(j) => g.read(&self.ptys[j].1, buf),
                None => Ok(Some(0)),
            },
            Resource::Winsize(g) => match found {
                Some(j) => g.read(&self.ptys[j].1, buf),
                None => Ok(Some(0)),
            },
        }
    }

    /// Writes `buf` to handle `id`: a controller feeds the line discipline,
    /// a subordinate sends output, a sideband overwrites its field;
    /// `Ok(None)` means the write parks.
    pub fn write(&mut self, id: usize, buf: &[u8]) -> (r: Result<Option<usize>, Error>)
        requires
            old(self).wf(),
        ensures
            final(self).wf(),
            write_post(*old(self), id, buf@, *final(self), r),
    {
        let i = match self.find_handle(id) {
            None => {
                return Err(Error::BadFd);
            },
            Some(i) => i,
        };
        let h = self.handles[i].1;
        let pid = h.pty();
        let j = match self.find_pty(pid) {
            Some(j) => j,
            None => {
                proof {
                    assert(self.handles().contains_key(id));
                }
                return Err(Error::BrokenPipe);
            },
        };
        let ghost before = *self;
        let r = match h {
            Resource::Control(c) => {
                let mut c2 = c;
                c2.write(&mut self.ptys[j].1, buf)
            },
            Resource::Sub(t) => {
                let mut t2 = t;
                t2.write(&mut self.ptys[j].1, buf)
            },
            Resource::Pgrp(g) => g.write(&mut self.ptys[j].1, buf),
            Resource::Termios(g) => g.write(&mut self.ptys[j].1, buf),
            Resource::Winsize(g) => g.write(&mut self.ptys[j].1, buf),
        };
        proof {
            lemma_update(before.ptys@, j as int, self.ptys@[j as int].1);
            assert(self.ptys@ == before.ptys@.update(j as int, (pid, self.ptys@[j as int].1)));
            lemma_shape(before, *self);
        }
        r
    }

    /// `fcntl` on handle `id`.
    pub fn fcntl(&mut self, id: usize, cmd: usize, arg: usize) -> (r: Result<usize, Error>)
        requires
            old(self).wf(),
        ensures
            final(self).wf(),
            !old(self).handles().contains_key(id) ==> r == Err::<usize, Error>(Error::BadFd) && final(self).same(*old(self)),
            old(self).handles().contains_key(id) ==> {
                let h = old(self).handles()[id];
                &&& final(self).next() == old(self).next()
                &&& final(self).ptys() == old(self).ptys()
                &&& cmd == F_GETFL ==> r == Ok::<usize, Error>(h.flags_of()) && final(self).handles() == old(self).handles()
                &&& cmd == F_SETFL ==> r == Ok::<usize, Error>(0) && final(self).handles() == old(self).handles().insert(
                    id,
                    h.with_flags(setfl(h.flags_of(), arg)),
                )
                &&& cmd != F_GETFL && cmd != F_SETFL ==> r == Err::<usize, Error>(Error::Invalid)
                    && final(self).handles() == old(self).handles()
            },
    {
        let i = match self.find_handle(id) {
            None => {
                return Err(Error::BadFd);
            },
            Some(i) => i,
        };
        let mut h = self.handles[i].1;
        let r = h.fcntl(cmd, arg);
        self.set_handle(i, h);
        proof {
            if cmd != F_SETFL {
                assert(old(self).handles().insert(id, h) =~= old(self).handles());
            }
        }
        r
    }

    /// Clears the notification latches of handle `id` and reports its
    /// readiness; sidebands cannot be waited on.
    pub fn fevent(&mut self, id: usize) -> (r: Result<Events, Error>)
        requires
            old(self).wf(),
        ensures
            final(self).wf(),
            fevent_post(*old(self), id, *final(self), r),
    {
        let i = match self.find_handle(id) {
            None => {
                return Err(Error::BadFd);
            },
            Some(i) => i,
        };
        let h = self.handles[i].1;
        let pid = h.pty();
        let found = self.find_pty(pid);
        match h {
            Resource::Control(c) => {
                let j = match found {
                    Some(j) => j,
                    None => {
                        // cannot happen: a controller keeps its pseudoterminal live
                        proof {
                            assert(self.handles().contains_key(id));
                        }
                        return Err(Error::BadFd);
                    },
                };
                let mut c2 = c;
                let r = c2.fevent(&self.ptys[j].1);
                self.set_handle(i, Resource::Control(c2));
                r
            },
            Resource::Sub(t) => {
                let mut t2 = t;
                let r = match found {
                    Some(j) => t2.fevent(&self.ptys[j].1),
                    None => t2.fevent_detached(),
                };
                self.set_handle(i, Resource::Sub(t2));
                r
            },
            Resource::Pgrp(g) => g.fevent(),
            Resource::Termios(g) => g.fevent(),
            Resource::Winsize(g) => g.fevent(),
        }
    }

    /// Reports the readiness of handle `id` not reported since its latches
    /// were last cleared, and latches it.
    pub fn events(&mut self, id: usize) -> (r: Result<Events, Error>)
        requires
            old(self).wf(),
        ensures
            final(self).wf(),
            events_post(*old(self), id, *final(self), r),
    {
        let i = match self.find_handle(id) {
            None => {
                return Err(Error::BadFd);
            },
            Some(i) => i,
        };
        let h = self.handles[i].1;
        let pid = h.pty();
        let found = self.find_pty(pid);
        match h {
            Resource::Control(c) => {
                let j = match found {
                    Some(j) => j,
                    None => {
                        // cannot happen: a controller keeps its pseudoterminal live
                        proof {
                            assert(self.handles().contains_key(id));
                        }
                        return Err(Error::BadFd);
                    },
                };
                let mut c2 = c;
                let r = c2.events(&self.ptys[j].1);
                self.set_handle(i, Resource::Control(c2));
                Ok(r)
            },
            Resource::Sub(t) => {
                let mut t2 = t;
                let r = match found {
                    Some(j) => t2.events(&self.ptys[j].1),
                    None => t2.events_detached(),
                };
                self.set_handle(i, Resource::Sub(t2));
                Ok(r)
            },
            Resource::Pgrp(g) => Ok(g.events()),
            Resource::Termios(g) => Ok(g.events()),
            Resource::Winsize(g) => Ok(g.events()),
        }
    }

    /// Writes the path of handle `id`'s pseudoterminal into `buf`, clipped.
    pub fn fpath(&mut self, id: usize, buf: &mut [u8]) -> (r: Result<usize, Error>)
        requires
            old(self).wf(),
        ensures
            final(self).wf(),
            final(self).same(*old(self)),
            !old(self).handles().contains_key(id) ==> r == Err::<usize, Error>(Error::BadFd) && final(buf)@ == old(buf)@,
            old(self).handles().contains_key(id) ==> {
                let pid = old(self).handles()[id].pty_id();
                if old(self).ptys().contains_key(pid) {
                    let path = pty_path(old(self).ptys()[pid].id);
                    &&& final(buf)@ == clipped(old(buf)@, path)
                    &&& r == Ok::<usize, Error>(min(old(buf)@.len() as int, path.len() as int) as usize)
                } else {
                    r == Err::<usize, Error>(Error::BrokenPipe) && final(buf)@ == old(buf)@
                }
            },
    {
        let i = match self.find_handle(id) {
            None => {
                return Err(Error::BadFd);
            },
            Some(i) => i,
        };
        let h = self.handles[i].1;
        match self.find_pty(h.pty()) {
            None => Err(Error::BrokenPipe),
            Some(j) => {
                let pty = &self.ptys[j].1;
                match h {
                    Resource::Control(c) => c.path(pty, buf),
                    Resource::Sub(t) => t.path(pty, buf),
                    Resource::Pgrp(g) => g.path(pty, buf),
                    Resource::Termios(g) => g.path(pty, buf),
                    Resource::Winsize(g) => g.path(pty, buf),
                }
            },
        }
    }

    /// The mode of handle `id`: a character device readable and writable
    /// by all.
    pub fn fstat(&self, id: usize) -> (r: Result<u16, Error>)
        requires
            self.wf(),
        ensures
            r == if self.handles().contains_key(id) {
                Ok::<u16, Error>(MODE_CHR | 0o666)
            } else {
                Err::<u16, Error>(Error::BadFd)
            },
    {
        match self.find_handle(id) {
            None => Err(Error::BadFd),
            Some(_) => Ok(MODE_CHR | 0o666),
        }
    }

    /// Syncs handle `id`: a subordinate queues the sync marker for the
    /// controller; other handles do nothing.
    pub fn fsync(&mut self, id: usize) -> (r: Result<usize, Error>)
        requires
            old(self).wf(),
        ensures
            final(self).wf(),
            fsync_post(*old(self), id, *final(self), r),
    {
        let i = match self.find_handle(id) {
            None => {
                return Err(Error::BadFd);
            },
            Some(i) => i,
        };
        let h = self.handles[i].1;
        match h {
            Resource::Control(c) => c.sync(),
            Resource::Sub(t) => match self.find_pty(t.pty) {
                None => Err(Error::BrokenPipe),
                Some(j) => {
                    let mut t2 = t;
                    let ghost before = *self;
                    let r = t2.sync(&mut self.ptys[j].1);
                    proof {
                        lemma_update(before.ptys@, j as int, self.ptys@[j as int].1);
                        assert(self.ptys@ == before.ptys@.update(j as int, (t.pty, self.ptys@[j as int].1)));
                        lemma_shape(before, *self);
                    }
                    r
                },
            },
            Resource::Pgrp(g) => g.sync(),
            Resource::Termios(g) => g.sync(),
            Resource::Winsize(g) => g.sync(),
        }
    }

    /// The signals raised and not yet taken, by pseudoterminal in id order.
    pub closed spec fn pending_signals(&self) -> Seq<SignalRequest> {
        signals_of(self.ptys@)
    }

    /// Moves every live pseudoterminal's timer to tick `count`.
    pub fn timeout(&mut self, count: u64)
        requires
            old(self).wf(),
        ensures
            final(self).wf(),
            final(self).next() == old(self).next(),
            final(self).handles() == old(self).handles(),
            final(self).ptys().dom() == old(self).ptys().dom(),
            forall|k: usize| #[trigger] old(self).ptys().contains_key(k) ==> ticked(old(self).ptys()[k], count, final(self).ptys()[k]),
    {
        let mut j: usize = 0;
        while j < self.ptys.len()
            invariant
                old(self).wf(),
                same_shape(*old(self), *self),
                self.handles@ == old(self).handles@,
                j <= self.ptys@.len(),
                forall|i: int| 0 <= i < j ==> ticked(old(self).ptys@[i].1, count, #[trigger] self.ptys@[i].1),
                forall|i: int| j <= i < self.ptys@.len() ==> #[trigger] self.ptys@[i] == old(self).ptys@[i],
            decreases self.ptys@.len() - j,
        {
            let ghost before = *self;
            self.ptys[j].1.timeout(count);
            proof {
                assert(self.ptys@ == before.ptys@.update(j as int, (before.ptys@[j as int].0, self.ptys@[j as int].1)));
            }
            j += 1;
        }
        proof {
            lemma_shape(*old(self), *self);
            lemma_table(old(self).ptys@);
            lemma_table(self.ptys@);
            assert forall|k: usize| #[trigger] old(self).ptys().contains_key(k) implies ticked(old(self).ptys()[k], count, self.ptys()[k]) by {
                let i = choose|i: int| 0 <= i < old(self).ptys@.len() && old(self).ptys@[i].0 == k;
                lemma_position(old(self).ptys@, i);
                lemma_position(self.ptys@, i);
            }
            assert forall|k: usize| #[trigger] self.ptys().contains_key(k) implies old(self).ptys().contains_key(k) by {
                let i = choose|i: int| 0 <= i < self.ptys@.len() && self.ptys@[i].0 == k;
                lemma_position(old(self).ptys@, i);
            }
            assert forall|k: usize| #[trigger] old(self).ptys().contains_key(k) implies self.ptys().contains_key(k) by {
                let i = choose|i: int| 0 <= i < old(self).ptys@.len() && old(self).ptys@[i].0 == k;
                lemma_position(self.ptys@, i);
            }
            assert(self.ptys().dom() =~= old(self).ptys().dom());
        }
    }

    /// Takes the signals that the line discipline raised, for delivery.
    pub fn take_signals(&mut self) -> (r: Vec<SignalRequest>)
        requires
            old(self).wf(),
        ensures
            final(self).wf(),
            r@ == old(self).pending_signals(),
            final(self).pending_signals() == Seq::<SignalRequest>::empty(),
            final(self).next() == old(self).next(),
            final(self).handles() == old(self).handles(),
            final(self).ptys().dom() == old(self).ptys().dom(),
            forall|k: usize| #[trigger] old(self).ptys().contains_key(k) ==> {
                let p = old(self).ptys()[k];
                let p2 = final(self).ptys()[k];
                &&& p2.same_settings(p)
                &&& p2.line() == (Line { signals: Seq::empty(), ..p.line() })
            },
    {
        let mut r: Vec<SignalRequest> = Vec::new();
        let mut j: usize = 0;
        while j < self.ptys.len()
            invariant
                old(self).wf(),
                same_shape(*old(self), *self),
                self.handles@ == old(self).handles@,
                j <= self.ptys@.len(),
                r@ == signals_of(old(self).ptys@.take(j as int)),
                forall|i: int| 0 <= i < j ==> {
                    let p = old(self).ptys@[i].1;
                    let p2 = (#[trigger] self.ptys@[i]).1;
                    &&& p2.same_settings(p)
                    &&& p2.line() == (Line { signals: Seq::empty(), ..p.line() })
                },
                forall|i: int| j <= i < self.ptys@.len() ==> #[trigger] self.ptys@[i] == old(self).ptys@[i],
            decreases self.ptys@.len() - j,
        {
            let ghost before = *self;
            let mut taken: Vec<SignalRequest> = Vec::new();
            std::mem::swap(&mut taken, &mut self.ptys[j].1.signals);
            r.append(&mut taken);
            proof {
                assert(self.ptys@ == before.ptys@.update(j as int, (before.ptys@[j as int].0, self.ptys@[j as int].1)));
                assert(old(self).ptys@.take(j + 1).drop_last() =~= old(self).ptys@.take(j as int));
                assert(self.ptys@[j as int].1.signals@ =~= Seq::<SignalRequest>::empty());
            }
            j += 1;
        }
        proof {
            assert(old(self).ptys@.take(j as int) =~= old(self).ptys@);
            lemma_shape(*old(self), *self);
            lemma_table(old(self).ptys@);
            lemma_table(self.ptys@);
            assert forall|k: usize| #[trigger] old(self).ptys().contains_key(k) implies ({
                let p = old(self).ptys()[k];
                let p2 = self.ptys()[k];
                &&& p2.same_settings(p)
                &&& p2.line() == (Line { signals: Seq::empty(), ..p.line() })
            }) by {
                let i = choose|i: int| 0 <= i < old(self).ptys@.len() && old(self).ptys@[i].0 == k;
                lemma_position(old(self).ptys@, i);
                lemma_position(self.ptys@, i);
            }
            assert forall|k: usize| #[trigger] self.ptys().contains_key(k) implies old(self).ptys().contains_key(k) by {
                let i = choose|i: int| 0 <= i < self.ptys@.len() && self.ptys@[i].0 == k;
                lemma_position(old(self).ptys@, i);
            }
            assert forall|k: usize| #[trigger] old(self).ptys().contains_key(k) implies self.ptys().contains_key(k) by {
                let i = choose|i: int| 0 <= i < old(self).ptys@.len() && old(self).ptys@[i].0 == k;
                lemma_position(self.ptys@, i);
            }
            assert(self.ptys().dom() =~= old(self).ptys().dom());
            lemma_no_signals(self.ptys@);
        }
        r
    }
}

/// The signals pending in the pseudoterminals of `ps`, in order.
pub open spec fn signals_of(ps: Seq<(usize, Pty)>) -> Seq<SignalRequest>
    decreases ps.len(),
{
    if ps.len() == 0 {
        Seq::empty()
    } else {
        signals_of(ps.drop_last()) + ps.last().1.signals@
    }
}

proof fn lemma_no_signals(ps: Seq<(usize, Pty)>)
    requires
        forall|i: int| 0 <= i < ps.len() ==> (#[trigger] ps[i]).1.signals@ == Seq::<SignalRequest>::empty(),
    ensures
        signals_of(ps) == Seq::<SignalRequest>::empty(),
    decreases ps.len(),
{
    if ps.len() > 0 {
        let t = ps.drop_last();
        assert forall|i: int| 0 <= i < t.len() implies (#[trigger] t[i]).1.signals@ == Seq::<SignalRequest>::empty() by {
            assert(t[i] == ps[i]);
        }
        lemma_no_signals(t);
        assert(ps[ps.len() - 1].1.signals@ == Seq::<SignalRequest>::empty());
        assert(signals_of(ps) =~= Seq::<SignalRequest>::empty());
    }
}

/// `s` and `s2` hold entries with the same keys, kinds and references in the
/// same places.
pub closed spec fn same_shape(s: PtyScheme, s2: PtyScheme) -> bool {
    &&& s2.next_id == s.next_id
    &&& s2.handles@.len() == s.handles@.len()
    &&& s2.ptys@.len() == s.ptys@.len()
    &&& forall|i: int|
        0 <= i < s.handles@.len() ==> (#[trigger] s2.handles@[i]).0 == s.handles@[i].0
            && s2.handles@[i].1.pty_id() == s.handles@[i].1.pty_id()
            && s2.handles@[i].1.is_controller() == s.handles@[i].1.is_controller()
    &&& forall|i: int| 0 <= i < s.ptys@.len() ==> (#[trigger] s2.ptys@[i]).0 == s.ptys@[i].0
}

proof fn lemma_shape(s: PtyScheme, s2: PtyScheme)
    requires
        s.wf(),
        same_shape(s, s2),
    ensures
        s2.wf(),
{
    assert(increasing(s2.handles@)) by {
        assert forall|i: int, j: int| 0 <= i < j < s2.handles@.len() implies s2.handles@[i].0 < s2.handles@[j].0 by {
            assert(s2.handles@[i].0 == s.handles@[i].0);
            assert(s2.handles@[j].0 == s.handles@[j].0);
        }
    }
    assert(increasing(s2.ptys@)) by {
        assert forall|i: int, j: int| 0 <= i < j < s2.ptys@.len() implies s2.ptys@[i].0 < s2.ptys@[j].0 by {
            assert(s2.ptys@[i].0 == s.ptys@[i].0);
            assert(s2.ptys@[j].0 == s.ptys@[j].0);
        }
    }
    assert forall|i: int| 0 <= i < s2.handles@.len() implies #[trigger] s2.handles@[i].0 < s2.next_id
        && s2.handles@[i].1.pty_id() < s2.next_id by {
        assert(s.handles@[i].0 < s.next_id);
    }
    assert forall|i: int| 0 <= i < s2.ptys@.len() implies #[trigger] s2.ptys@[i].0 < s2.next_id by {
        assert(s.ptys@[i].0 < s.next_id);
    }
    lemma_table(s.handles@);
    lemma_table(s2.handles@);
    lemma_table(s.ptys@);
    lemma_table(s2.ptys@);
    assert forall|k: usize| #[trigger] s2.handles().contains_key(k) && s2.handles()[k].is_controller()
        implies s2.ptys().contains_key(s2.handles()[k].pty_id()) by {
        let i = choose|i: int| 0 <= i < s2.handles@.len() && s2.handles@[i].0 == k;
        lemma_position(s2.handles@, i);
        lemma_position(s.handles@, i);
        assert(s.handles()[k].is_controller());
        let pid = s.handles()[k].pty_id();
        assert(s.ptys().contains_key(pid));
        let j = choose|j: int| 0 <= j < s.ptys@.len() && s.ptys@[j].0 == pid;
        lemma_position(s2.ptys@, j);
    }
}

/// The bytes that sideband `h` exposes of `p`.
pub open spec fn sideband_image(h: Resource, p: Pty) -> Seq<u8> {
    match h {
        Resource::Pgrp(_) => pgrp_image(p.pgrp),
        Resource::Termios(_) => termios_image(p.termios),
        Resource::Winsize(_) => winsize_image(p.winsize),
        _ => Seq::empty(),
    }
}

/// The outcome of `read(id, buf)` on `s`.
pub open spec fn read_post(
    s: PtyScheme,
    id: usize,
    buf: Seq<u8>,
    s2: PtyScheme,
    buf2: Seq<u8>,
    r: Result<Option<usize>, Error>,
) -> bool {
    if !s.handles().contains_key(id) {
        r == Err::<Option<usize>, Error>(Error::BadFd) && s2.same(s) && buf2 == buf
    } else {
        let h = s.handles()[id];
        let pid = h.pty_id();
        let live = s.ptys().contains_key(pid);
        &&& s2.next() == s.next()
        &&& match h {
            Resource::Control(c) => {
                let c2 = PtyControlTerm { notified_read: false, ..c };
                &&& s2.handles() == s.handles().insert(id, Resource::Control(c2))
                &&& s2.ptys() == s.ptys().insert(pid, s2.ptys()[pid])
                &&& control_read(c, s.ptys()[pid], buf, has_peers(s.handles(), pid), c2, s2.ptys()[pid], buf2, r)
            },
            Resource::Sub(t) => {
                let t2 = PtySubTerm { notified_read: false, ..t };
                &&& s2.handles() == s.handles().insert(id, Resource::Sub(t2))
                &&& if live {
                    &&& s2.ptys() == s.ptys().insert(pid, s2.ptys()[pid])
                    &&& sub_read(t, s.ptys()[pid], buf, t2, s2.ptys()[pid], buf2, r)
                } else {
                    &&& s2.ptys() == s.ptys()
                    &&& buf2 == buf
                    &&& r == Ok::<Option<usize>, Error>(Some(0))
                }
            },
            _ => {
                &&& s2.handles() == s.handles()
                &&& s2.ptys() == s.ptys()
                &&& if live {
                    let img = sideband_image(h, s.ptys()[pid]);
                    &&& buf2 == clipped(buf, img)
                    &&& r == Ok::<Option<usize>, Error>(Some(min(buf.len() as int, img.len() as int) as usize))
                } else {
                    &&& buf2 == buf
                    &&& r == Ok::<Option<usize>, Error>(Some(0))
                }
            },
        }
    }
}

/// A sideband write of `buf` into `p`: the field's image is overwritten as
/// far as `buf` reaches; nothing else changes.
pub open spec fn sideband_write(h: Resource, p: Pty, buf: Seq<u8>, p2: Pty, r: Result<Option<usize>, Error>) -> bool {
    let img = sideband_image(h, p);
    &&& sideband_image(h, p2) == clipped(img, buf)
    &&& r == Ok::<Option<usize>, Error>(Some(min(buf.len() as int, img.len() as int) as usize))
    &&& p2.line() == p.line()
    &&& p2.id == p.id
    &&& p2.timeout_count == p.timeout_count
    &&& (h is Pgrp || p2.pgrp == p.pgrp)
    &&& (h is Termios || p2.termios == p.termios)
    &&& (h is Winsize || p2.winsize == p.winsize)
}

/// The outcome of `write(id, buf)` on `s`.
pub open spec fn write_post(s: PtyScheme, id: usize, buf: Seq<u8>, s2: PtyScheme, r: Result<Option<usize>, Error>) -> bool {
    if !s.handles().contains_key(id) {
        r == Err::<Option<usize>, Error>(Error::BadFd) && s2.same(s)
    } else {
        let h = s.handles()[id];
        let pid = h.pty_id();
        if !s.ptys().contains_key(pid) {
            r == Err::<Option<usize>, Error>(Error::BrokenPipe) && s2.same(s)
        } else {
            let p = s.ptys()[pid];
            let p2 = s2.ptys()[pid];
            &&& s2.next() == s.next()
            &&& s2.handles() == s.handles()
            &&& s2.ptys() == s.ptys().insert(pid, p2)
            &&& match h {
                Resource::Control(_) => control_write(p, buf, p2, r),
                Resource::Sub(_) => sub_write(p, buf, p2, r),
                _ => sideband_write(h, p, buf, p2, r),
            }
        }
    }
}

/// The outcome of `fevent(id)` on `s`.
pub open spec fn fevent_post(s: PtyScheme, id: usize, s2: PtyScheme, r: Result<Events, Error>) -> bool {
    if !s.handles().contains_key(id) {
        r == Err::<Events, Error>(Error::BadFd) && s2.same(s)
    } else {
        let h = s.handles()[id];
        let pid = h.pty_id();
        let live = s.ptys().contains_key(pid);
        &&& s2.next() == s.next()
        &&& s2.ptys() == s.ptys()
        &&& match h {
            Resource::Control(c) => {
                let pending = packets(s.ptys()[pid].miso).len() > 0;
                &&& r == Ok::<Events, Error>(latched(pending, false, false))
                &&& s2.handles() == s.handles().insert(
                    id,
                    Resource::Control(PtyControlTerm { notified_read: pending, notified_write: true, ..c }),
                )
            },
            Resource::Sub(t) => {
                let pending = live && packets(s.ptys()[pid].mosi).len() > 0;
                &&& r == Ok::<Events, Error>(latched(pending, false, false))
                &&& s2.handles() == s.handles().insert(
                    id,
                    Resource::Sub(PtySubTerm { notified_read: pending, notified_write: true, ..t }),
                )
            },
            _ => r == Err::<Events, Error>(Error::BadFd) && s2.handles() == s.handles(),
        }
    }
}

/// The outcome of `events(id)` on `s`.
pub open spec fn events_post(s: PtyScheme, id: usize, s2: PtyScheme, r: Result<Events, Error>) -> bool {
    if !s.handles().contains_key(id) {
        r == Err::<Events, Error>(Error::BadFd) && s2.same(s)
    } else {
        let h = s.handles()[id];
        let pid = h.pty_id();
        let live = s.ptys().contains_key(pid);
        &&& s2.next() == s.next()
        &&& s2.ptys() == s.ptys()
        &&& match h {
            Resource::Control(c) => {
                let pending = packets(s.ptys()[pid].miso).len() > 0;
                &&& r == Ok::<Events, Error>(latched(pending, c.notified_read, c.notified_write))
                &&& s2.handles() == s.handles().insert(
                    id,
                    Resource::Control(PtyControlTerm { notified_read: pending, notified_write: true, ..c }),
                )
            },
            Resource::Sub(t) => if live {
                let pending = packets(s.ptys()[pid].mosi).len() > 0;
                &&& r == Ok::<Events, Error>(latched(pending, t.notified_read, t.notified_write))
                &&& s2.handles() == s.handles().insert(
                    id,
                    Resource::Sub(PtySubTerm { notified_read: pending, notified_write: true, ..t }),
                )
            } else {
                &&& r == Ok::<Events, Error>(Events { read: false, write: !t.notified_write })
                &&& s2.handles() == s.handles().insert(id, Resource::Sub(PtySubTerm { notified_write: true, ..t }))
            },
            _ => r == Ok::<Events, Error>(Events { read: false, write: false }) && s2.handles() == s.handles(),
        }
    }
}

/// The outcome of `fsync(id)` on `s`.
pub open spec fn fsync_post(s: PtyScheme, id: usize, s2: PtyScheme, r: Result<usize, Error>) -> bool {
    if !s.handles().contains_key(id) {
        r == Err::<usize, Error>(Error::BadFd) && s2.same(s)
    } else {
        let h = s.handles()[id];
        let pid = h.pty_id();
        match h {
            Resource::Sub(_) => if s.ptys().contains_key(pid) {
                let p = s.ptys()[pid];
                let p2 = s2.ptys()[pid];
                &&& r == Ok::<usize, Error>(0)
                &&& s2.next() == s.next()
                &&& s2.handles() == s.handles()
                &&& s2.ptys() == s.ptys().insert(pid, p2)
                &&& p2.same_settings(p)
                &&& p2.line() == (Line { to_controller: p.line().to_controller.push(seq![1u8]), ..p.line() })
            } else {
                r == Err::<usize, Error>(Error::BrokenPipe) && s2.same(s)
            },
            _ => r == Ok::<usize, Error>(0) && s2.same(s),
        }
    }
}

/// The outcome of `open(path, flags)` on `s`.
pub open spec fn open_post(s: PtyScheme, path: Seq<u8>, flags: usize, s2: PtyScheme, r: Result<usize, Error>) -> bool {
    let t = trim_slashes(path);
    let id = s.next();
    if t.len() == 0 {
        &&& r == Ok::<usize, Error>(id)
        &&& s2.next() == id + 1
        &&& s2.handles() == s.handles().insert(
            id,
            Resource::Control(PtyControlTerm { pty: id, flags, notified_read: false, notified_write: false }),
        )
        &&& s2.ptys() == s.ptys().insert(id, s2.ptys()[id])
        &&& is_fresh(s2.ptys()[id], id)
    } else {
        match parse_id(t) {
            None => r == Err::<usize, Error>(Error::Invalid) && s2.same(s),
            Some(n) => if s.handles().contains_key(n) {
                &&& r == Ok::<usize, Error>(id)
                &&& s2.next() == id + 1
                &&& s2.handles() == s.handles().insert(
                    id,
                    Resource::Sub(PtySubTerm { pty: s.handles()[n].pty_id(), flags, notified_read: false, notified_write: false }),
                )
                &&& s2.ptys() == s.ptys()
            } else {
                r == Err::<usize, Error>(Error::NoEntry) && s2.same(s)
            },
        }
    }
}

/// The outcome of `dup(old_id, name)` on `s`.
pub open spec fn dup_post(s: PtyScheme, old_id: usize, name: Seq<u8>, s2: PtyScheme, r: Result<usize, Error>) -> bool {
    if !s.handles().contains_key(old_id) {
        r == Err::<usize, Error>(Error::BadFd) && s2.same(s)
    } else {
        match dup_target(s.handles()[old_id], name) {
            None => r == Err::<usize, Error>(Error::Invalid) && s2.same(s),
            Some(h) => {
                &&& r == Ok::<usize, Error>(s.next())
                &&& s2.next() == s.next() + 1
                &&& s2.handles() == s.handles().insert(s.next(), h)
                &&& s2.ptys() == s.ptys()
            },
        }
    }
}

/// The outcome of `close(id)` on `s`: the handle goes, and with the last
/// controller of a pseudoterminal the pseudoterminal goes too.
pub open spec fn close_post(s: PtyScheme, id: usize, s2: PtyScheme) -> bool {
    if !s.handles().contains_key(id) {
        s2.same(s)
    } else {
        let h = s.handles()[id];
        &&& s2.next() == s.next()
        &&& s2.handles() == s.handles().remove(id)
        &&& s2.ptys() == if h.is_controller() && !has_controller(s.handles().remove(id), h.pty_id()) {
            s.ptys().remove(h.pty_id())
        } else {
            s.ptys()
        }
    }
}

proof fn lemma_open_step(s: PtyScheme, path: Seq<u8>, flags: usize, s2: PtyScheme, r: Result<usize, Error>)
    requires
        open_post(s, path, flags, s2, r),
    ensures
        r is Ok ==> r->Ok_0 == s.next() && s2.next() == s.next() + 1,
        r is Err ==> s2.next() == s.next(),
{
}

proof fn lemma_opens_grow(
    ss: Seq<PtyScheme>,
    paths: Seq<Seq<u8>>,
    flags: Seq<usize>,
    rs: Seq<Result<usize, Error>>,
    i: int,
    j: int,
)
    requires
        ss.len() == rs.len() + 1,
        paths.len() == rs.len(),
        flags.len() == rs.len(),
        forall|k: int| 0 <= k < rs.len() ==> open_post(#[trigger] ss[k], paths[k], flags[k], ss[k + 1], rs[k]),
        0 <= i <= j < ss.len(),
    ensures
        ss[i].next() <= ss[j].next(),
    decreases j - i,
{
    if i < j {
        lemma_opens_grow(ss, paths, flags, rs, i, j - 1);
        lemma_open_step(ss[j - 1], paths[j - 1], flags[j - 1], ss[j], rs[j - 1]);
    }
}

/// Over any run of opens with no close between them, the ids handed out
/// increase strictly (so they are pairwise distinct), and none is the id of
/// a handle that was open before the run.
pub proof fn lemma_open_ids(
    ss: Seq<PtyScheme>,
    paths: Seq<Seq<u8>>,
    flags: Seq<usize>,
    rs: Seq<Result<usize, Error>>,
)
    requires
        ss.len() == rs.len() + 1,
        paths.len() == rs.len(),
        flags.len() == rs.len(),
        ss[0].wf(),
        forall|k: int| 0 <= k < rs.len() ==> open_post(#[trigger] ss[k], paths[k], flags[k], ss[k + 1], rs[k]),
    ensures
        forall|i: int, j: int|
            0 <= i < j < rs.len() && rs[i] is Ok && rs[j] is Ok ==> rs[i]->Ok_0 < rs[j]->Ok_0,
        forall|i: int| 0 <= i < rs.len() && rs[i] is Ok ==> !ss[0].handles().contains_key(rs[i]->Ok_0),
{
    assert forall|i: int, j: int| 0 <= i < j < rs.len() && rs[i] is Ok && rs[j] is Ok implies rs[i]->Ok_0
        < rs[j]->Ok_0 by {
        lemma_open_step(ss[i], paths[i], flags[i], ss[i + 1], rs[i]);
        lemma_open_step(ss[j], paths[j], flags[j], ss[j + 1], rs[j]);
        lemma_opens_grow(ss, paths, flags, rs, i + 1, j);
    }
    assert forall|i: int| 0 <= i < rs.len() && rs[i] is Ok implies !ss[0].handles().contains_key(rs[i]->Ok_0) by {
        lemma_open_step(ss[i], paths[i], flags[i], ss[i + 1], rs[i]);
        lemma_opens_grow(ss, paths, flags, rs, 0, i);
        lemma_table(ss[0].handles@);
        if ss[0].handles().contains_key(rs[i]->Ok_0) {
            let k = choose|k: int| 0 <= k < ss[0].handles@.len() && ss[0].handles@[k].0 == rs[i]->Ok_0;
            assert(ss[0].handles@[k].0 < ss[0].next_id);
        }
    }
}

/// Once the last controller of a pseudoterminal is closed, every handle
/// left on it is detached: a read returns end of file (`0` bytes) and a
/// write fails with a broken pipe.
pub proof fn lemma_close_detaches(s: PtyScheme, id: usize, s2: PtyScheme)
    requires
        s.wf(),
        close_post(s, id, s2),
        s.handles().contains_key(id),
        s.handles()[id].is_controller(),
        !has_controller(s.handles().remove(id), s.handles()[id].pty_id()),
    ensures
        !s2.ptys().contains_key(s.handles()[id].pty_id()),
        forall|k: usize, buf: Seq<u8>, s3: PtyScheme, buf3: Seq<u8>, r: Result<Option<usize>, Error>|
            s2.handles().contains_key(k) && s2.handles()[k].pty_id() == s.handles()[id].pty_id()
                && #[trigger] read_post(s2, k, buf, s3, buf3, r) ==> r == Ok::<Option<usize>, Error>(Some(0)),
        forall|k: usize, buf: Seq<u8>, s3: PtyScheme, r: Result<Option<usize>, Error>|
            s2.handles().contains_key(k) && s2.handles()[k].pty_id() == s.handles()[id].pty_id()
                && #[trigger] write_post(s2, k, buf, s3, r) ==> r == Err::<Option<usize>, Error>(Error::BrokenPipe),
{
    let pid = s.handles()[id].pty_id();
    assert forall|k: usize| #[trigger] s2.handles().contains_key(k) && s2.handles()[k].pty_id() == pid implies !s2.handles()[k].is_controller() by {
        if s2.handles()[k].is_controller() {
            assert(s.handles().remove(id).contains_key(k));
        }
    }
}

/// In canonical mode, a line written to a controller and ended by NL is
/// what the next read of a subordinate of the same pseudoterminal returns,
/// when nothing was queued for the subordinate before and the buffer is
/// large enough: the edited line, with the NL.
pub proof fn lemma_line_reaches_subordinate(
    s: PtyScheme,
    ctl: usize,
    line: Seq<u8>,
    s2: PtyScheme,
    r: Result<Option<usize>, Error>,
    sub: usize,
    buf: Seq<u8>,
    s3: PtyScheme,
    buf3: Seq<u8>,
    r3: Result<Option<usize>, Error>,
)
    requires
        s.wf(),
        s.handles().contains_key(ctl),
        s.handles()[ctl] is Control,
        s.handles().contains_key(sub),
        s.handles()[sub] is Sub,
        s.handles()[sub].pty_id() == s.handles()[ctl].pty_id(),
        has_flag(s.ptys()[s.handles()[ctl].pty_id()].termios.c_lflag, ICANON),
        translate(s.ptys()[s.handles()[ctl].pty_id()].termios, NL) == NL,
        packets(s.ptys()[s.handles()[ctl].pty_id()].mosi).len() == 0,
        forall|i: int| 0 <= i < line.len() ==> edits(s.ptys()[s.handles()[ctl].pty_id()].termios, #[trigger] line[i]),
        write_post(s, ctl, line.push(NL), s2, r),
        read_post(s2, sub, buf, s3, buf3, r3),
        buf.len() > s.ptys()[s.handles()[ctl].pty_id()].cooked@.len() + line.len(),
    ensures
        ({
            let p = s.ptys()[s.handles()[ctl].pty_id()];
            let sent = edited(p.termios, p.cooked@, line).push(NL);
            &&& r == Ok::<Option<usize>, Error>(Some((line.len() + 1) as usize))
            &&& r3 == Ok::<Option<usize>, Error>(Some(sent.len() as usize))
            &&& buf3.take(sent.len() as int) == sent
        }),
{
    let pid = s.handles()[ctl].pty_id();
    let p = s.ptys()[pid];
    assert(s.ptys().contains_key(pid));
    lemma_canonical_line(p.line(), p.termios, p.pgrp, p.timeout_count, line);
    let sent = edited(p.termios, p.cooked@, line).push(NL);
    lemma_edited_len(p.termios, p.cooked@, line);
    let p2 = s2.ptys()[pid];
    assert(s2.handles() == s.handles());
    assert(s2.ptys().contains_key(pid));
    assert(p2.same_settings(p));
    assert(p2.line().to_subordinate == seq![sent]);
    assert(settle(p2.line(), p2.termios, p2.timeout_count) == p2.line());
    assert(min(buf.len() as int, sent.len() as int) == sent.len());
    assert(clipped(buf, sent).take(sent.len() as int) =~= sent);
}

proof fn lemma_edited_len(t: crate::config::Termios, cooked: Seq<u8>, line: Seq<u8>)
    ensures
        edited(t, cooked, line).len() <= cooked.len() + line.len(),
    decreases line.len(),
{
    if line.len() > 0 {
        lemma_edited_len(t, cooked, line.drop_last());
    }
}

} // verus!
