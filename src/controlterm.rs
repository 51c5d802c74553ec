//! The controller handle: its writes feed the line discipline, its reads
//! drain the packets bound for the controller. It keeps its pseudoterminal
//! alive.
use vstd::prelude::*;

use crate::bytes::{clipped, min};
use crate::pty::{after_tagged_read, feed, packets, pty_path, settle, Line, Pty};
use crate::resource::{fcntl_flags, is_nonblocking, nonblocking, setfl, Error, Events, F_GETFL, F_SETFL};

verus! {

/// Length of a packet queue at which writes into it park.
pub const QUEUE_LIMIT: usize = 64;

/// The controller end of a pseudoterminal.
#[derive(Clone, Copy, Debug, PartialEq, Eq, Structural)]
pub struct PtyControlTerm {
    /// The id of the pseudoterminal.
    pub pty: usize,
    pub flags: usize,
    pub notified_read: bool,
    pub notified_write: bool,
}

/// The latch-based readiness report: read readiness once per pending
/// stretch, write readiness once per reset.
pub open spec fn latched(pending: bool, notified_read: bool, notified_write: bool) -> Events {
    Events { read: pending && !notified_read, write: !notified_write }
}

/// A controller read of `buf` from `p`: the front packet, clipped, with its
/// unread tail put back; with nothing queued, `Again` when non-blocking or
/// without peers, else a park.
pub open spec fn control_read(
    c: PtyControlTerm,
    p: Pty,
    buf: Seq<u8>,
    has_peers: bool,
    c2: PtyControlTerm,
    p2: Pty,
    buf2: Seq<u8>,
    r: Result<Option<usize>, Error>,
) -> bool {
    &&& c2 == (PtyControlTerm { notified_read: false, ..c })
    &&& p2.same_settings(p)
    &&& if packets(p.miso).len() > 0 {
        let q = packets(p.miso)[0];
        &&& r == Ok::<Option<usize>, Error>(Some(min(buf.len() as int, q.len() as int) as usize))
        &&& buf2 == clipped(buf, q)
        &&& p2.line() == (Line {
            to_controller: after_tagged_read(packets(p.miso), buf.len() as int),
            ..p.line()
        })
    } else {
        &&& p2.line() == p.line()
        &&& buf2 == buf
        &&& r == if nonblocking(c.flags) || !has_peers {
            Err::<Option<usize>, Error>(Error::Again)
        } else {
            Ok::<Option<usize>, Error>(None)
        }
    }
}

/// A controller write of `buf` into `p`: the whole buffer goes through the
/// line discipline, unless the subordinate queue is full and the write parks.
pub open spec fn control_write(p: Pty, buf: Seq<u8>, p2: Pty, r: Result<Option<usize>, Error>) -> bool {
    &&& p2.same_settings(p)
    &&& if packets(p.mosi).len() >= QUEUE_LIMIT {
        &&& r == Ok::<Option<usize>, Error>(None)
        &&& p2.line() == p.line()
    } else {
        &&& r == Ok::<Option<usize>, Error>(Some(buf.len() as usize))
        &&& p2.line() == settle(feed(p.line(), p.termios, p.pgrp, p.timeout_count, buf), p.termios, p.timeout_count)
    }
}

impl PtyControlTerm {
    pub fn new(pty: usize, flags: usize) -> (r: PtyControlTerm)
        ensures
            r == (PtyControlTerm { pty, flags, notified_read: false, notified_write: false }),
    {
        PtyControlTerm { pty, flags, notified_read: false, notified_write: false }
    }

    /// Writes the path of the pseudoterminal into `buf`, clipped.
    pub fn path(&self, pty: &Pty, buf: &mut [u8]) -> (r: Result<usize, Error>)
        ensures
            final(buf)@ == clipped(old(buf)@, pty_path(pty.id)),
            r == Ok::<usize, Error>(min(old(buf)@.len() as int, pty_path(pty.id).len() as int) as usize),
    {
        Ok(pty.path(buf))
    }

    /// Takes the front controller packet into `buf`. With nothing queued it
    /// fails with `Again` when non-blocking or when no other handle refers to
    /// the pseudoterminal, and parks (`Ok(None)`) otherwise.
    pub fn read(&mut self, pty: &mut Pty, buf: &mut [u8], has_peers: bool) -> (r: Result<Option<usize>, Error>)
        ensures
            control_read(*old(self), *old(pty), old(buf)@, has_peers, *final(self), *final(pty), final(buf)@, r),
    {
        self.notified_read = false;
        match pty.read_controller(buf) {
            Some(n) => Ok(Some(n)),
            None => {
                if is_nonblocking(self.flags) || !has_peers {
                    Err(Error::Again)
                } else {
                    Ok(None)
                }
            },
        }
    }

    /// Feeds `buf` to the line discipline unless the subordinate queue is
    /// full, in which case the write parks (`Ok(None)`).
    pub fn write(&mut self, pty: &mut Pty, buf: &[u8]) -> (r: Result<Option<usize>, Error>)
        ensures
            *final(self) == *old(self),
            control_write(*old(pty), buf@, *final(pty), r),
    {
        if pty.mosi.len() >= QUEUE_LIMIT {
            return Ok(None);
        }
        pty.input(buf);
        Ok(Some(buf.len()))
    }

    pub fn sync(&self) -> (r: Result<usize, Error>)
        ensures
            r == Ok::<usize, Error>(0),
    {
        Ok(0)
    }

    /// `F_GETFL` returns the flags; `F_SETFL` replaces all but the access
    /// mode; any other command is `Invalid`.
    pub fn fcntl(&mut self, cmd: usize, arg: usize) -> (r: Result<usize, Error>)
        ensures
            cmd == F_GETFL ==> r == Ok::<usize, Error>(old(self).flags) && *final(self) == *old(self),
            cmd == F_SETFL ==> r == Ok::<usize, Error>(0) && *final(self) == (PtyControlTerm {
                flags: setfl(old(self).flags, arg),
                ..*old(self)
            }),
            cmd != F_GETFL && cmd != F_SETFL ==> r == Err::<usize, Error>(Error::Invalid) && *final(self) == *old(self),
    {
        fcntl_flags(&mut self.flags, cmd, arg)
    }

    /// Clears both latches and reports the current readiness.
    pub fn fevent(&mut self, pty: &Pty) -> (r: Result<Events, Error>)
        ensures
            r == Ok::<Events, Error>(latched(packets(pty.miso).len() > 0, false, false)),
            *final(self) == (PtyControlTerm {
                notified_read: packets(pty.miso).len() > 0,
                notified_write: true,
                ..*old(self)
            }),
    {
        self.notified_read = false;
        self.notified_write = false;
        Ok(self.events(pty))
    }

    /// Reports readiness not reported since the latches were last cleared,
    /// and latches it.
    pub fn events(&mut self, pty: &Pty) -> (r: Events)
        ensures
            r == latched(packets(pty.miso).len() > 0, old(self).notified_read, old(self).notified_write),
            *final(self) == (PtyControlTerm {
                notified_read: packets(pty.miso).len() > 0,
                notified_write: true,
                ..*old(self)
            }),
    {
        let mut events = Events::empty();
        if pty.miso.len() > 0 {
            if !self.notified_read {
                self.notified_read = true;
                events.read = true;
            }
        } else {
            self.notified_read = false;
        }
        if !self.notified_write {
            self.notified_write = true;
            events.write = true;
        }
        events
    }

    /// Forwards a timer tick to the pseudoterminal.
    pub fn timeout(&self, pty: &mut Pty, count: u64)
        ensures
            old(pty).timeout_count == count ==> *final(pty) == *old(pty),
            old(pty).timeout_count != count ==> {
                &&& final(pty).line() == settle(old(pty).line(), old(pty).termios, count)
                &&& final(pty).timeout_count == count
                &&& final(pty).id == old(pty).id
                &&& final(pty).pgrp == old(pty).pgrp
                &&& final(pty).termios == old(pty).termios
                &&& final(pty).winsize == old(pty).winsize
            },
    {
        pty.timeout(count);
    }
}

} // verus!
