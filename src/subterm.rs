//! The subordinate handle: its writes go through output post-processing to
//! the controller, its reads drain the cooked packets. It refers to its
//! pseudoterminal without keeping it alive.
use vstd::prelude::*;

use crate::bytes::{clipped, min};
use crate::controlterm::{latched, QUEUE_LIMIT};
use crate::pty::{after_plain_read, emit, packets, pty_path, settle, Line, Pty};
use crate::resource::{fcntl_flags, is_nonblocking, nonblocking, setfl, Error, Events, F_GETFL, F_SETFL};

verus! {

/// The subordinate end of a pseudoterminal.
#[derive(Clone, Copy, Debug, PartialEq, Eq, Structural)]
pub struct PtySubTerm {
    /// The id of the pseudoterminal.
    pub pty: usize,
    pub flags: usize,
    pub notified_read: bool,
    pub notified_write: bool,
}

/// A subordinate read of `buf` from `p`: the raw-mode readout runs, then
/// the front packet is taken, clipped, with its unread tail put back; with
/// nothing queued, `Again` when non-blocking, else a park.
pub open spec fn sub_read(
    s: PtySubTerm,
    p: Pty,
    buf: Seq<u8>,
    s2: PtySubTerm,
    p2: Pty,
    buf2: Seq<u8>,
    r: Result<Option<usize>, Error>,
) -> bool {
    let l = settle(p.line(), p.termios, p.timeout_count);
    &&& s2 == (PtySubTerm { notified_read: false, ..s })
    &&& p2.same_settings(p)
    &&& if l.to_subordinate.len() > 0 {
        let q = l.to_subordinate[0];
        &&& r == Ok::<Option<usize>, Error>(Some(min(buf.len() as int, q.len() as int) as usize))
        &&& buf2 == clipped(buf, q)
        &&& p2.line() == (Line { to_subordinate: after_plain_read(l.to_subordinate, buf.len() as int), ..l })
    } else {
        &&& p2.line() == l
        &&& buf2 == buf
        &&& r == if nonblocking(s.flags) {
            Err::<Option<usize>, Error>(Error::Again)
        } else {
            Ok::<Option<usize>, Error>(None)
        }
    }
}

/// A subordinate write of `buf` into `p`: one post-processed data packet for
/// the controller, unless the controller queue is full and the write parks.
pub open spec fn sub_write(p: Pty, buf: Seq<u8>, p2: Pty, r: Result<Option<usize>, Error>) -> bool {
    &&& p2.same_settings(p)
    &&& if packets(p.miso).len() >= QUEUE_LIMIT {
        &&& r == Ok::<Option<usize>, Error>(None)
        &&& p2.line() == p.line()
    } else {
        &&& r == Ok::<Option<usize>, Error>(Some(buf.len() as usize))
        &&& p2.line() == emit(p.line(), p.termios, buf)
    }
}

impl PtySubTerm {
    pub fn new(pty: usize, flags: usize) -> (r: PtySubTerm)
        ensures
            r == (PtySubTerm { pty, flags, notified_read: false, notified_write: false }),
    {
        PtySubTerm { pty, flags, notified_read: false, notified_write: false }
    }

    /// Writes the path of the pseudoterminal into `buf`, clipped.
    pub fn path(&self, pty: &Pty, buf: &mut [u8]) -> (r: Result<usize, Error>)
        ensures
            final(buf)@ == clipped(old(buf)@, pty_path(pty.id)),
            r == Ok::<usize, Error>(min(old(buf)@.len() as int, pty_path(pty.id).len() as int) as usize),
    {
        Ok(pty.path(buf))
    }

    /// Runs the raw-mode readout, then takes the front cooked packet into
    /// `buf`. With nothing queued it fails with `Again` when non-blocking and
    /// parks (`Ok(None)`) otherwise.
    pub fn read(&mut self, pty: &mut Pty, buf: &mut [u8]) -> (r: Result<Option<usize>, Error>)
        ensures
            sub_read(*old(self), *old(pty), old(buf)@, *final(self), *final(pty), final(buf)@, r),
    {
        self.notified_read = false;
        pty.update();
        match pty.read_subordinate(buf) {
            Some(n) => Ok(Some(n)),
            None => {
                if is_nonblocking(self.flags) {
                    Err(Error::Again)
                } else {
                    Ok(None)
                }
            },
        }
    }

    /// A read once the controller is gone: end of file.
    pub fn read_detached(&mut self) -> (r: Result<Option<usize>, Error>)
        ensures
            r == Ok::<Option<usize>, Error>(Some(0)),
            *final(self) == (PtySubTerm { notified_read: false, ..*old(self) }),
    {
        self.notified_read = false;
        Ok(Some(0))
    }

    /// Sends `buf`, post-processed, to the controller as one data packet,
    /// unless the controller queue is full, in which case the write parks.
    pub fn write(&mut self, pty: &mut Pty, buf: &[u8]) -> (r: Result<Option<usize>, Error>)
        ensures
            *final(self) == *old(self),
            sub_write(*old(pty), buf@, *final(pty), r),
    {
        if pty.miso.len() >= QUEUE_LIMIT {
            return Ok(None);
        }
        pty.output(buf);
        Ok(Some(buf.len()))
    }

    /// Queues the sync marker for the controller.
    pub fn sync(&mut self, pty: &mut Pty) -> (r: Result<usize, Error>)
        ensures
            r == Ok::<usize, Error>(0),
            final(pty).same_settings(*old(pty)),
            final(pty).line() == (Line {
                to_controller: old(pty).line().to_controller.push(seq![1u8]),
                ..old(pty).line()
            }),
    {
        pty.push_sync();
        Ok(0)
    }

    /// `F_GETFL` returns the flags; `F_SETFL` replaces all but the access
    /// mode; any other command is `Invalid`.
    pub fn fcntl(&mut self, cmd: usize, arg: usize) -> (r: Result<usize, Error>)
        ensures
            cmd == F_GETFL ==> r == Ok::<usize, Error>(old(self).flags) && *final(self) == *old(self),
            cmd == F_SETFL ==> r == Ok::<usize, Error>(0) && *final(self) == (PtySubTerm {
                flags: setfl(old(self).flags, arg),
                ..*old(self)
            }),
            cmd != F_GETFL && cmd != F_SETFL ==> r == Err::<usize, Error>(Error::Invalid) && *final(self) == *old(self),
    {
        fcntl_flags(&mut self.flags, cmd, arg)
    }

    /// Clears both latches and reports the current readiness.
    pub fn fevent(&mut self, pty: &Pty) -> (r: Result<Events, Error>)
        ensures
            r == Ok::<Events, Error>(latched(packets(pty.mosi).len() > 0, false, false)),
            *final(self) == (PtySubTerm {
                notified_read: packets(pty.mosi).len() > 0,
                notified_write: true,
                ..*old(self)
            }),
    {
        self.notified_read = false;
        self.notified_write = false;
        Ok(self.events(pty))
    }

    /// `fevent` once the controller is gone: only write readiness remains.
    pub fn fevent_detached(&mut self) -> (r: Result<Events, Error>)
        ensures
            r == Ok::<Events, Error>(Events { read: false, write: true }),
            *final(self) == (PtySubTerm { notified_read: false, notified_write: true, ..*old(self) }),
    {
        self.notified_read = false;
        self.notified_write = false;
        Ok(self.events_detached())
    }

    /// Reports readiness not reported since the latches were last cleared,
    /// and latches it.
    pub fn events(&mut self, pty: &Pty) -> (r: Events)
        ensures
            r == latched(packets(pty.mosi).len() > 0, old(self).notified_read, old(self).notified_write),
            *final(self) == (PtySubTerm {
                notified_read: packets(pty.mosi).len() > 0,
                notified_write: true,
                ..*old(self)
            }),
    {
        let mut events = Events::empty();
        if pty.mosi.len() > 0 {
            if !self.notified_read {
                self.notified_read = true;
                events.read = true;
            }
        } else {
            self.notified_read = false;
        }
        if !self.notified_write {
            self.notified_write = true;
            events.write = true;
        }
        events
    }

    /// `events` once the controller is gone.
    pub fn events_detached(&mut self) -> (r: Events)
        ensures
            r == (Events { read: false, write: !old(self).notified_write }),
            *final(self) == (PtySubTerm { notified_write: true, ..*old(self) }),
    {
        let mut events = Events::empty();
        if !self.notified_write {
            self.notified_write = true;
            events.write = true;
        }
        events
    }
}

} // verus!
