//! What all endpoint handles share: errors, readiness events, the open-file
//! flags and `fcntl`, and the enum that holds a handle of any kind.
use vstd::prelude::*;

use crate::controlterm::PtyControlTerm;
use crate::pgrp::PtyPgrp;
use crate::subterm::PtySubTerm;
use crate::termios::PtyTermios;
use crate::winsize::PtyWinsize;

verus! {

/// Non-blocking open-file flag.
pub const O_NONBLOCK: usize = 0x0004_0000;
/// Mask of the access-mode bits of the open-file flags.
pub const O_ACCMODE: usize = 0x0003_0000;
/// `fcntl` command: get the open-file flags.
pub const F_GETFL: usize = 3;
/// `fcntl` command: set the open-file flags but the access mode.
pub const F_SETFL: usize = 4;
/// File-type bits of a character device.
pub const MODE_CHR: u16 = 0x2000;

/// Why an operation failed.
#[derive(Clone, Copy, Debug, PartialEq, Eq, Structural)]
pub enum Error {
    /// No handle has the id (`EBADF`).
    BadFd,
    /// No controller has the id that a path names (`ENOENT`).
    NoEntry,
    /// A malformed path, name or command (`EINVAL`).
    Invalid,
    /// A non-blocking operation cannot progress (`EAGAIN`).
    Again,
    /// The controller is gone (`EPIPE`).
    BrokenPipe,
    /// A parked request was cancelled (`EINTR`).
    Interrupted,
}

impl Error {
    /// The error number of this error.
    pub fn errno(&self) -> (r: i32)
        ensures
            *self == Error::BadFd ==> r == 9,
            *self == Error::NoEntry ==> r == 2,
            *self == Error::Invalid ==> r == 22,
            *self == Error::Again ==> r == 11,
            *self == Error::BrokenPipe ==> r == 32,
            *self == Error::Interrupted ==> r == 4,
    {
        match self {
            Error::BadFd => 9,
            Error::NoEntry => 2,
            Error::Invalid => 22,
            Error::Again => 11,
            Error::BrokenPipe => 32,
            Error::Interrupted => 4,
        }
    }
}

/// Readiness of a handle.
#[derive(Clone, Copy, Debug, PartialEq, Eq, Structural)]
pub struct Events {
    pub read: bool,
    pub write: bool,
}

/// Readiness bit: there is something to read.
pub const EVENT_READ: usize = 1;
/// Readiness bit: a write can be made.
pub const EVENT_WRITE: usize = 2;

impl Events {
    pub fn empty() -> (r: Events)
        ensures
            !r.read && !r.write,
    {
        Events { read: false, write: false }
    }

    pub fn is_empty(&self) -> (r: bool)
        ensures
            r == (!self.read && !self.write),
    {
        !self.read && !self.write
    }

    /// The readiness bits of these events.
    pub fn bits(&self) -> (r: usize)
        ensures
            r == (if self.read {
                EVENT_READ
            } else {
                0
            }) + (if self.write {
                EVENT_WRITE
            } else {
                0
            }),
    {
        let mut r: usize = 0;
        if self.read {
            r += EVENT_READ;
        }
        if self.write {
            r += EVENT_WRITE;
        }
        r
    }
}

pub open spec fn nonblocking(flags: usize) -> bool {
    flags & O_NONBLOCK == O_NONBLOCK
}

/// The flags after `F_SETFL` with `arg`: the access mode is kept, every
/// other bit comes from `arg`.
pub open spec fn setfl(flags: usize, arg: usize) -> usize {
    (flags & O_ACCMODE) | (arg & !O_ACCMODE)
}

pub fn is_nonblocking(flags: usize) -> (r: bool)
    ensures
        r == nonblocking(flags),
{
    flags & O_NONBLOCK == O_NONBLOCK
}

/// `fcntl` on the open-file flags of a handle.
pub fn fcntl_flags(flags: &mut usize, cmd: usize, arg: usize) -> (r: Result<usize, Error>)
    ensures
        cmd == F_GETFL ==> r == Ok::<usize, Error>(*old(flags)) && *final(flags) == *old(flags),
        cmd == F_SETFL ==> r == Ok::<usize, Error>(0) && *final(flags) == setfl(*old(flags), arg),
        cmd != F_GETFL && cmd != F_SETFL ==> r == Err::<usize, Error>(Error::Invalid) && *final(flags) == *old(flags),
{
    if cmd == F_GETFL {
        Ok(*flags)
    } else if cmd == F_SETFL {
        *flags = (*flags & O_ACCMODE) | (arg & !O_ACCMODE);
        Ok(0)
    } else {
        Err(Error::Invalid)
    }
}

/// Setting a handle's flags to what getting them returned changes no bit.
pub proof fn lemma_setfl_getfl(h: Resource)
    ensures
        setfl(h.flags_of(), h.flags_of()) == h.flags_of(),
        h.with_flags(setfl(h.flags_of(), h.flags_of())) == h,
{
    let flags = h.flags_of();
    assert((flags & 0x0003_0000usize) | (flags & !0x0003_0000usize) == flags) by (bit_vector);
}

/// A handle of any kind.
#[derive(Clone, Copy, Debug, PartialEq, Eq, Structural)]
pub enum Resource {
    Control(PtyControlTerm),
    Sub(PtySubTerm),
    Pgrp(PtyPgrp),
    Termios(PtyTermios),
    Winsize(PtyWinsize),
}

impl Resource {
    /// The id of the pseudoterminal the handle refers to.
    pub open spec fn pty_id(&self) -> usize {
        match self {
            Resource::Control(h) => h.pty,
            Resource::Sub(h) => h.pty,
            Resource::Pgrp(h) => h.pty,
            Resource::Termios(h) => h.pty,
            Resource::Winsize(h) => h.pty,
        }
    }

    pub open spec fn flags_of(&self) -> usize {
        match self {
            Resource::Control(h) => h.flags,
            Resource::Sub(h) => h.flags,
            Resource::Pgrp(h) => h.flags,
            Resource::Termios(h) => h.flags,
            Resource::Winsize(h) => h.flags,
        }
    }

    /// The handle with its open-file flags replaced by `f`.
    pub open spec fn with_flags(&self, f: usize) -> Resource {
        match *self {
            Resource::Control(h) => Resource::Control(PtyControlTerm { flags: f, ..h }),
            Resource::Sub(h) => Resource::Sub(PtySubTerm { flags: f, ..h }),
            Resource::Pgrp(h) => Resource::Pgrp(PtyPgrp { flags: f, ..h }),
            Resource::Termios(h) => Resource::Termios(PtyTermios { flags: f, ..h }),
            Resource::Winsize(h) => Resource::Winsize(PtyWinsize { flags: f, ..h }),
        }
    }

    pub open spec fn is_controller(&self) -> bool {
        self is Control
    }

    /// The id of the pseudoterminal the handle refers to.
    pub fn pty(&self) -> (r: usize)
        ensures
            r == self.pty_id(),
    {
        match self {
            Resource::Control(h) => h.pty,
            Resource::Sub(h) => h.pty,
            Resource::Pgrp(h) => h.pty,
            Resource::Termios(h) => h.pty,
            Resource::Winsize(h) => h.pty,
        }
    }

    /// The open-file flags of the handle.
    pub fn flags(&self) -> (r: usize)
        ensures
            r == self.flags_of(),
    {
        match self {
            Resource::Control(h) => h.flags,
            Resource::Sub(h) => h.flags,
            Resource::Pgrp(h) => h.flags,
            Resource::Termios(h) => h.flags,
            Resource::Winsize(h) => h.flags,
        }
    }

    /// `fcntl` on the handle's open-file flags.
    pub fn fcntl(&mut self, cmd: usize, arg: usize) -> (r: Result<usize, Error>)
        ensures
            cmd == F_GETFL ==> r == Ok::<usize, Error>(old(self).flags_of()) && *final(self) == *old(self),
            cmd == F_SETFL ==> r == Ok::<usize, Error>(0) && *final(self) == old(self).with_flags(
                setfl(old(self).flags_of(), arg),
            ),
            cmd != F_GETFL && cmd != F_SETFL ==> r == Err::<usize, Error>(Error::Invalid) && *final(self) == *old(self),
    {
        match self {
            Resource::Control(h) => h.fcntl(cmd, arg),
            Resource::Sub(h) => h.fcntl(cmd, arg),
            Resource::Pgrp(h) => h.fcntl(cmd, arg),
            Resource::Termios(h) => h.fcntl(cmd, arg),
            Resource::Winsize(h) => h.fcntl(cmd, arg),
        }
    }

    /// A copy of the handle: same kind, pseudoterminal, flags and latches.
    pub fn boxed_clone(&self) -> (r: Resource)
        ensures
            r == *self,
    {
        match self {
            Resource::Control(h) => Resource::Control(*h),
            Resource::Sub(h) => Resource::Sub(*h),
            Resource::Pgrp(h) => Resource::Pgrp(*h),
            Resource::Termios(h) => Resource::Termios(*h),
            Resource::Winsize(h) => Resource::Winsize(*h),
        }
    }
}

} // verus!
