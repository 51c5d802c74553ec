//! The line-settings sideband: reads and writes the line settings as raw bytes, clipped to
//! the caller's buffer.
use vstd::prelude::*;

use crate::bytes::{clipped, copy_clipped, min, overwrite_clipped};
use crate::config::{termios_image, Termios, TERMIOS_SIZE};
use crate::pty::{pty_path, Pty};
use crate::resource::{fcntl_flags, setfl, Error, Events, F_GETFL, F_SETFL};

verus! {

/// A handle on the line settings of a pseudoterminal.
#[derive(Clone, Copy, Debug, PartialEq, Eq, Structural)]
pub struct PtyTermios {
    /// The id of the pseudoterminal.
    pub pty: usize,
    pub flags: usize,
}

impl PtyTermios {
    pub fn new(pty: usize, flags: usize) -> (r: PtyTermios)
        ensures
            r == (PtyTermios { pty, flags }),
    {
        PtyTermios { pty, flags }
    }

    /// Writes the path of the pseudoterminal into `buf`, clipped.
    pub fn path(&self, pty: &Pty, buf: &mut [u8]) -> (r: Result<usize, Error>)
        ensures
            final(buf)@ == clipped(old(buf)@, pty_path(pty.id)),
            r == Ok::<usize, Error>(min(old(buf)@.len() as int, pty_path(pty.id).len() as int) as usize),
    {
        Ok(pty.path(buf))
    }

    /// Copies the image of the line settings into `buf`, as far as it fits.
    pub fn read(&self, pty: &Pty, buf: &mut [u8]) -> (r: Result<Option<usize>, Error>)
        ensures
            final(buf)@ == clipped(old(buf)@, termios_image(pty.termios)),
            r == Ok::<Option<usize>, Error>(Some(min(old(buf)@.len() as int, TERMIOS_SIZE as int) as usize)),
    {
        let image = pty.termios.to_bytes();
        Ok(Some(copy_clipped(buf, image.as_slice())))
    }

    /// Overwrites the image of the line settings with `buf`, as far as it reaches.
    pub fn write(&self, pty: &mut Pty, buf: &[u8]) -> (r: Result<Option<usize>, Error>)
        ensures
            termios_image(final(pty).termios) == clipped(termios_image(old(pty).termios), buf@),
            r == Ok::<Option<usize>, Error>(Some(min(buf@.len() as int, TERMIOS_SIZE as int) as usize)),
            final(pty).line() == old(pty).line(),
            final(pty).id == old(pty).id,
            final(pty).pgrp == old(pty).pgrp,
            final(pty).winsize == old(pty).winsize,
            final(pty).timeout_count == old(pty).timeout_count,
    {
        let mut image = pty.termios.to_bytes();
        let n = overwrite_clipped(&mut image, buf);
        pty.termios = Termios::from_bytes(image.as_slice());
        Ok(Some(n))
    }

    pub fn sync(&self) -> (r: Result<usize, Error>)
        ensures
            r == Ok::<usize, Error>(0),
    {
        Ok(0)
    }

    /// `F_GETFL` returns the flags; `F_SETFL` replaces all but the access
    /// mode; any other command is `Invalid`.
    pub fn fcntl(&mut self, cmd: usize, arg: usize) -> (r: Result<usize, Error>)
        ensures
            cmd == F_GETFL ==> r == Ok::<usize, Error>(old(self).flags) && *final(self) == *old(self),
            cmd == F_SETFL ==> r == Ok::<usize, Error>(0) && *final(self) == (PtyTermios {
                flags: setfl(old(self).flags, arg),
                ..*old(self)
            }),
            cmd != F_GETFL && cmd != F_SETFL ==> r == Err::<usize, Error>(Error::Invalid) && *final(self) == *old(self),
    {
        fcntl_flags(&mut self.flags, cmd, arg)
    }

    /// Sidebands cannot be waited on.
    pub fn fevent(&self) -> (r: Result<Events, Error>)
        ensures
            r == Err::<Events, Error>(Error::BadFd),
    {
        Err(Error::BadFd)
    }

    /// Sidebands are never ready.
    pub fn events(&self) -> (r: Events)
        ensures
            !r.read && !r.write,
    {
        Events::empty()
    }
}

} // verus!
