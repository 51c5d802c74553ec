//! The window-size sideband: reads and writes the window size as raw bytes, clipped to
//! the caller's buffer.
use vstd::prelude::*;

use crate::bytes::{clipped, copy_clipped, min, overwrite_clipped};
use crate::config::{winsize_image, Winsize, WINSIZE_SIZE};
use crate::pty::{pty_path, Pty};
use crate::resource::{fcntl_flags, setfl, Error, Events, F_GETFL, F_SETFL};

verus! {

/// A handle on the window size of a pseudoterminal.
#[derive(Clone, Copy, Debug, PartialEq, Eq, Structural)]
pub struct PtyWinsize {
    /// The id of the pseudoterminal.
    pub pty: usize,
    pub flags: usize,
}

impl PtyWinsize {
    pub fn new(pty: usize, flags: usize) -> (r: PtyWinsize)
        ensures
            r == (PtyWinsize { pty, flags }),
    {
        PtyWinsize { pty, flags }
    }

    /// Writes the path of the pseudoterminal into `buf`, clipped.
    pub fn path(&self, pty: &Pty, buf: &mut [u8]) -> (r: Result<usize, Error>)
        ensures
            final(buf)@ == clipped(old(buf)@, pty_path(pty.id)),
            r == Ok::<usize, Error>(min(old(buf)@.len() as int, pty_path(pty.id).len() as int) as usize),
    {
        Ok(pty.path(buf))
    }

    /// Copies the image of the window size into `buf`, as far as it fits.
    pub fn read(&self, pty: &Pty, buf: &mut [u8]) -> (r: Result<Option<usize>, Error>)
        ensures
            final(buf)@ == clipped(old(buf)@, winsize_image(pty.winsize)),
            r == Ok::<Option<usize>, Error>(Some(min(old(buf)@.len() as int, WINSIZE_SIZE as int) as usize)),
    {
        let image = pty.winsize.to_bytes();
        Ok(Some(copy_clipped(buf, image.as_slice())))
    }

    /// Overwrites the image of the window size with `buf`, as far as it reaches.
    pub fn write(&self, pty: &mut Pty, buf: &[u8]) -> (r: Result<Option<usize>, Error>)
        ensures
            winsize_image(final(pty).winsize) == clipped(winsize_image(old(pty).winsize), buf@),
            r == Ok::<Option<usize>, Error>(Some(min(buf@.len() as int, WINSIZE_SIZE as int) as usize)),
            final(pty).line() == old(pty).line(),
            final(pty).id == old(pty).id,
            final(pty).pgrp == old(pty).pgrp,
            final(pty).termios == old(pty).termios,
            final(pty).timeout_count == old(pty).timeout_count,
    {
        let mut image = pty.winsize.to_bytes();
        let n = overwrite_clipped(&mut image, buf);
        pty.winsize = Winsize::from_bytes(image.as_slice());
        Ok(Some(n))
    }

    pub fn sync(&self) -> (r: Result<usize, Error>)
        ensures
            r == Ok::<usize, Error>(0),
    {
        Ok(0)
    }

    /// `F_GETFL` returns the flags; `F_SETFL` replaces all but the access
    /// mode; any other command is `Invalid`.
    pub fn fcntl(&mut self, cmd: usize, arg: usize) -> (r: Result<usize, Error>)
        ensures
            cmd == F_GETFL ==> r == Ok::<usize, Error>(old(self).flags) && *final(self) == *old(self),
            cmd == F_SETFL ==> r == Ok::<usize, Error>(0) && *final(self) == (PtyWinsize {
                flags: setfl(old(self).flags, arg),
                ..*old(self)
            }),
            cmd != F_GETFL && cmd != F_SETFL ==> r == Err::<usize, Error>(Error::Invalid) && *final(self) == *old(self),
    {
        fcntl_flags(&mut self.flags, cmd, arg)
    }

    /// Sidebands cannot be waited on.
    pub fn fevent(&self) -> (r: Result<Events, Error>)
        ensures
            r == Err::<Events, Error>(Error::BadFd),
    {
        Err(Error::BadFd)
    }

    /// Sidebands are never ready.
    pub fn events(&self) -> (r: Events)
        ensures
            !r.read && !r.write,
    {
        Events::empty()
    }
}

} // verus!
