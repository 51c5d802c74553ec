use ptyd::config;
use ptyd::resource::{self, Error};

#[test]
fn termios_constants_match_redox_termios() {
    assert_eq!(config::NCCS, redox_termios::NCCS);
    assert_eq!(config::VEOF, redox_termios::VEOF);
    assert_eq!(config::VEOL, redox_termios::VEOL);
    assert_eq!(config::VEOL2, redox_termios::VEOL2);
    assert_eq!(config::VERASE, redox_termios::VERASE);
    assert_eq!(config::VWERASE, redox_termios::VWERASE);
    assert_eq!(config::VKILL, redox_termios::VKILL);
    assert_eq!(config::VREPRINT, redox_termios::VREPRINT);
    assert_eq!(config::VINTR, redox_termios::VINTR);
    assert_eq!(config::VQUIT, redox_termios::VQUIT);
    assert_eq!(config::VSUSP, redox_termios::VSUSP);
    assert_eq!(config::VSTART, redox_termios::VSTART);
    assert_eq!(config::VSTOP, redox_termios::VSTOP);
    assert_eq!(config::VLNEXT, redox_termios::VLNEXT);
    assert_eq!(config::VDISCARD, redox_termios::VDISCARD);
    assert_eq!(config::VMIN, redox_termios::VMIN);
    assert_eq!(config::VTIME, redox_termios::VTIME);
    assert_eq!(config::INLCR, redox_termios::INLCR);
    assert_eq!(config::IGNCR, redox_termios::IGNCR);
    assert_eq!(config::ICRNL, redox_termios::ICRNL);
    assert_eq!(config::IXON, redox_termios::IXON);
    assert_eq!(config::OPOST, redox_termios::OPOST);
    assert_eq!(config::ONLCR, redox_termios::ONLCR);
    assert_eq!(config::ISIG, redox_termios::ISIG);
    assert_eq!(config::ICANON, redox_termios::ICANON);
    assert_eq!(config::ECHO, redox_termios::ECHO);
    assert_eq!(config::ECHOE, redox_termios::ECHOE);
    assert_eq!(config::ECHOK, redox_termios::ECHOK);
    assert_eq!(config::ECHONL, redox_termios::ECHONL);
    assert_eq!(config::IEXTEN, redox_termios::IEXTEN);
    assert_eq!(config::TERMIOS_SIZE, std::mem::size_of::<redox_termios::Termios>());
    assert_eq!(config::WINSIZE_SIZE, std::mem::size_of::<redox_termios::Winsize>());
}

#[test]
fn flag_constants_match_redox_syscall() {
    assert_eq!(resource::O_NONBLOCK, syscall::flag::O_NONBLOCK);
    assert_eq!(resource::O_ACCMODE, syscall::flag::O_ACCMODE);
    assert_eq!(resource::F_GETFL, syscall::flag::F_GETFL);
    assert_eq!(resource::F_SETFL, syscall::flag::F_SETFL);
    assert_eq!(resource::MODE_CHR, syscall::flag::MODE_CHR);
    assert_eq!(resource::EVENT_READ, syscall::flag::EventFlags::EVENT_READ.bits());
    assert_eq!(resource::EVENT_WRITE, syscall::flag::EventFlags::EVENT_WRITE.bits());
}

#[test]
fn error_numbers_match_redox_syscall() {
    assert_eq!(Error::BadFd.errno(), syscall::error::EBADF);
    assert_eq!(Error::NoEntry.errno(), syscall::error::ENOENT);
    assert_eq!(Error::Invalid.errno(), syscall::error::EINVAL);
    assert_eq!(Error::Again.errno(), syscall::error::EAGAIN);
    assert_eq!(Error::BrokenPipe.errno(), syscall::error::EPIPE);
    assert_eq!(Error::Interrupted.errno(), syscall::error::EINTR);
}
