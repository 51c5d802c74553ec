//! A pseudoterminal service: line discipline, endpoint handles and the
//! handle table that multiplexes them.

pub mod bytes;
pub mod config;
pub mod controlterm;
pub mod pgrp;
pub mod pty;
pub mod resource;
pub mod scheme;
pub mod subterm;
pub mod table;
pub mod termios;
pub mod todo;
pub mod winsize;
