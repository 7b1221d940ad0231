//! IONA OS kernel library: memory management, I/O, window management and the
//! supporting rules, with contracts proved by Verus.
pub mod bits;
pub mod gui;
pub mod io;
pub mod kernel;
pub mod libc_kern;
pub mod memory;
pub mod mm;
pub mod text;
