//! The core of an Apple II+ emulator: the memory bus with its language card
//! and soft switches, the Disk II controller, and the 6-and-2 nibblizer that
//! turns a disk image into the byte stream a drive presents.
//!
//! Every function is verified against a contract stated over a mathematical
//! model of the machine.
#![allow(non_snake_case)]

pub mod a2;
pub mod diskii;
pub mod lazyterm;
pub mod mem;
pub mod nibblizer;
pub mod nibblizer_laws;
pub mod tui;
pub mod util;
