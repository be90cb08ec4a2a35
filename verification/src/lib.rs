//! A verified machine library: the devices of a small `virt` board and the
//! user-mode network stack behind its network card.
#![allow(unused_imports)]

pub mod bytes;
pub mod net;
pub mod platform;
pub mod rows;
pub mod snapshot;
pub mod table;
pub mod text;
