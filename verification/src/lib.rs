//! Verified core of the hidamari music-player companion: MPD protocol
//! handling, configuration rules, request building, path and URL rules,
//! Bluetooth control decisions and the small state machines that drive
//! the daemon's tasks.

pub mod text;
pub mod sorting;
pub mod utils;
pub mod mpdcom;
pub mod web;
pub mod bt;
pub mod btctrl;
pub mod iolist;
pub mod event;
pub mod wssession;
pub mod context;
pub mod albumart;
pub mod mpdfifo;
