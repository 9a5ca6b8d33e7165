//! A voice chat's wire protocol, authentication rules and client and server
//! bookkeeping, verified with Verus.
use vstd::prelude::*;

pub mod audio;
pub mod auth;
pub mod buf;
pub mod certificate;
pub mod channel_commands;
pub mod byte_buf_ring;
pub mod channels;
pub mod cli;
pub mod db;
pub mod dims;
pub mod mem_order;
pub mod network;
pub mod endian;
pub mod packet;
pub mod profile;
pub mod profile_db;
pub mod protocol;
pub mod remote_server;
pub mod screen_sys;
pub mod security_level;
pub mod server_state;
pub mod tagged;
pub mod ui_types;
pub mod utils;
