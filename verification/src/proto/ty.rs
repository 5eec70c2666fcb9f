//! The type byte of each message.

use vstd::prelude::*;

verus! {

pub const HELLO: u8 = 0x01;

pub const PING: u8 = 0x02;

pub const PONG: u8 = 0x03;

pub const PAIR_REQUEST: u8 = 0x10;

pub const PAIR_ACCEPT: u8 = 0x11;

pub const PAIR_REJECT: u8 = 0x12;

pub const TEXT: u8 = 0x20;

pub const TEXT_ACK: u8 = 0x21;

pub const FILE_OFFER: u8 = 0x30;

pub const FILE_ACCEPT: u8 = 0x31;

pub const FILE_REJECT: u8 = 0x32;

pub const FILE_CHUNK: u8 = 0x33;

pub const FILE_DONE: u8 = 0x34;

pub const FILE_ERROR: u8 = 0x35;

pub const FILE_CANCEL: u8 = 0x36;

} // verus!
