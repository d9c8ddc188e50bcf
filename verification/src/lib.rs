//! The rules of a small block-world server: chunks and worlds, their storage, and the network
//! protocol.
pub mod blocks;
pub mod chat;
pub mod chunk;
pub mod client;
pub mod entities;
pub mod items;
pub mod json;
pub mod nbt_data;
pub mod packets;
pub mod player;
pub mod round_trips;
pub mod storage;
pub mod utils;
pub mod wire;
pub mod world;
