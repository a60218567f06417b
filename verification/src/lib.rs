//! Minecraft protocol data structures, their wire encoding, and the
//! decision logic of a small bedwars server, with machine-checked contracts.

pub mod error;
pub mod varint;
pub mod palette;
pub mod wire;
pub mod identifier;
pub mod position;
pub mod bitset;
pub mod chunk;
pub mod codec;
pub mod messages;
pub mod inbound;
pub mod entity;
pub mod config;
pub mod handlers;
pub mod nbt;
pub mod tag;
pub mod registry;
pub mod casing;
pub mod world;
pub mod blocks;
