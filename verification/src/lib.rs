//! Recognition of dropped cards.
//!
//! A drop is a picture of several cards. The library cuts the picture into
//! the text fields of the cards ([`geometry`], [`imaging`], [`codec`]),
//! repairs what recognition reads from them ([`repair`], [`stable`]),
//! compiles fuzzy patterns for the store of characters and tries them on
//! texts ([`pattern`], [`matching`], [`search`]), decides what to ask the store and what to write to it
//! ([`resolver`], [`store`]), and puts the cards of a drop together
//! ([`aggregate`]). It also reads the listings that other bots post
//! ([`extract`]), keeps the pool of recognition engines ([`pool`]) and the
//! settings ([`config`]), and knows the commands and the answers of the bot
//! ([`commands`], [`reply`]).
//!
//! Reading pictures, asking the store and talking to the chat are left to
//! the program around the library.

pub mod aggregate;
pub mod codec;
pub mod commands;
pub mod config;
pub mod extract;
pub mod geometry;
pub mod imaging;
pub mod matching;
pub mod pattern;
pub mod pool;
pub mod records;
pub mod repair;
pub mod reply;
pub mod resolver;
pub mod search;
pub mod stable;
pub mod store;
pub mod text;
