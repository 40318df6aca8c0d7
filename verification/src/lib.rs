//! Collects the links that were posted in Discord channels.
//!
//! The library decides; it sends no requests and writes no files. `client` gives the address of
//! each request, `paging` and `scan` take in the replies and say what to request next, `links`
//! finds the links and sorts out those of no interest, and `run` plans a run over all channels
//! and says what it gives out.
pub mod client;
pub mod config;
pub mod datetime;
pub mod decimal;
pub mod error;
pub mod links;
pub mod model;
pub mod paging;
pub mod paging_laws;
pub mod run;
pub mod scan;
pub mod snowflake;
pub mod text;
pub mod utils;

pub use client::DiscordClient;
pub use config::Config;
pub use datetime::{Bound, Date, DateRange, Duration, UtcDateTime};
pub use error::Error;
pub use model::{Attachment, Channel, Embed, Guild, Message, MessageReference, User};
pub use snowflake::Snowflake;
