//! Resolving playable video locations from video-hosting embed pages, and the
//! rules of the proxy that relays them.
//!
//! - `scan`, `sandbox`, `providers`: each provider's resolution steps, from an
//!   embed page to a media URL, including the script sandbox.
//! - `manifest`, `metadata`, `codec`: rewriting manifests into proxy-relative
//!   ones, and the per-link metadata cache keyed by a hash of the link.
//! - `proxy`, `telemetry`: which headers cross the streaming proxy, which hosts
//!   take the fallback transport, and throughput accounting.
//! - `listing`, `episodes`: the listing coalescer, and the all-or-nothing
//!   choice among an episode's providers.
//! - `sweep`: the daily cache sweep's rules and schedule.
//! - `models`, `title`, `url_util`, `text`, `error`, `context`: shared data
//!   and helpers.
use vstd::prelude::*;

pub mod codec;
pub mod context;
pub mod episodes;
pub mod error;
pub mod listing;
pub mod literal;
pub mod manifest;
pub mod metadata;
pub mod models;
pub mod providers;
pub mod proxy;
pub mod sandbox;
pub mod scan;
pub mod sweep;
pub mod telemetry;
pub mod text;
pub mod title;
pub mod url_util;

verus! {

} // verus!
