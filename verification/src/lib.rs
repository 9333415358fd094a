//! Voyager: a level-sharing back end for Void Stranger levels.
//!
//! The crate validates, stores, and republishes small structured text
//! records ("levels").  A raw request body is parsed into a fully
//! validated record or rejected with a precise error; validated records
//! live in a capability-keyed store with an orphan-holding area, an IP
//! ban set, and a whole-store snapshot codec for persistence.

pub mod b64;
pub mod clock;
pub mod dash;
pub mod digits;
pub mod error;
pub mod fields;
pub mod keys;
pub mod level;
pub mod server;
pub mod snapshot;
pub mod text;
