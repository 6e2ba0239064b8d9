//! Helper library for a timed, rate-limited puzzle platform.
//!
//! The library covers the platform session logic: puzzle keys and their
//! validation, the URLs of the remote surface, classification of server
//! responses, the submission cache and its on-disk encoding, the unlock-time
//! gate, and practice-mode rank estimation.  All I/O (HTTP, files, the
//! terminal) is left to the embedding program; the functions here compute
//! decisions and data from plain values.

pub mod classify;
pub mod codec;
pub mod engine;
pub mod files;
pub mod gate;
pub mod html;
pub mod key;
pub mod rank;
pub mod solution;
pub mod store;
pub mod text;
pub mod urls;

pub use engine::lazy_submit;
pub use engine::submit;
pub use key::PuzzleKey;
pub use solution::MaybeDisplay;
pub use store::TestInfo;
pub use text::strip_trailing_nl;
pub use urls::base_url;
pub use urls::day_url;
pub use urls::leaderboard_url;
