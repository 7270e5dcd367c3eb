//! A text-based quiz conversation engine: per-player dialog sessions stepped
//! by a verified state machine over an immutable game definition, with the
//! contracts pinning every emitted response event and session change.

pub mod game_engine;
pub mod services;
pub mod text_util;
