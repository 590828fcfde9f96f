//! Voice command recognition core: a streaming phrase matcher over a growing
//! transcript, the listening/dictation state machine, the authenticated frame
//! protocol spoken between the recognizer and the privileged daemon, and the
//! daemon's handling of what it receives.
use vstd::prelude::*;

pub mod text;
pub mod trie;
pub mod hexcode;
pub mod protocol;
pub mod daemon;
pub mod fallback;
pub mod llm;
pub mod scan;
pub mod config;
pub mod matcher;
pub mod state;
pub mod engine;

verus! {

} // verus!
