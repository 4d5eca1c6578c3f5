//! What is said to and heard from the Gemini service.
use vstd::prelude::*;

pub mod cleanup;
pub mod cleanup_laws;
pub mod json;
pub mod live;
pub mod live_laws;

verus! {

pub const LIVE_HOST: &'static str = "generativelanguage.googleapis.com";

pub const REST_BASE: &'static str = "https://generativelanguage.googleapis.com/v1beta";

} // verus!
