use vstd::prelude::*;

pub mod text;
pub mod llm;
pub mod context;
pub mod keyed;
pub mod rank;
pub mod profile;
pub mod ids;
pub mod facts;
pub mod calendar;
pub mod window;
pub mod config;
pub mod prompt;
pub mod tts;
pub mod stream;
pub mod json;
pub mod profile_update;
pub mod extract;
pub mod profile_reply;
pub mod summaries;
pub mod sources;
pub mod model3d;

verus! {
}
