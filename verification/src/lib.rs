//! Token-budgeted text segmentation and prompt orchestration for video
//! transcripts: chunking long text for display, building chat prompts under a
//! token ceiling, selecting a model tier, and a bounded retry policy for the
//! chat call.

pub mod invoker;
pub mod openai;
pub mod prompts;
pub mod selector;
pub mod text;
pub mod utils;
pub mod youtube;
