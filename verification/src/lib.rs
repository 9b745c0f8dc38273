//! Assembly of recorded game clips: ordering and concatenating the segment
//! files of a clip, naming the result, and driving the per-clip pipeline.

pub mod assemble;
pub mod chunks;
pub mod clip_name;
pub mod error;
pub mod listing;
pub mod mux;
pub mod pipeline;
pub mod text;
pub mod title;
pub mod validate;
