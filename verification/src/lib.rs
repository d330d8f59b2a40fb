//! Deep-merges a template JSON document into target documents: a key the
//! template holds and a target lacks is inserted, at every nesting level,
//! while a value the target already holds is never changed or removed. A
//! batch of targets is merged one by one, a failing target never stops the
//! others, and the run ends in a summary of totals.

pub mod value;
pub mod merge;
pub mod laws;
pub mod error;
pub mod report;
pub mod codec;
