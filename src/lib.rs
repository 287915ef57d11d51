//! The core of a relay between chat threads and a language-model completion
//! service: which messages it answers and under which instruction, the
//! conversation it sends, and how it cuts the reply into messages.

pub mod chunker;
pub mod classify;
pub mod completion;
pub mod context;
pub mod directory;
pub mod guard;
pub mod pipeline;
pub mod text;
