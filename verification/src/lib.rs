//! An interactive chat client core: a streaming response reassembler and
//! translator, a chat transcript state machine, a cancellable event flow,
//! and the conversation state of pluggable text-generation backends.

pub mod app;
pub mod cancel;
pub mod chat;
pub mod code2prompt;
pub mod config;
pub mod events;
pub mod explore;
pub mod frame;
pub mod llm;
pub mod prompt;
pub mod request;
pub mod spinner;
pub mod text;
pub mod translate;
pub mod tree;
