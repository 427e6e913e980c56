//! A small counter machine whose memory is a row of text cells that serve both
//! as code and as data.
//!
//! `text` holds the character-level rules (whitespace, tokens, integer
//! literals), `instruction` the decoder, and `machine` the execution engine.
pub mod instruction;
pub mod machine;
pub mod text;
