//! Extraction of bot commands from free-form comment text.
//!
//! A comment may mention the bot (`@bot`) and follow the mention with a
//! command such as `assign @alice`. The modules here locate the mention, lex
//! the text behind it, try every registered command grammar on it and report
//! the single grammar that claimed the text, unless the mention is quoted as
//! markdown code.
//!
//! All offsets are byte offsets into the UTF-8 text of the comment, and every
//! contract is stated over that byte sequence.
//!
//! - [`token`]: the tokenizer.
//! - [`code_block`]: the index of the markdown code in a text.
//! - [`grammar`]: what a command grammar reports.
//! - [`command`]: the session, the dispatch, and the grammars for labels,
//!   assignment and triage.
//! - [`handlers`]: what is done with a command, as decisions without
//!   input or output.
//! - [`error`]: the diagnostics.

pub mod text;
pub mod error;
pub mod token;
pub mod code_block;
pub mod grammar;
pub mod command;
pub mod handlers;
