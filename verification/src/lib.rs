//! A verified recursive-descent parsing engine for the Mosfet language.
//!
//! The crate is organised leaves-first: the position model (`cursor`,
//! `span`), the scanning `reader`, the diagnostic accumulator (`context`,
//! `messages`, `errors`, `warnings`), the two-channel result convention
//! (`result`), and the grammar productions built on top of them
//! (`comments`, `identifier`, `whitespaces`, `integer`, `numbers`,
//! `literals`, `expressions`, `statements`, `file`).
//!
//! Every grammar rule carries the same discipline in its contract: a rule
//! that signals `NotFound` leaves the reader exactly where it entered, no
//! rule ever moves the reader backward past its entry, a successful rule's
//! node spans precisely the consumed input, and a rule that signals a hard
//! error has recorded its diagnostic in the context. Each rule is pinned
//! against a specification function of the text alone — character runs,
//! digit groupings, whitespace scans, statement outcomes, the file
//! grammar — so every result channel, exit position and diagnostic code is
//! owed, not merely permitted.

pub mod comments;
pub mod context;
pub mod cursor;
pub mod errors;
pub mod expressions;
pub mod file;
pub mod identifier;
pub mod integer;
pub mod literals;
pub mod messages;
pub mod node;
pub mod numbers;
pub mod reader;
pub mod result;
pub mod return_statement;
pub mod span;
pub mod statements;
pub mod text;
pub mod whitespaces;
pub mod variable_declaration;
pub mod warnings;
