//! Catalogue core for a board-hosted document index: a topic-body parser,
//! the pure decision logic of a level-by-level catalogue crawler, and the
//! state machine of a bounded-concurrency download manager.
pub mod api;
pub mod attachments;
pub mod crawler;
pub mod manager;
pub mod node;
pub mod parser;
pub mod roundtrip;
pub mod scan;
pub mod text;
pub mod title;
pub mod worker;
