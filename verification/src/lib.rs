//! A local-first store of rich-text notes: the record format of a note, the
//! ordering of notes inside their folders, and the clean-up that follows when a
//! note or a folder is deleted.
//!
//! Every function here works on plain values. Reading and writing the files that
//! hold the records is left to the caller.
//!
//! - `model`: notes, folders, the graph and the canvas, with their views
//! - `codec`: the record of a note, encoded and decoded; `roundtrip`: that
//!   decoding gives back what was encoded
//! - `ordering`: listings, the position of a new note, and moves; `dense` and
//!   `history`: that positions stay 0, 1, 2, ... in every scope
//! - `notes`, `folders`, `graph`: the operations of the three stores
//! - `paths`: where the records lie on disk
//! - `json`, `fresh`: the calls into `serde_json`, `uuid` and `chrono`
//! - `text`, `seqs`: characters, and facts about filtered sequences

pub mod json;
pub mod model;
pub mod text;
pub mod seqs;
pub mod codec;
pub mod roundtrip;
pub mod ordering;
pub mod paths;
pub mod fresh;
pub mod notes;
pub mod folders;
pub mod graph;
pub mod dense;
pub mod history;
