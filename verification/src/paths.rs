//! Where the records lie below the data directory of the store.
//!
//! ```text
//! <data_dir>/notes/<id>.md         one record per note
//! <data_dir>/folders.json          the list of folders
//! <data_dir>/graph.json            the relationship graph
//! <data_dir>/canvas/<id>.json      the canvas of one note
//! <data_dir>/attachments/          kept for files that notes refer to
//! ```

use vstd::prelude::*;
use vstd::string::StringExecFns;
use std::path::PathBuf;
use crate::model::opt_text;
use crate::text::same_text;

verus! {

/// `std::path::PathBuf`, carried through without looking inside.
#[verifier::external_type_specification]
#[verifier::external_body]
pub struct ExPathBuf(PathBuf);

/// The path that `Path::join` makes of a path and a name.
pub uninterp spec fn joined_path(base: PathBuf, name: Seq<char>) -> PathBuf;

/// The extension of the last component of a path, as `Path::extension` gives
/// it; `None` where there is none or it is no UTF-8.
pub uninterp spec fn path_extension(path: PathBuf) -> Option<Seq<char>>;

/// The last component of a path without its extension, as `Path::file_stem`
/// gives it; `None` where there is none or it is no UTF-8.
pub uninterp spec fn path_stem(path: PathBuf) -> Option<Seq<char>>;

/// `Path::join`: the path with `name` adjoined. The result is the one that
/// `joined_path` names.
#[verifier::external_body]
fn join_path(base: &PathBuf, name: &str) -> (r: PathBuf)
    ensures
        r == joined_path(*base, name@),
{
    base.join(name)
}

/// `Path::extension`, as a string where it is UTF-8. The result is the one
/// that `path_extension` names.
#[verifier::external_body]
fn extension_of(path: &PathBuf) -> (r: Option<String>)
    ensures
        opt_text(r) == path_extension(*path),
{
    match path.extension() {
        Some(name) => match name.to_str() {
            Some(text) => Some(text.to_string()),
            None => None,
        },
        None => None,
    }
}

/// `Path::file_stem`, as a string where it is UTF-8. The result is the one
/// that `path_stem` names.
#[verifier::external_body]
fn stem_of(path: &PathBuf) -> (r: Option<String>)
    ensures
        opt_text(r) == path_stem(*path),
{
    match path.file_stem() {
        Some(name) => match name.to_str() {
            Some(text) => Some(text.to_string()),
            None => None,
        },
        None => None,
    }
}

/// The handle of a store: the directory that holds all its records.
pub struct AppState {
    pub data_dir: PathBuf,
}

impl AppState {
    /// The directory of the note records.
    pub fn notes_dir(&self) -> (r: PathBuf)
        ensures
            r == joined_path(self.data_dir, "notes"@),
    {
        join_path(&self.data_dir, "notes")
    }

    /// The directory of the attachments.
    pub fn attachments_dir(&self) -> (r: PathBuf)
        ensures
            r == joined_path(self.data_dir, "attachments"@),
    {
        join_path(&self.data_dir, "attachments")
    }

    /// The directory of the canvas records.
    pub fn canvas_dir(&self) -> (r: PathBuf)
        ensures
            r == joined_path(self.data_dir, "canvas"@),
    {
        join_path(&self.data_dir, "canvas")
    }

    /// The file of the relationship graph.
    pub fn graph_file(&self) -> (r: PathBuf)
        ensures
            r == joined_path(self.data_dir, "graph.json"@),
    {
        join_path(&self.data_dir, "graph.json")
    }

    /// The file of the folder list.
    pub fn folders_file(&self) -> (r: PathBuf)
        ensures
            r == joined_path(self.data_dir, "folders.json"@),
    {
        join_path(&self.data_dir, "folders.json")
    }

    /// The file of the canvas of the note `note_id`.
    pub fn canvas_file(&self, note_id: &str) -> (r: PathBuf)
        ensures
            r == joined_path(joined_path(self.data_dir, "canvas"@), note_id@ + ".json"@),
    {
        let mut name = note_id.to_owned();
        name.append(".json");
        join_path(&self.canvas_dir(), name.as_str())
    }

    /// The file of the record of the note `id`.
    pub fn note_file(&self, id: &str) -> (r: PathBuf)
        ensures
            r == joined_path(joined_path(self.data_dir, "notes"@), id@ + ".md"@),
    {
        let mut name = id.to_owned();
        name.append(".md");
        join_path(&self.notes_dir(), name.as_str())
    }

    /// The directories that must exist before the store is used. Making them
    /// with their parents makes the data directory too.
    pub fn required_dirs(&self) -> (r: Vec<PathBuf>)
        ensures
            r@ == seq![
                joined_path(self.data_dir, "notes"@),
                joined_path(self.data_dir, "attachments"@),
                joined_path(self.data_dir, "canvas"@),
            ],
    {
        let mut dirs: Vec<PathBuf> = Vec::new();
        dirs.push(self.notes_dir());
        dirs.push(self.attachments_dir());
        dirs.push(self.canvas_dir());
        dirs
    }
}

/// The id of the note whose record lies in the file `path`: the name of the
/// file without its extension, for a file with the extension `md`. Any other
/// file holds no note.
pub open spec fn note_id_of(path: PathBuf) -> Option<Seq<char>> {
    if path_extension(path) == Some("md"@) {
        path_stem(path)
    } else {
        None
    }
}

/// The id of the note whose record lies in the file `path`, if it is the
/// record of a note.
pub fn record_id(path: &PathBuf) -> (r: Option<String>)
    ensures
        opt_text(r) == note_id_of(*path),
{
    match extension_of(path) {
        Some(ext) => if same_text(ext.as_str(), "md") {
            stem_of(path)
        } else {
            None
        },
        None => None,
    }
}

} // verus!
