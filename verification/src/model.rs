//! The records of the store: notes, folders, the relationship graph and the
//! canvas of a note, each with the mathematical view that the contracts of the
//! other modules speak of.

use vstd::prelude::*;
use serde_json::Value;
use crate::json::clone_value;

verus! {

/// The characters of an optional string.
pub open spec fn opt_text(o: Option<String>) -> Option<Seq<char>> {
    match o {
        Some(s) => Some(s@),
        None => None,
    }
}

/// A copy of an optional string.
pub fn copy_opt_text(o: &Option<String>) -> (r: Option<String>)
    ensures
        opt_text(r) == opt_text(*o),
{
    match o {
        Some(s) => Some(s.clone()),
        None => None,
    }
}

/// Whether two optional strings are both absent or hold the same characters.
pub fn same_opt_text(a: &Option<String>, b: &Option<String>) -> (r: bool)
    ensures
        r == (opt_text(*a) == opt_text(*b)),
{
    match (a, b) {
        (None, None) => true,
        (Some(x), Some(y)) => *x == *y,
        _ => false,
    }
}

/// A rich-text note. `folder_id` names the folder that holds the note; a note
/// without one lies in the root scope. `position` orders the note among the
/// notes of its scope.
#[derive(Debug, PartialEq)]
pub struct Note {
    pub id: String,
    pub title: String,
    pub raw_text: Option<String>,
    pub content: Option<Value>,
    pub updated_at: String,
    pub created_at: String,
    pub sticky: bool,
    pub ephemeral: bool,
    pub archived: bool,
    pub note_type: String,
    pub color: String,
    pub folder_id: Option<String>,
    pub position: i32,
}

/// What a note holds, as plain mathematical values.
pub struct NoteView {
    pub id: Seq<char>,
    pub title: Seq<char>,
    pub raw_text: Option<Seq<char>>,
    pub content: Option<Value>,
    pub updated_at: Seq<char>,
    pub created_at: Seq<char>,
    pub sticky: bool,
    pub ephemeral: bool,
    pub archived: bool,
    pub note_type: Seq<char>,
    pub color: Seq<char>,
    pub folder_id: Option<Seq<char>>,
    pub position: int,
}

impl View for Note {
    type V = NoteView;

    open spec fn view(&self) -> NoteView {
        NoteView {
            id: self.id@,
            title: self.title@,
            raw_text: opt_text(self.raw_text),
            content: self.content,
            updated_at: self.updated_at@,
            created_at: self.created_at@,
            sticky: self.sticky,
            ephemeral: self.ephemeral,
            archived: self.archived,
            note_type: self.note_type@,
            color: self.color@,
            folder_id: opt_text(self.folder_id),
            position: self.position as int,
        }
    }
}

impl Clone for Note {
    fn clone(&self) -> (r: Note)
        ensures
            r@ == self@,
    {
        Note {
            id: self.id.clone(),
            title: self.title.clone(),
            raw_text: copy_opt_text(&self.raw_text),
            content: match &self.content {
                Some(c) => Some(clone_value(c)),
                None => None,
            },
            updated_at: self.updated_at.clone(),
            created_at: self.created_at.clone(),
            sticky: self.sticky,
            ephemeral: self.ephemeral,
            archived: self.archived,
            note_type: self.note_type.clone(),
            color: self.color.clone(),
            folder_id: copy_opt_text(&self.folder_id),
            position: self.position,
        }
    }
}

/// A note as it lies in the store: the id under which it is kept, and the text
/// of its record.
#[derive(Debug, PartialEq)]
pub struct NoteRecord {
    pub id: String,
    pub text: String,
}

/// The views of a list of notes, in the list's order.
pub open spec fn note_views(notes: Seq<Note>) -> Seq<NoteView> {
    notes.map_values(|n: Note| n@)
}

/// A folder. `parent_id` names the folder that holds this one; a folder without
/// one lies at the root.
#[derive(Debug, PartialEq)]
pub struct Folder {
    pub id: String,
    pub name: String,
    pub parent_id: Option<String>,
    pub created_at: String,
    pub updated_at: String,
    pub expanded: bool,
}

/// What a folder holds, as plain mathematical values.
pub struct FolderView {
    pub id: Seq<char>,
    pub name: Seq<char>,
    pub parent_id: Option<Seq<char>>,
    pub created_at: Seq<char>,
    pub updated_at: Seq<char>,
    pub expanded: bool,
}

impl View for Folder {
    type V = FolderView;

    open spec fn view(&self) -> FolderView {
        FolderView {
            id: self.id@,
            name: self.name@,
            parent_id: opt_text(self.parent_id),
            created_at: self.created_at@,
            updated_at: self.updated_at@,
            expanded: self.expanded,
        }
    }
}

impl Clone for Folder {
    fn clone(&self) -> (r: Folder)
        ensures
            r@ == self@,
    {
        Folder {
            id: self.id.clone(),
            name: self.name.clone(),
            parent_id: copy_opt_text(&self.parent_id),
            created_at: self.created_at.clone(),
            updated_at: self.updated_at.clone(),
            expanded: self.expanded,
        }
    }
}

/// The views of a list of folders, in the list's order.
pub open spec fn folder_views(folders: Seq<Folder>) -> Seq<FolderView> {
    folders.map_values(|f: Folder| f@)
}

/// A link of the relationship graph, from the note `source` to the note
/// `target`.
#[derive(Debug, PartialEq)]
pub struct Edge {
    pub id: String,
    pub source: String,
    pub target: String,
    pub label: Option<String>,
}

/// What an edge holds, as plain mathematical values.
pub struct EdgeView {
    pub id: Seq<char>,
    pub source: Seq<char>,
    pub target: Seq<char>,
    pub label: Option<Seq<char>>,
}

impl View for Edge {
    type V = EdgeView;

    open spec fn view(&self) -> EdgeView {
        EdgeView {
            id: self.id@,
            source: self.source@,
            target: self.target@,
            label: opt_text(self.label),
        }
    }
}

/// The views of a list of edges, in the list's order.
pub open spec fn edge_views(edges: Seq<Edge>) -> Seq<EdgeView> {
    edges.map_values(|e: Edge| e@)
}

/// The relationship graph of the whole store. `nodes` is a JSON object that
/// maps a note id to whatever the graph keeps for that note.
#[derive(Debug, PartialEq)]
pub struct GraphMetadata {
    pub nodes: Value,
    pub edges: Vec<Edge>,
}

/// The diagram that belongs to one note. Both parts are kept as they came.
#[derive(Debug, PartialEq)]
pub struct CanvasData {
    pub nodes: Value,
    pub edges: Value,
}

/// The kind of record that an operation looked for.
#[derive(Debug, PartialEq, Eq, Clone, Copy)]
pub enum Entity {
    Note,
    Folder,
}

/// Why an operation of the store failed.
#[derive(Debug, PartialEq)]
pub enum StoreError {
    /// No record exists under the id that the operation was given.
    NotFound(Entity),
    /// A record could not be encoded or decoded; the text says why.
    Malformed(String),
    /// The storage below the store failed; the text says how.
    IoFailure(String),
}

impl StoreError {
    /// The failure in words.
    pub fn describe(&self) -> (r: String)
        ensures
            self matches StoreError::NotFound(Entity::Note) ==> r@ == "Note not found"@,
            self matches StoreError::NotFound(Entity::Folder) ==> r@ == "Folder not found"@,
            self matches StoreError::Malformed(m) ==> r@ == m@,
            self matches StoreError::IoFailure(m) ==> r@ == m@,
    {
        match self {
            StoreError::NotFound(Entity::Note) => "Note not found".to_owned(),
            StoreError::NotFound(Entity::Folder) => "Folder not found".to_owned(),
            StoreError::Malformed(m) => m.clone(),
            StoreError::IoFailure(m) => m.clone(),
        }
    }
}

} // verus!
