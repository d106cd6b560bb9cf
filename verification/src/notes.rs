//! The note store: listing, reading, creating and changing notes.

use vstd::prelude::*;
use serde_json::Value;
use crate::codec::{
    body_text, decode_note, decodes_to, flag_or, flag_or_default, stored_header, text_or,
    text_or_default,
};
use crate::fresh::{current_timestamp, new_id};
use crate::model::{
    note_views, opt_text, Entity, Note, NoteRecord, NoteView, StoreError,
};
use crate::dense::{all_dense, lemma_create_keeps_dense};
use crate::ordering::{
    append_position, lemma_scope_push, next_position, presentation_order, scope_of, sort_notes,
};

verus! {

/// Whether `decoded` holds, record by record, the notes that the records
/// decode to at the time `now`.
pub open spec fn decodes_all(records: Seq<NoteRecord>, now: Seq<char>, decoded: Seq<NoteView>) -> bool {
    &&& decoded.len() == records.len()
    &&& forall|i: int|
        0 <= i < records.len() ==> decodes_to(
            records[i].id@,
            stored_header(records[i].text@),
            body_text(records[i].text@),
            now,
            #[trigger] decoded[i],
        )
}

/// Decodes every record and puts the notes into the order of a listing. A
/// record that cannot be read as a note still gives one, all plain text.
pub fn list_notes(records: Vec<NoteRecord>, now: &str) -> (r: Vec<Note>)
    ensures
        exists|decoded: Seq<NoteView>| #[trigger]
            decodes_all(records@, now@, decoded) && note_views(r@) == presentation_order(decoded),
{
    let ghost input = records@;
    let mut notes: Vec<Note> = Vec::new();
    for record in it: records
        invariant
            it.seq() == input,
            notes.len() == it.index(),
            forall|i: int|
                0 <= i < notes.len() ==> decodes_to(
                    input[i].id@,
                    stored_header(input[i].text@),
                    body_text(input[i].text@),
                    now@,
                    (#[trigger] notes@[i])@,
                ),
    {
        let note = decode_note(record.id, record.text.as_str(), now);
        notes.push(note);
    }
    assert(decodes_all(input, now@, note_views(notes@))) by {
        assert forall|i: int| 0 <= i < input.len() implies decodes_to(
            input[i].id@,
            stored_header(input[i].text@),
            body_text(input[i].text@),
            now@,
            #[trigger] note_views(notes@)[i],
        ) by {
            assert(note_views(notes@)[i] == notes@[i]@);
        }
    }
    sort_notes(notes)
}

/// Lists the notes of the store. Times that a record lacks are taken from the
/// clock.
pub fn get_notes(records: Vec<NoteRecord>) -> (r: Vec<Note>)
    ensures
        exists|now: Seq<char>, decoded: Seq<NoteView>| #[trigger]
            decodes_all(records@, now, decoded) && note_views(r@) == presentation_order(decoded),
{
    let now = current_timestamp();
    list_notes(records, now.as_str())
}

/// Reads one note out of what the store holds under its id, `None` standing for
/// no record. Fails with `NotFound` exactly where there is no record.
pub fn read_note(id: String, record: Option<String>, now: &str) -> (r: Result<Note, StoreError>)
    ensures
        match record {
            Some(text) => r matches Ok(note) && decodes_to(
                id@,
                stored_header(text@),
                body_text(text@),
                now@,
                note@,
            ),
            None => r == Err::<Note, StoreError>(StoreError::NotFound(Entity::Note)),
        },
{
    match record {
        Some(text) => Ok(decode_note(id, text.as_str(), now)),
        None => Err(StoreError::NotFound(Entity::Note)),
    }
}

/// Reads one note of the store. Times that the record lacks are taken from the
/// clock. Fails with `NotFound` exactly where there is no record.
pub fn get_note(id: String, record: Option<String>) -> (r: Result<Note, StoreError>)
    ensures
        match record {
            Some(text) => r matches Ok(note) && exists|now: Seq<char>| #[trigger]
                decodes_to(id@, stored_header(text@), body_text(text@), now, note@),
            None => r == Err::<Note, StoreError>(StoreError::NotFound(Entity::Note)),
        },
{
    let now = current_timestamp();
    read_note(id, record, now.as_str())
}

/// What the caller gives of a note that is to be created. A field that is left
/// out takes its default.
#[derive(Debug, PartialEq)]
pub struct NoteDraft {
    pub title: Option<String>,
    pub raw_text: Option<String>,
    pub content: Option<Value>,
    pub sticky: Option<bool>,
    pub ephemeral: Option<bool>,
    pub note_type: Option<String>,
    pub color: Option<String>,
    pub folder_id: Option<String>,
}

/// The note that a draft makes, given its id, the time of its creation and its
/// position: the fields of the draft, the defaults where the draft has none,
/// and both times set to `now`.
pub open spec fn drafted_note(
    draft: NoteDraft,
    id: Seq<char>,
    now: Seq<char>,
    position: int,
) -> NoteView {
    NoteView {
        id,
        title: text_or(opt_text(draft.title), "Untitled"@),
        raw_text: Some(text_or(opt_text(draft.raw_text), ""@)),
        content: draft.content,
        updated_at: now,
        created_at: now,
        sticky: flag_or(draft.sticky, false),
        ephemeral: flag_or(draft.ephemeral, true),
        archived: false,
        note_type: text_or(opt_text(draft.note_type), "text"@),
        color: text_or(opt_text(draft.color), "#ffffff"@),
        folder_id: opt_text(draft.folder_id),
        position,
    }
}

/// Makes a note out of a draft, with the given id, time and position.
pub fn new_note(draft: NoteDraft, id: String, now: String, position: i32) -> (note: Note)
    ensures
        note@ == drafted_note(draft, id@, now@, position as int),
{
    Note {
        id,
        title: text_or_default(draft.title, "Untitled"),
        raw_text: Some(text_or_default(draft.raw_text, "")),
        content: draft.content,
        updated_at: now.clone(),
        created_at: now,
        sticky: flag_or_default(draft.sticky, false),
        ephemeral: flag_or_default(draft.ephemeral, true),
        archived: false,
        note_type: text_or_default(draft.note_type, "text"),
        color: text_or_default(draft.color, "#ffffff"),
        folder_id: draft.folder_id,
        position,
    }
}

/// Creates a note: a new id, the time of the clock, and the position behind the
/// last note of the scope that the draft names. `all_notes` are the notes that
/// the store holds. The note joins its scope and no other, and a store whose
/// scopes were all dense has all its scopes dense with the note in it.
pub fn create_note(draft: NoteDraft, all_notes: &Vec<Note>) -> (note: Note)
    requires
        append_position(note_views(all_notes@), opt_text(draft.folder_id)) <= i32::MAX,
    ensures
        note@ == drafted_note(
            draft,
            note@.id,
            note@.created_at,
            append_position(note_views(all_notes@), opt_text(draft.folder_id)),
        ),
        scope_of(note_views(all_notes@).push(note@), opt_text(draft.folder_id)) == scope_of(
            note_views(all_notes@),
            opt_text(draft.folder_id),
        ).push(note@),
        forall|folder: Option<Seq<char>>|
            folder != opt_text(draft.folder_id) ==> #[trigger] scope_of(
                note_views(all_notes@).push(note@),
                folder,
            ) == scope_of(note_views(all_notes@), folder),
        all_dense(note_views(all_notes@)) ==> all_dense(note_views(all_notes@).push(note@)),
{
    let position = next_position(all_notes, &draft.folder_id);
    let note = new_note(draft, new_id(), current_timestamp(), position);
    proof {
        lemma_create_keeps_dense(note_views(all_notes@), note@);
        lemma_scope_push(note_views(all_notes@), note@, note@.folder_id);
    }
    note
}

/// What becomes of the folder of a note in an update.
#[derive(Debug, PartialEq)]
pub enum FolderChange {
    /// The note stays where it is.
    Unset,
    /// The note goes to the root scope.
    Clear,
    /// The note goes into the folder with this id.
    SetTo(String),
}

/// The fields that an update gives. A field that is left out stays as it is.
#[derive(Debug, PartialEq)]
pub struct NoteUpdate {
    pub title: Option<String>,
    pub raw_text: Option<String>,
    pub content: Option<Value>,
    pub sticky: Option<bool>,
    pub ephemeral: Option<bool>,
    pub archived: Option<bool>,
    pub folder: FolderChange,
    pub position: Option<i32>,
}

/// The note after an update at the time `now`: each field that the update gives
/// replaces the note's, the others stay, and the time of the update is `now`.
/// The positions of other notes are not touched.
pub open spec fn updated_note(note: NoteView, update: NoteUpdate, now: Seq<char>) -> NoteView {
    NoteView {
        id: note.id,
        title: text_or(opt_text(update.title), note.title),
        raw_text: match update.raw_text {
            Some(t) => Some(t@),
            None => note.raw_text,
        },
        content: match update.content {
            Some(c) => Some(c),
            None => note.content,
        },
        updated_at: now,
        created_at: note.created_at,
        sticky: flag_or(update.sticky, note.sticky),
        ephemeral: flag_or(update.ephemeral, note.ephemeral),
        archived: flag_or(update.archived, note.archived),
        note_type: note.note_type,
        color: note.color,
        folder_id: match update.folder {
            FolderChange::Unset => note.folder_id,
            FolderChange::Clear => None,
            FolderChange::SetTo(f) => Some(f@),
        },
        position: match update.position {
            Some(p) => p as int,
            None => note.position,
        },
    }
}

/// Applies an update to a note.
pub fn apply_update(note: Note, update: NoteUpdate, now: String) -> (r: Note)
    ensures
        r@ == updated_note(note@, update, now@),
{
    Note {
        id: note.id,
        title: match update.title {
            Some(t) => t,
            None => note.title,
        },
        raw_text: match update.raw_text {
            Some(t) => Some(t),
            None => note.raw_text,
        },
        content: match update.content {
            Some(c) => Some(c),
            None => note.content,
        },
        updated_at: now,
        created_at: note.created_at,
        sticky: flag_or_default(update.sticky, note.sticky),
        ephemeral: flag_or_default(update.ephemeral, note.ephemeral),
        archived: flag_or_default(update.archived, note.archived),
        note_type: note.note_type,
        color: note.color,
        folder_id: match update.folder {
            FolderChange::Unset => note.folder_id,
            FolderChange::Clear => None,
            FolderChange::SetTo(f) => Some(f),
        },
        position: match update.position {
            Some(p) => p,
            None => note.position,
        },
    }
}

/// Updates the note that the store holds under `id`, `None` standing for no
/// record: reads it, applies the update and sets the time of the update by the
/// clock. Fails with `NotFound` exactly where there is no record.
pub fn update_note(id: String, record: Option<String>, update: NoteUpdate) -> (r: Result<
    Note,
    StoreError,
>)
    ensures
        match record {
            Some(text) => r matches Ok(note) && exists|stored: NoteView, read: Seq<char>| #[trigger]
                decodes_to(id@, stored_header(text@), body_text(text@), read, stored) && note@
                    == updated_note(stored, update, note@.updated_at),
            None => r == Err::<Note, StoreError>(StoreError::NotFound(Entity::Note)),
        },
{
    match get_note(id, record) {
        Ok(note) => Ok(apply_update(note, update, current_timestamp())),
        Err(e) => Err(e),
    }
}

/// The notes without those that have the given id.
pub open spec fn notes_without(notes: Seq<NoteView>, id: Seq<char>) -> Seq<NoteView> {
    notes.filter(|n: NoteView| n.id != id)
}

/// Takes the note with the given id out of the notes of the store. Where no
/// note has the id, all notes stay.
pub fn without_note(notes: Vec<Note>, id: &str) -> (r: Vec<Note>)
    ensures
        note_views(r@) == notes_without(note_views(notes@), id@),
{
    let ghost input = notes@;
    let ghost views = note_views(notes@);
    let mut kept: Vec<Note> = Vec::new();
    proof {
        assert(views.take(0) == Seq::<NoteView>::empty());
        reveal(Seq::filter);
    }
    for note in it: notes
        invariant
            it.seq() == input,
            views == note_views(input),
            note_views(kept@) == notes_without(views.take(it.index() as int), id@),
    {
        proof {
            let k = it.index() as int;
            assert(views.take(k + 1) == views.take(k).push(note@));
            views.take(k).lemma_filter_push(note@, |n: NoteView| n.id != id@);
        }
        if !crate::text::same_text(note.id.as_str(), id) {
            let ghost before = note_views(kept@);
            kept.push(note);
            assert(note_views(kept@) == before.push(note@));
        }
    }
    assert(views.take(input.len() as int) == views);
    kept
}

} // verus!
