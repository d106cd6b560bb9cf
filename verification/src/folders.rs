//! The folder store: a list of folders, each with at most one parent.

use vstd::prelude::*;
use crate::codec::{flag_or, text_or};
use crate::fresh::{current_timestamp, new_id};
use crate::model::{
    copy_opt_text, folder_views, note_views, opt_text, Entity, Folder, FolderView, Note,
    NoteView, StoreError,
};
use crate::text::same_text;

verus! {

/// The folder that `create` makes: open in the tree, and both times set to
/// `now`.
pub open spec fn created_folder(
    name: Seq<char>,
    parent_id: Option<Seq<char>>,
    id: Seq<char>,
    now: Seq<char>,
) -> FolderView {
    FolderView { id, name, parent_id, created_at: now, updated_at: now, expanded: true }
}

/// Makes a folder with the given id and time of creation.
pub fn new_folder(name: String, parent_id: Option<String>, id: String, now: String) -> (r: Folder)
    ensures
        r@ == created_folder(name@, opt_text(parent_id), id@, now@),
{
    Folder { id, name, parent_id, created_at: now.clone(), updated_at: now, expanded: true }
}

/// Creates a folder with a new id and the time of the clock, and adds it to the
/// end of the list. Gives the folder and the list to write.
pub fn create_folder(name: String, parent_id: Option<String>, folders: Vec<Folder>) -> (r: (
    Folder,
    Vec<Folder>,
))
    ensures
        r.0@ == created_folder(name@, opt_text(parent_id), r.0@.id, r.0@.created_at),
        folder_views(r.1@) == folder_views(folders@).push(r.0@),
{
    let folder = new_folder(name, parent_id, new_id(), current_timestamp());
    let mut list = folders;
    let ghost before = folder_views(list@);
    list.push(folder.clone());
    assert(folder_views(list@) == before.push(folder@));
    (folder, list)
}

/// The index of the first folder with the given id; the length of the list
/// where no folder has it.
pub open spec fn index_of_folder(folders: Seq<FolderView>, id: Seq<char>) -> int
    decreases folders.len(),
{
    if folders.len() == 0 {
        0
    } else if folders[0].id == id {
        0
    } else {
        1 + index_of_folder(folders.drop_first(), id)
    }
}

/// Whether some folder of the list has the given id.
pub open spec fn has_folder(folders: Seq<FolderView>, id: Seq<char>) -> bool {
    index_of_folder(folders, id) < folders.len()
}

/// A folder is found exactly where some folder of the list has the id: the
/// index of the first folder with the id lies in the list then, and no folder
/// in front of it has the id.
pub proof fn lemma_index_of_folder(folders: Seq<FolderView>, id: Seq<char>)
    ensures
        0 <= index_of_folder(folders, id) <= folders.len(),
        index_of_folder(folders, id) < folders.len() ==> folders[index_of_folder(folders, id)].id
            == id,
        forall|i: int| 0 <= i < index_of_folder(folders, id) ==> (#[trigger] folders[i]).id != id,
        has_folder(folders, id) <==> exists|i: int|
            0 <= i < folders.len() && (#[trigger] folders[i]).id == id,
    decreases folders.len(),
{
    if folders.len() > 0 && folders[0].id != id {
        lemma_index_of_folder(folders.drop_first(), id);
        assert forall|i: int| 0 <= i < index_of_folder(folders, id) implies (
        #[trigger] folders[i]).id != id by {
            if i > 0 {
                assert(folders[i] == folders.drop_first()[i - 1]);
            }
        }
    }
}

/// The index of the first folder with the given id, or the length of the list.
pub fn find_folder(folders: &Vec<Folder>, id: &str) -> (r: usize)
    ensures
        r == index_of_folder(folder_views(folders@), id@),
        r <= folders.len(),
{
    let ghost views = folder_views(folders@);
    let mut i: usize = 0;
    assert(views.skip(0) == views);
    while i < folders.len() && !same_text(folders[i].id.as_str(), id)
        invariant
            i <= folders.len(),
            views == folder_views(folders@),
            index_of_folder(views, id@) == i + index_of_folder(views.skip(i as int), id@),
        decreases folders.len() - i,
    {
        assert(views.skip(i as int).drop_first() == views.skip(i as int + 1));
        i = i + 1;
    }
    i
}

/// The fields that an update of a folder gives. A field that is left out stays
/// as it is; an update cannot take a folder out of its parent.
#[derive(Debug, PartialEq)]
pub struct FolderUpdate {
    pub name: Option<String>,
    pub parent_id: Option<String>,
    pub expanded: Option<bool>,
}

/// The folder after an update at the time `now`.
pub open spec fn updated_folder(
    folder: FolderView,
    update: FolderUpdate,
    now: Seq<char>,
) -> FolderView {
    FolderView {
        id: folder.id,
        name: text_or(opt_text(update.name), folder.name),
        parent_id: match update.parent_id {
            Some(p) => Some(p@),
            None => folder.parent_id,
        },
        created_at: folder.created_at,
        updated_at: now,
        expanded: flag_or(update.expanded, folder.expanded),
    }
}

/// Applies an update to the first folder with the given id, at the time `now`.
/// Gives the folder as it is now and the list to write. Fails with `NotFound`
/// exactly where no folder has the id.
pub fn change_folder(folders: Vec<Folder>, id: &str, update: FolderUpdate, now: String) -> (r:
    Result<(Folder, Vec<Folder>), StoreError>)
    ensures
        match r {
            Ok((folder, list)) => {
                let at = index_of_folder(folder_views(folders@), id@);
                &&& has_folder(folder_views(folders@), id@)
                &&& folder@ == updated_folder(folder_views(folders@)[at], update, now@)
                &&& folder_views(list@) == folder_views(folders@).update(at, folder@)
            },
            Err(e) => !has_folder(folder_views(folders@), id@) && e == StoreError::NotFound(
                Entity::Folder,
            ),
        },
{
    let ghost views = folder_views(folders@);
    let at = find_folder(&folders, id);
    if at >= folders.len() {
        return Err(StoreError::NotFound(Entity::Folder));
    }
    let mut list = folders;
    let old = list.remove(at);
    let changed = Folder {
        id: old.id,
        name: match update.name {
            Some(n) => n,
            None => old.name,
        },
        parent_id: match update.parent_id {
            Some(p) => Some(p),
            None => old.parent_id,
        },
        created_at: old.created_at,
        updated_at: now,
        expanded: match update.expanded {
            Some(e) => e,
            None => old.expanded,
        },
    };
    list.insert(at, changed.clone());
    assert(folder_views(list@) =~= views.update(at as int, changed@));
    Ok((changed, list))
}

/// Updates the first folder with the given id and sets the time of the update
/// by the clock. Fails with `NotFound` exactly where no folder has the id.
pub fn update_folder(folders: Vec<Folder>, id: &str, update: FolderUpdate) -> (r: Result<
    (Folder, Vec<Folder>),
    StoreError,
>)
    ensures
        match r {
            Ok((folder, list)) => {
                let at = index_of_folder(folder_views(folders@), id@);
                &&& has_folder(folder_views(folders@), id@)
                &&& folder@ == updated_folder(
                    folder_views(folders@)[at],
                    update,
                    folder@.updated_at,
                )
                &&& folder_views(list@) == folder_views(folders@).update(at, folder@)
            },
            Err(e) => !has_folder(folder_views(folders@), id@) && e == StoreError::NotFound(
                Entity::Folder,
            ),
        },
{
    change_folder(folders, id, update, current_timestamp())
}

/// The parent that the folder `id` has in the list; none where it lies at the
/// root or is not in the list.
pub open spec fn former_parent(folders: Seq<FolderView>, id: Seq<char>) -> Option<Seq<char>> {
    if has_folder(folders, id) {
        folders[index_of_folder(folders, id)].parent_id
    } else {
        None
    }
}

/// A folder as it is once the folder `id` is gone: a child of `id` moves up to
/// `parent`, any other folder stays as it is.
pub open spec fn reparented(
    folder: FolderView,
    id: Seq<char>,
    parent: Option<Seq<char>>,
) -> FolderView {
    if folder.parent_id == Some(id) {
        FolderView { parent_id: parent, ..folder }
    } else {
        folder
    }
}

/// The list of folders once the folder `id` is deleted: the folder is gone, and
/// its children have moved up to its former parent.
pub open spec fn folders_after_delete(folders: Seq<FolderView>, id: Seq<char>) -> Seq<
    FolderView,
> {
    folders.filter(|f: FolderView| f.id != id).map_values(
        |f: FolderView| reparented(f, id, former_parent(folders, id)),
    )
}

/// A note as it is once it is put out of its folder at the time `now`: in the
/// root scope, with its position as it was.
pub open spec fn evicted(note: NoteView, now: Seq<char>) -> NoteView {
    NoteView { folder_id: None, updated_at: now, ..note }
}

/// The notes that the deletion of the folder `id` puts out into the root
/// scope, as they are afterwards. Their positions are left as they were.
pub open spec fn notes_evicted(notes: Seq<NoteView>, id: Seq<char>, now: Seq<char>) -> Seq<
    NoteView,
> {
    notes.filter(|n: NoteView| n.folder_id == Some(id)).map_values(|n: NoteView| evicted(n, now))
}

/// What the deletion of a folder writes: the list of folders, and the notes
/// that had to leave the folder.
#[derive(Debug, PartialEq)]
pub struct FolderRemoval {
    pub folders: Vec<Folder>,
    pub evicted: Vec<Note>,
}

/// Deletes the folder `id` at the time `now`: its notes go to the root scope,
/// the folder leaves the list, and its children move up to its former parent.
/// Where no folder has the id, nothing of this list is changed.
pub fn remove_folder(folders: Vec<Folder>, notes: Vec<Note>, id: &str, now: &str) -> (r:
    FolderRemoval)
    ensures
        folder_views(r.folders@) == folders_after_delete(folder_views(folders@), id@),
        note_views(r.evicted@) == notes_evicted(note_views(notes@), id@, now@),
{
    let ghost folder_input = folders@;
    let ghost fviews = folder_views(folders@);
    let ghost note_input = notes@;
    let ghost nviews = note_views(notes@);
    let at = find_folder(&folders, id);
    let parent: Option<String> = if at < folders.len() {
        copy_opt_text(&folders[at].parent_id)
    } else {
        None
    };
    assert(opt_text(parent) == former_parent(fviews, id@));
    proof {
        assert(fviews.take(0) == Seq::<FolderView>::empty());
        assert(nviews.take(0) == Seq::<NoteView>::empty());
        reveal(Seq::filter);
    }
    let mut evicted_notes: Vec<Note> = Vec::new();
    for note in it: notes
        invariant
            it.seq() == note_input,
            nviews == note_views(note_input),
            note_views(evicted_notes@) == notes_evicted(nviews.take(it.index() as int), id@, now@),
    {
        proof {
            let k = it.index() as int;
            assert(nviews.take(k + 1) == nviews.take(k).push(note@));
            nviews.take(k).lemma_filter_push(note@, |n: NoteView| n.folder_id == Some(id@));
        }
        let inside = match &note.folder_id {
            Some(f) => same_text(f.as_str(), id),
            None => false,
        };
        if inside {
            let ghost before = note_views(evicted_notes@);
            let mut out = note;
            out.folder_id = None;
            out.updated_at = now.to_owned();
            evicted_notes.push(out);
            assert(note_views(evicted_notes@) == before.push(evicted(note@, now@)));
            assert(note_views(evicted_notes@) =~= notes_evicted(
                nviews.take(it.index() as int + 1),
                id@,
                now@,
            ));
        }
    }
    assert(nviews.take(note_input.len() as int) == nviews);

    let mut kept: Vec<Folder> = Vec::new();
    for folder in it: folders
        invariant
            it.seq() == folder_input,
            fviews == folder_views(folder_input),
            opt_text(parent) == former_parent(fviews, id@),
            folder_views(kept@) == fviews.take(it.index() as int).filter(
                |f: FolderView| f.id != id@,
            ).map_values(|f: FolderView| reparented(f, id@, former_parent(fviews, id@))),
    {
        proof {
            let k = it.index() as int;
            assert(fviews.take(k + 1) == fviews.take(k).push(folder@));
            fviews.take(k).lemma_filter_push(folder@, |f: FolderView| f.id != id@);
        }
        if !same_text(folder.id.as_str(), id) {
            let ghost before = folder_views(kept@);
            let is_child = match &folder.parent_id {
                Some(p) => same_text(p.as_str(), id),
                None => false,
            };
            let mut out = folder;
            if is_child {
                out.parent_id = copy_opt_text(&parent);
            }
            kept.push(out);
            assert(folder_views(kept@) == before.push(
                reparented(folder@, id@, former_parent(fviews, id@)),
            ));
            assert(folder_views(kept@) =~= fviews.take(it.index() as int + 1).filter(
                |f: FolderView| f.id != id@,
            ).map_values(|f: FolderView| reparented(f, id@, former_parent(fviews, id@))));
        }
    }
    assert(fviews.take(folder_input.len() as int) == fviews);
    FolderRemoval { folders: kept, evicted: evicted_notes }
}

/// Deletes the folder `id`, the time of the change being that of the clock.
/// Where no folder has the id, the list of folders stays as it is.
pub fn delete_folder(folders: Vec<Folder>, notes: Vec<Note>, id: &str) -> (r: FolderRemoval)
    ensures
        folder_views(r.folders@) == folders_after_delete(folder_views(folders@), id@),
        exists|now: Seq<char>| #[trigger]
            notes_evicted(note_views(notes@), id@, now) == note_views(r.evicted@),
{
    let now = current_timestamp();
    remove_folder(folders, notes, id, now.as_str())
}

/// Deleting a folder takes it out of the list and moves its children up:
/// every other folder is still in the list, a child of the deleted folder with
/// the former parent of that folder as its parent, any other folder as it was;
/// and no folder of the list has the id of the deleted one.
pub proof fn lemma_delete_folder_cascade(folders: Seq<FolderView>, id: Seq<char>)
    ensures
        forall|i: int|
            0 <= i < folders.len() && (#[trigger] folders[i]).id != id ==> folders_after_delete(
                folders,
                id,
            ).contains(reparented(folders[i], id, former_parent(folders, id))),
        forall|j: int|
            0 <= j < folders_after_delete(folders, id).len() ==> (#[trigger] folders_after_delete(
                folders,
                id,
            )[j]).id != id,
{
    let keep = |f: FolderView| f.id != id;
    let up = |f: FolderView| reparented(f, id, former_parent(folders, id));
    let kept = folders.filter(keep);
    let after = folders_after_delete(folders, id);
    assert(after == kept.map_values(up));
    assert forall|i: int| 0 <= i < folders.len() && (#[trigger] folders[i]).id != id implies after.contains(
        reparented(folders[i], id, former_parent(folders, id)),
    ) by {
        folders.lemma_filter_contains(keep, i);
        let k = choose|k: int| 0 <= k < kept.len() && kept[k] == folders[i];
        assert(after[k] == up(kept[k]));
    }
    assert forall|j: int| 0 <= j < after.len() implies (#[trigger] after[j]).id != id by {
        folders.lemma_filter_pred(keep, j);
        assert(after[j] == up(kept[j]));
    }
}

/// Deleting a folder puts its notes out: every note of the folder is among the
/// notes to write, in the root scope and with its position as it was.
pub proof fn lemma_delete_folder_evicts(notes: Seq<NoteView>, id: Seq<char>, now: Seq<char>)
    ensures
        forall|i: int|
            0 <= i < notes.len() && (#[trigger] notes[i]).folder_id == Some(id) ==> notes_evicted(
                notes,
                id,
                now,
            ).contains(evicted(notes[i], now)),
        forall|j: int|
            0 <= j < notes_evicted(notes, id, now).len() ==> (#[trigger] notes_evicted(
                notes,
                id,
                now,
            )[j]).folder_id is None,
{
    let inside = |n: NoteView| n.folder_id == Some(id);
    let out = |n: NoteView| evicted(n, now);
    let held = notes.filter(inside);
    let gone = notes_evicted(notes, id, now);
    assert(gone == held.map_values(out));
    assert forall|i: int| 0 <= i < notes.len() && (#[trigger] notes[i]).folder_id == Some(
        id,
    ) implies gone.contains(evicted(notes[i], now)) by {
        notes.lemma_filter_contains(inside, i);
        let k = choose|k: int| 0 <= k < held.len() && held[k] == notes[i];
        assert(gone[k] == out(held[k]));
    }
    assert forall|j: int| 0 <= j < gone.len() implies (#[trigger] gone[j]).folder_id is None by {
        assert(gone[j] == out(held[j]));
    }
}

/// Deleting a folder that is not in the list, and that no folder and no note
/// refers to, changes nothing.
pub proof fn lemma_delete_unknown_folder(
    folders: Seq<FolderView>,
    notes: Seq<NoteView>,
    id: Seq<char>,
    now: Seq<char>,
)
    requires
        !has_folder(folders, id),
        forall|i: int| 0 <= i < folders.len() ==> (#[trigger] folders[i]).parent_id != Some(id),
        forall|i: int| 0 <= i < notes.len() ==> (#[trigger] notes[i]).folder_id != Some(id),
    ensures
        folders_after_delete(folders, id) == folders,
        notes_evicted(notes, id, now) == Seq::<NoteView>::empty(),
{
    lemma_index_of_folder(folders, id);
    crate::seqs::lemma_filter_all(folders, |f: FolderView| f.id != id);
    crate::seqs::lemma_filter_none(notes, |n: NoteView| n.folder_id == Some(id));
    assert(folders_after_delete(folders, id) =~= folders);
    assert(notes_evicted(notes, id, now) =~= Seq::<NoteView>::empty());
}

} // verus!
