//! The order of notes. A scope is the set of notes that share one folder, the
//! notes without a folder being one scope of their own. Inside a scope the
//! notes are numbered from 0 without gaps, and a listing shows them scope by
//! scope in the order of their numbers.

use vstd::prelude::*;
use crate::dense::{
    all_dense, is_dense, lemma_move_keeps_dense, lemma_source_after_move,
    lemma_target_after_move, notes_after_move,
};
use crate::model::{
    copy_opt_text, note_views, opt_text, same_opt_text, Entity, Note, NoteView, StoreError,
};
use crate::text::{
    lemma_text_before_irreflexive, lemma_text_before_total, lemma_text_before_transitive,
    same_text, stands_before, text_before,
};

verus! {

/// Whether the scope `a` is listed before the scope `b`: the root scope comes
/// first, and the folders follow in the order of their ids.
pub open spec fn scope_before(a: Option<Seq<char>>, b: Option<Seq<char>>) -> bool {
    match (a, b) {
        (None, Some(_)) => true,
        (Some(x), Some(y)) => text_before(x, y),
        _ => false,
    }
}

/// Whether note `a` must be listed before note `b`: its scope comes first; or
/// they share a scope and `a` has the lower position; or they share scope and
/// position and `a` was updated later.
pub open spec fn precedes(a: NoteView, b: NoteView) -> bool {
    ||| scope_before(a.folder_id, b.folder_id)
    ||| (a.folder_id == b.folder_id && a.position < b.position)
    ||| (a.folder_id == b.folder_id && a.position == b.position && text_before(
        b.updated_at,
        a.updated_at,
    ))
}

/// Where a note goes into a listing: in front of the first note that it must
/// precede, after all the others.
pub open spec fn insertion_point(listing: Seq<NoteView>, x: NoteView) -> int
    decreases listing.len(),
{
    if listing.len() == 0 || precedes(x, listing[0]) {
        0
    } else {
        1 + insertion_point(listing.drop_first(), x)
    }
}

/// The notes in the order of a listing: each note in turn, as the notes come,
/// goes in at its insertion point. Notes that tie stay in the order in which
/// they came.
pub open spec fn presentation_order(notes: Seq<NoteView>) -> Seq<NoteView>
    decreases notes.len(),
{
    if notes.len() == 0 {
        notes
    } else {
        let rest = presentation_order(notes.drop_last());
        rest.insert(insertion_point(rest, notes.last()), notes.last())
    }
}

/// Whether no note of the listing stands behind one that it must precede.
pub open spec fn in_order(listing: Seq<NoteView>) -> bool {
    forall|i: int, j: int| 0 <= i < j < listing.len() ==> !precedes(listing[j], listing[i])
}

/// Whether note `a` must be listed before note `b`.
pub fn note_precedes(a: &Note, b: &Note) -> (r: bool)
    ensures
        r == precedes(a@, b@),
{
    let scope_first = match (&a.folder_id, &b.folder_id) {
        (None, Some(_)) => true,
        (Some(x), Some(y)) => stands_before(x.as_str(), y.as_str()),
        _ => false,
    };
    if scope_first {
        true
    } else if same_opt_text(&a.folder_id, &b.folder_id) {
        a.position < b.position || (a.position == b.position && stands_before(
            b.updated_at.as_str(),
            a.updated_at.as_str(),
        ))
    } else {
        false
    }
}

/// The index at which `x` goes into the listing.
fn find_insertion_point(listing: &Vec<Note>, x: &Note) -> (r: usize)
    ensures
        r == insertion_point(note_views(listing@), x@),
        r <= listing.len(),
{
    let mut i: usize = 0;
    assert(note_views(listing@).skip(0) == note_views(listing@));
    while i < listing.len() && !note_precedes(x, &listing[i])
        invariant
            i <= listing.len(),
            insertion_point(note_views(listing@), x@) == i + insertion_point(
                note_views(listing@).skip(i as int),
                x@,
            ),
        decreases listing.len() - i,
    {
        assert(note_views(listing@).skip(i as int).drop_first() == note_views(listing@).skip(
            i as int + 1,
        ));
        i = i + 1;
    }
    i
}

/// The insertion point lies inside the listing or at its end.
pub proof fn lemma_insertion_point_bounds(listing: Seq<NoteView>, x: NoteView)
    ensures
        0 <= insertion_point(listing, x) <= listing.len(),
    decreases listing.len(),
{
    if listing.len() > 0 && !precedes(x, listing[0]) {
        lemma_insertion_point_bounds(listing.drop_first(), x);
    }
}

/// Puts notes into the order of a listing.
pub fn sort_notes(notes: Vec<Note>) -> (r: Vec<Note>)
    ensures
        note_views(r@) == presentation_order(note_views(notes@)),
{
    let ghost input = notes@;
    let mut sorted: Vec<Note> = Vec::new();
    for note in it: notes
        invariant
            it.seq() == input,
            note_views(sorted@) == presentation_order(note_views(input.take(it.index() as int))),
    {
        let ghost before = note_views(sorted@);
        let ghost taken = input.take(it.index() as int + 1);
        assert(note_views(taken).drop_last() == note_views(input.take(it.index() as int)));
        assert(note_views(taken).last() == note@);
        let at = find_insertion_point(&sorted, &note);
        sorted.insert(at, note);
        assert(note_views(sorted@) == before.insert(at as int, note@));
    }
    assert(input.take(input.len() as int) == input);
    sorted
}

/// The notes of one scope, in the order in which they stand in `notes`.
pub open spec fn scope_of(notes: Seq<NoteView>, folder: Option<Seq<char>>) -> Seq<NoteView> {
    notes.filter(|n: NoteView| n.folder_id == folder)
}

/// The highest position among the notes; `None` where there is no note.
pub open spec fn highest_position(scope: Seq<NoteView>) -> Option<int>
    decreases scope.len(),
{
    if scope.len() == 0 {
        None
    } else {
        match highest_position(scope.drop_last()) {
            Some(m) => if m >= scope.last().position {
                Some(m)
            } else {
                Some(scope.last().position)
            },
            None => Some(scope.last().position),
        }
    }
}

/// The position of a note that is added to a scope: one more than the highest
/// position in the scope, and 0 in a scope without notes.
pub open spec fn append_position(notes: Seq<NoteView>, folder: Option<Seq<char>>) -> int {
    match highest_position(scope_of(notes, folder)) {
        Some(m) => m + 1,
        None => 0,
    }
}

/// The scope of a list that grew by one note.
pub proof fn lemma_scope_push(notes: Seq<NoteView>, x: NoteView, folder: Option<Seq<char>>)
    ensures
        scope_of(notes.push(x), folder) == if x.folder_id == folder {
            scope_of(notes, folder).push(x)
        } else {
            scope_of(notes, folder)
        },
{
    notes.lemma_filter_push(x, |n: NoteView| n.folder_id == folder);
}

/// The position that a new note of the given scope takes.
pub fn next_position(notes: &Vec<Note>, folder_id: &Option<String>) -> (r: i32)
    requires
        append_position(note_views(notes@), opt_text(*folder_id)) <= i32::MAX,
    ensures
        r == append_position(note_views(notes@), opt_text(*folder_id)),
{
    let ghost views = note_views(notes@);
    let ghost folder = opt_text(*folder_id);
    let mut best: Option<i32> = None;
    let mut i: usize = 0;
    proof {
        assert(views.take(0) == Seq::<NoteView>::empty());
        reveal(Seq::filter);
    }
    while i < notes.len()
        invariant
            i <= notes.len(),
            views == note_views(notes@),
            folder == opt_text(*folder_id),
            match best {
                Some(m) => highest_position(scope_of(views.take(i as int), folder)) == Some(
                    m as int,
                ),
                None => highest_position(scope_of(views.take(i as int), folder)) is None,
            },
        decreases notes.len() - i,
    {
        proof {
            assert(views.take(i as int + 1) == views.take(i as int).push(views[i as int]));
            lemma_scope_push(views.take(i as int), views[i as int], folder);
            let grown = scope_of(views.take(i as int), folder).push(views[i as int]);
            assert(grown.drop_last() == scope_of(views.take(i as int), folder));
        }
        if same_opt_text(&notes[i].folder_id, folder_id) {
            let p = notes[i].position;
            best = match best {
                Some(m) => if m >= p {
                    Some(m)
                } else {
                    Some(p)
                },
                None => Some(p),
            };
        }
        i = i + 1;
    }
    assert(views.take(notes.len() as int) == views);
    match best {
        Some(m) => m + 1,
        None => 0,
    }
}

/// The index of the first note with the given id; the length of the list where
/// no note has it.
pub open spec fn index_of_note(notes: Seq<NoteView>, id: Seq<char>) -> int
    decreases notes.len(),
{
    if notes.len() == 0 {
        0
    } else if notes[0].id == id {
        0
    } else {
        1 + index_of_note(notes.drop_first(), id)
    }
}

/// Whether some note of the list has the given id.
pub open spec fn has_note(notes: Seq<NoteView>, id: Seq<char>) -> bool {
    index_of_note(notes, id) < notes.len()
}

/// A note is found exactly where some note of the list has the id: the index
/// of the first note with the id lies in the list then, and no note in front
/// of it has the id.
pub proof fn lemma_index_of_note(notes: Seq<NoteView>, id: Seq<char>)
    ensures
        0 <= index_of_note(notes, id) <= notes.len(),
        index_of_note(notes, id) < notes.len() ==> notes[index_of_note(notes, id)].id == id,
        forall|i: int| 0 <= i < index_of_note(notes, id) ==> (#[trigger] notes[i]).id != id,
        has_note(notes, id) <==> exists|i: int|
            0 <= i < notes.len() && (#[trigger] notes[i]).id == id,
    decreases notes.len(),
{
    if notes.len() > 0 && notes[0].id != id {
        lemma_index_of_note(notes.drop_first(), id);
        assert forall|i: int| 0 <= i < index_of_note(notes, id) implies (#[trigger] notes[i]).id
            != id by {
            if i > 0 {
                assert(notes[i] == notes.drop_first()[i - 1]);
            }
        }
    }
}

/// The index of the first note with the given id, or the length of the list.
pub fn find_note(notes: &Vec<Note>, id: &str) -> (r: usize)
    ensures
        r == index_of_note(note_views(notes@), id@),
        r <= notes.len(),
{
    let ghost views = note_views(notes@);
    let mut i: usize = 0;
    assert(views.skip(0) == views);
    while i < notes.len() && !same_text(notes[i].id.as_str(), id)
        invariant
            i <= notes.len(),
            views == note_views(notes@),
            index_of_note(views, id@) == i + index_of_note(views.skip(i as int), id@),
        decreases notes.len() - i,
    {
        assert(views.skip(i as int).drop_first() == views.skip(i as int + 1));
        i = i + 1;
    }
    i
}

/// The index at which a note goes into a list of `len` notes when it is asked
/// to go to `position`: the position itself where it lies in the list or at
/// its end, the nearer end of the list where it does not.
pub open spec fn clamped_index(position: int, len: int) -> int {
    if position < 0 {
        0
    } else if position > len {
        len
    } else {
        position
    }
}

/// The list with its notes numbered 0, 1, 2, ... in the order of the list.
pub open spec fn renumbered(list: Seq<NoteView>) -> Seq<NoteView> {
    Seq::new(list.len(), |k: int| NoteView { position: k, ..list[k] })
}

/// The note that a move takes: the first note with the id, put into the target
/// scope.
pub open spec fn moved_note(
    notes: Seq<NoteView>,
    id: Seq<char>,
    target: Option<Seq<char>>,
) -> NoteView {
    NoteView { folder_id: target, ..notes[index_of_note(notes, id)] }
}

/// The notes without the one that a move takes.
pub open spec fn remaining_notes(notes: Seq<NoteView>, id: Seq<char>) -> Seq<NoteView> {
    notes.remove(index_of_note(notes, id))
}

/// The notes of the scope `from` that stay there when the note `id` leaves.
pub open spec fn left_behind(
    notes: Seq<NoteView>,
    from: Option<Seq<char>>,
    id: Seq<char>,
) -> Seq<NoteView> {
    notes.filter(|n: NoteView| n.folder_id == from && n.id != id)
}

/// The target scope after a move: the other notes of the scope in the order of
/// a listing, the moved note put in at the clamped index, and all of them
/// numbered anew.
pub open spec fn target_after_move(
    notes: Seq<NoteView>,
    id: Seq<char>,
    target: Option<Seq<char>>,
    position: int,
) -> Seq<NoteView> {
    let scope = presentation_order(scope_of(remaining_notes(notes, id), target));
    renumbered(
        scope.insert(clamped_index(position, scope.len() as int), moved_note(notes, id, target)),
    )
}

/// The scope that the moved note left, after the move: the notes that stayed,
/// in the order of a listing and numbered anew. Empty where the note stays in
/// its scope, which is then the target scope.
pub open spec fn source_after_move(
    notes: Seq<NoteView>,
    id: Seq<char>,
    target: Option<Seq<char>>,
) -> Seq<NoteView> {
    let from = notes[index_of_note(notes, id)].folder_id;
    if from == target {
        Seq::empty()
    } else {
        renumbered(presentation_order(left_behind(remaining_notes(notes, id), from, id)))
    }
}

/// The records that a move writes: the notes of the target scope and, where
/// the note changed its scope, the notes that it left behind, each list in its
/// new order and with its new positions.
#[derive(Debug, PartialEq)]
pub struct Renumbering {
    pub target: Vec<Note>,
    pub source: Vec<Note>,
}

/// Numbers the notes 0, 1, 2, ... in the order of the list.
pub fn renumber(list: Vec<Note>) -> (r: Vec<Note>)
    requires
        list.len() <= i32::MAX,
    ensures
        note_views(r@) == renumbered(note_views(list@)),
{
    let ghost input = list@;
    let mut out: Vec<Note> = Vec::new();
    for note in it: list
        invariant
            it.seq() == input,
            input.len() <= i32::MAX,
            out.len() == it.index(),
            forall|j: int|
                0 <= j < out.len() ==> (#[trigger] out[j])@ == (NoteView {
                    position: j,
                    ..input[j]@
                }),
    {
        let mut numbered = note;
        numbered.position = out.len() as i32;
        out.push(numbered);
    }
    assert(note_views(out@) =~= renumbered(note_views(input)));
    out
}

/// The index at which a note that is asked to go to `position` enters a list
/// of `len` notes.
pub fn clamp_index(position: i32, len: usize) -> (r: usize)
    ensures
        r == clamped_index(position as int, len as int),
{
    if position <= 0 {
        0
    } else if position as usize > len {
        len
    } else {
        position as usize
    }
}

/// Moves the note `note_id` into the scope `target_folder_id`, to the place
/// `new_position` of that scope, and numbers the notes of the scope anew; where
/// the note leaves another scope, the notes that stay there are numbered anew
/// as well. The result holds the records to write. A position in front of the
/// scope or behind it is taken as its first or its last place.
///
/// Both lists are dense, and a store whose scopes were all dense has all its
/// scopes dense once the records are written.
///
/// Fails with `NotFound` exactly where no note has the id.
pub fn reorder_notes(
    all_notes: Vec<Note>,
    note_id: &str,
    target_folder_id: Option<String>,
    new_position: i32,
) -> (r: Result<Renumbering, StoreError>)
    requires
        all_notes.len() <= i32::MAX,
    ensures
        match r {
            Ok(moved) => {
                &&& has_note(note_views(all_notes@), note_id@)
                &&& note_views(moved.target@) == target_after_move(
                    note_views(all_notes@),
                    note_id@,
                    opt_text(target_folder_id),
                    new_position as int,
                )
                &&& note_views(moved.source@) == source_after_move(
                    note_views(all_notes@),
                    note_id@,
                    opt_text(target_folder_id),
                )
                &&& is_dense(note_views(moved.target@))
                &&& is_dense(note_views(moved.source@))
                &&& all_dense(note_views(all_notes@)) ==> all_dense(
                    notes_after_move(
                        note_views(all_notes@),
                        note_id@,
                        opt_text(target_folder_id),
                        new_position as int,
                    ),
                )
            },
            Err(e) => !has_note(note_views(all_notes@), note_id@) && e == StoreError::NotFound(
                Entity::Note,
            ),
        },
{
    let ghost views = note_views(all_notes@);
    let ghost target = opt_text(target_folder_id);
    let index = find_note(&all_notes, note_id);
    if index >= all_notes.len() {
        return Err(StoreError::NotFound(Entity::Note));
    }
    let mut rest = all_notes;
    let mut moved = rest.remove(index);
    let from_folder = copy_opt_text(&moved.folder_id);
    let ghost from = opt_text(from_folder);
    let changes_scope = !same_opt_text(&from_folder, &target_folder_id);
    moved.folder_id = copy_opt_text(&target_folder_id);
    assert(moved@ == moved_note(views, note_id@, target));
    let ghost others = note_views(rest@);
    assert(others == remaining_notes(views, note_id@));

    let mut targets: Vec<Note> = Vec::new();
    let mut sources: Vec<Note> = Vec::new();
    let ghost input = rest@;
    proof {
        assert(others.take(0) == Seq::<NoteView>::empty());
        reveal(Seq::filter);
    }
    for note in it: rest
        invariant
            it.seq() == input,
            others == note_views(input),
            target == opt_text(target_folder_id),
            from == opt_text(from_folder),
            changes_scope == (from != target),
            note_views(targets@) == scope_of(others.take(it.index() as int), target),
            changes_scope ==> note_views(sources@) == left_behind(
                others.take(it.index() as int),
                from,
                note_id@,
            ),
            !changes_scope ==> sources@.len() == 0,
    {
        let ghost k = it.index() as int;
        proof {
            assert(others.take(k + 1) == others.take(k).push(note@));
            others.take(k).lemma_filter_push(note@, |n: NoteView| n.folder_id == target);
            others.take(k).lemma_filter_push(
                note@,
                |n: NoteView| n.folder_id == from && n.id != note_id@,
            );
        }
        if same_opt_text(&note.folder_id, &target_folder_id) {
            let ghost before = note_views(targets@);
            targets.push(note);
            assert(note_views(targets@) == before.push(note@));
        } else if changes_scope && same_opt_text(&note.folder_id, &from_folder) && !same_text(
            note.id.as_str(),
            note_id,
        ) {
            let ghost before = note_views(sources@);
            sources.push(note);
            assert(note_views(sources@) == before.push(note@));
        }
    }
    assert(others.take(input.len() as int) == others);
    proof {
        others.lemma_filter_len(|n: NoteView| n.folder_id == target);
        others.lemma_filter_len(|n: NoteView| n.folder_id == from && n.id != note_id@);
    }

    let mut target_list = sort_notes(targets);
    proof {
        lemma_presentation_order_len(scope_of(others, target));
    }
    let at = clamp_index(new_position, target_list.len());
    let ghost before = note_views(target_list@);
    target_list.insert(at, moved);
    assert(note_views(target_list@) == before.insert(at as int, moved_note(views, note_id@, target)));
    let target_list = renumber(target_list);

    let source_list = if changes_scope {
        proof {
            lemma_presentation_order_len(left_behind(others, from, note_id@));
        }
        renumber(sort_notes(sources))
    } else {
        assert(note_views(sources@) == Seq::<NoteView>::empty());
        sources
    };
    proof {
        lemma_target_after_move(views, note_id@, target, new_position as int);
        lemma_source_after_move(views, note_id@, target);
        lemma_move_keeps_dense(views, note_id@, target, new_position as int);
    }
    Ok(Renumbering { target: target_list, source: source_list })
}

/// A listing holds as many notes as it was made of.
pub proof fn lemma_presentation_order_len(notes: Seq<NoteView>)
    ensures
        presentation_order(notes).len() == notes.len(),
    decreases notes.len(),
{
    if notes.len() > 0 {
        lemma_presentation_order_len(notes.drop_last());
        lemma_insertion_point_bounds(presentation_order(notes.drop_last()), notes.last());
    }
}

/// No note must be listed before itself.
pub proof fn lemma_precedes_irreflexive(a: NoteView)
    ensures
        !precedes(a, a),
{
    lemma_text_before_irreflexive(a.updated_at);
    if a.folder_id is Some {
        lemma_text_before_irreflexive(a.folder_id->0);
    }
}

/// Where `a` must be listed before `b`, and `b` before `c`, `a` must be listed
/// before `c`.
pub proof fn lemma_precedes_transitive(a: NoteView, b: NoteView, c: NoteView)
    requires
        precedes(a, b),
        precedes(b, c),
    ensures
        precedes(a, c),
{
    if scope_before(a.folder_id, b.folder_id) && scope_before(b.folder_id, c.folder_id) {
        if a.folder_id is Some {
            lemma_text_before_transitive(a.folder_id->0, b.folder_id->0, c.folder_id->0);
        }
    } else if a.folder_id == b.folder_id && b.folder_id == c.folder_id {
        if a.position == b.position && b.position == c.position {
            lemma_text_before_transitive(c.updated_at, b.updated_at, a.updated_at);
        }
    }
}

/// Of two notes in different scopes one must be listed before the other.
pub proof fn lemma_scopes_are_ordered(a: NoteView, b: NoteView)
    requires
        a.folder_id != b.folder_id,
    ensures
        scope_before(a.folder_id, b.folder_id) || scope_before(b.folder_id, a.folder_id),
{
    if a.folder_id is Some && b.folder_id is Some {
        lemma_text_before_total(a.folder_id->0, b.folder_id->0);
    }
}

/// A note goes in behind every note that it need not precede and in front of
/// the first one that it must.
pub proof fn lemma_insertion_point(listing: Seq<NoteView>, x: NoteView)
    ensures
        0 <= insertion_point(listing, x) <= listing.len(),
        forall|j: int| 0 <= j < insertion_point(listing, x) ==> !precedes(x, #[trigger] listing[j]),
        insertion_point(listing, x) < listing.len() ==> precedes(
            x,
            listing[insertion_point(listing, x)],
        ),
    decreases listing.len(),
{
    if listing.len() > 0 && !precedes(x, listing[0]) {
        let tail = listing.drop_first();
        lemma_insertion_point(tail, x);
        assert forall|j: int| 0 <= j < insertion_point(listing, x) implies !precedes(
            x,
            #[trigger] listing[j],
        ) by {
            if j > 0 {
                assert(listing[j] == tail[j - 1]);
            }
        }
        if insertion_point(listing, x) < listing.len() {
            assert(listing[insertion_point(listing, x)] == tail[insertion_point(tail, x)]);
        }
    }
}

/// A listing is in order: no note stands behind one that it must precede.
pub proof fn lemma_presentation_order_in_order(notes: Seq<NoteView>)
    ensures
        in_order(presentation_order(notes)),
    decreases notes.len(),
{
    if notes.len() > 0 {
        let rest = presentation_order(notes.drop_last());
        let x = notes.last();
        let p = insertion_point(rest, x);
        let out = rest.insert(p, x);
        lemma_presentation_order_in_order(notes.drop_last());
        lemma_insertion_point(rest, x);
        assert forall|i: int, j: int| 0 <= i < j < out.len() implies !precedes(out[j], out[i]) by {
            if j == p {
                assert(out[i] == rest[i]);
            } else if i == p {
                assert(out[j] == rest[j - 1]);
                if precedes(rest[j - 1], x) {
                    lemma_precedes_transitive(rest[j - 1], x, rest[p]);
                    lemma_precedes_irreflexive(rest[p]);
                }
            } else {
                let a = if i < p { i } else { i - 1 };
                let b = if j < p { j } else { j - 1 };
                assert(out[i] == rest[a]);
                assert(out[j] == rest[b]);
            }
        }
    }
}

/// A listing holds the notes that it was made of, each as often as it came.
pub proof fn lemma_presentation_order_same_notes(notes: Seq<NoteView>)
    ensures
        presentation_order(notes).to_multiset() == notes.to_multiset(),
    decreases notes.len(),
{
    broadcast use vstd::seq_lib::group_to_multiset_ensures;

    if notes.len() > 0 {
        let rest = presentation_order(notes.drop_last());
        lemma_presentation_order_same_notes(notes.drop_last());
        lemma_insertion_point_bounds(rest, notes.last());
        assert(notes == notes.drop_last().push(notes.last()));
    }
}

/// In a listing the notes of one scope stand together: between two notes of a
/// scope there is no note of another.
pub proof fn lemma_listing_groups_scopes(listing: Seq<NoteView>, i: int, j: int, k: int)
    requires
        in_order(listing),
        0 <= i <= j <= k < listing.len(),
        listing[i].folder_id == listing[k].folder_id,
    ensures
        listing[j].folder_id == listing[i].folder_id,
{
    if listing[j].folder_id != listing[i].folder_id {
        lemma_scopes_are_ordered(listing[j], listing[i]);
        assert(!precedes(listing[j], listing[i]));
        assert(!precedes(listing[k], listing[j]));
    }
}

} // verus!
