//! The law of positions: in every scope the positions of the notes are 0, 1,
//! 2, ... without a gap and without a number used twice. Creating a note and
//! moving a note keep the law; deleting a note keeps it where the note was the
//! last of its scope.

use vstd::prelude::*;
use crate::model::NoteView;
use crate::notes::notes_without;
use crate::ordering::{
    append_position, clamped_index, has_note, highest_position, index_of_note, left_behind,
    lemma_index_of_note, lemma_presentation_order_len, moved_note, presentation_order,
    remaining_notes, renumbered, scope_of, source_after_move, target_after_move,
    insertion_point, lemma_insertion_point_bounds,
};
use crate::seqs::{
    lemma_filter_add, lemma_filter_all, lemma_filter_none, lemma_filter_remove_inside,
    lemma_filter_remove_outside, lemma_filter_twice,
};

verus! {

/// Whether some note of the scope has the position `k`.
pub open spec fn holds_position(scope: Seq<NoteView>, k: int) -> bool {
    exists|i: int| 0 <= i < scope.len() && (#[trigger] scope[i]).position == k
}

/// Whether the positions of the notes of a scope are exactly 0, 1, ..., n - 1,
/// n being the number of the notes: each position lies in that range, no two
/// notes share one, and each number of the range is the position of a note.
pub open spec fn is_dense(scope: Seq<NoteView>) -> bool {
    &&& forall|i: int| 0 <= i < scope.len() ==> 0 <= (#[trigger] scope[i]).position < scope.len()
    &&& forall|i: int, j: int|
        0 <= i < j < scope.len() ==> (#[trigger] scope[i]).position != (
        #[trigger] scope[j]).position
    &&& forall|k: int| 0 <= k < scope.len() ==> #[trigger] holds_position(scope, k)
}

/// Whether every scope of the store is dense.
pub open spec fn all_dense(notes: Seq<NoteView>) -> bool {
    forall|folder: Option<Seq<char>>| is_dense(#[trigger] scope_of(notes, folder))
}

/// A store without notes is dense.
pub proof fn lemma_empty_store_is_dense()
    ensures
        all_dense(Seq::<NoteView>::empty()),
{
    assert forall|folder: Option<Seq<char>>| is_dense(
        #[trigger] scope_of(Seq::<NoteView>::empty(), folder),
    ) by {
        lemma_filter_none(Seq::<NoteView>::empty(), |n: NoteView| n.folder_id == folder);
    }
}

/// Notes that were numbered anew are dense.
pub proof fn lemma_renumbered_is_dense(list: Seq<NoteView>)
    ensures
        is_dense(renumbered(list)),
        renumbered(list).len() == list.len(),
        forall|k: int| 0 <= k < list.len() ==> (#[trigger] renumbered(list)[k]).position == k,
{
    let r = renumbered(list);
    assert forall|k: int| 0 <= k < r.len() implies #[trigger] holds_position(r, k) by {
        assert(r[k].position == k);
    }
}

/// The highest position of a scope is the position of one of its notes, and no
/// note of the scope has a higher one. A scope without notes has none.
pub proof fn lemma_highest_position(scope: Seq<NoteView>)
    ensures
        match highest_position(scope) {
            Some(m) => holds_position(scope, m) && forall|i: int|
                0 <= i < scope.len() ==> (#[trigger] scope[i]).position <= m,
            None => scope.len() == 0,
        },
    decreases scope.len(),
{
    if scope.len() > 0 {
        let front = scope.drop_last();
        lemma_highest_position(front);
        let m = highest_position(scope)->0;
        if highest_position(front) is Some && highest_position(front)->0 >= scope.last().position {
            let i = choose|i: int| 0 <= i < front.len() && (#[trigger] front[i]).position == m;
            assert(scope[i] == front[i]);
        } else {
            assert(scope[scope.len() - 1].position == m);
        }
        assert forall|i: int| 0 <= i < scope.len() implies (#[trigger] scope[i]).position <= m by {
            if i < front.len() {
                assert(scope[i] == front[i]);
            }
        }
    }
}

/// In a dense scope of n notes the highest position is n - 1, so the next note
/// gets the position n.
pub proof fn lemma_dense_next_position(scope: Seq<NoteView>)
    requires
        is_dense(scope),
    ensures
        highest_position(scope) == if scope.len() == 0 {
            None
        } else {
            Some(scope.len() - 1)
        },
{
    lemma_highest_position(scope);
    if scope.len() > 0 {
        assert(holds_position(scope, scope.len() - 1));
    }
}

/// A dense scope stays dense when a note with the next position joins it.
pub proof fn lemma_dense_push(scope: Seq<NoteView>, x: NoteView)
    requires
        is_dense(scope),
        x.position == scope.len(),
    ensures
        is_dense(scope.push(x)),
{
    let grown = scope.push(x);
    assert forall|k: int| 0 <= k < grown.len() implies #[trigger] holds_position(grown, k) by {
        if k < scope.len() {
            assert(holds_position(scope, k));
            let i = choose|i: int| 0 <= i < scope.len() && (#[trigger] scope[i]).position == k;
            assert(grown[i] == scope[i]);
        } else {
            assert(grown[scope.len() as int].position == k);
        }
    }
    assert forall|i: int| 0 <= i < grown.len() implies 0 <= (#[trigger] grown[i]).position
        < grown.len() by {
        if i < scope.len() {
            assert(grown[i] == scope[i]);
        }
    }
    assert forall|i: int, j: int| 0 <= i < j < grown.len() implies (#[trigger] grown[i]).position
        != (#[trigger] grown[j]).position by {
        assert(grown[i] == scope[i]);
        if j < scope.len() {
            assert(grown[j] == scope[j]);
        }
    }
}

/// A dense scope stays dense when the note with the highest position leaves.
pub proof fn lemma_dense_remove_last(scope: Seq<NoteView>, j: int)
    requires
        is_dense(scope),
        0 <= j < scope.len(),
        scope[j].position == scope.len() - 1,
    ensures
        is_dense(scope.remove(j)),
{
    let rest = scope.remove(j);
    assert forall|i: int| 0 <= i < rest.len() implies 0 <= (#[trigger] rest[i]).position
        < rest.len() by {
        let from = if i < j { i } else { i + 1 };
        assert(rest[i] == scope[from]);
        assert(scope[from].position != scope[j].position);
    }
    assert forall|a: int, b: int| 0 <= a < b < rest.len() implies (#[trigger] rest[a]).position
        != (#[trigger] rest[b]).position by {
        let fa = if a < j { a } else { a + 1 };
        let fb = if b < j { b } else { b + 1 };
        assert(rest[a] == scope[fa]);
        assert(rest[b] == scope[fb]);
    }
    assert forall|k: int| 0 <= k < rest.len() implies #[trigger] holds_position(rest, k) by {
        assert(holds_position(scope, k));
        let i = choose|i: int| 0 <= i < scope.len() && (#[trigger] scope[i]).position == k;
        let to = if i < j { i } else { i - 1 };
        assert(rest[to] == scope[i]);
    }
}

/// Creating a note keeps the law: a note that enters a dense scope with the
/// position that follows the highest one leaves the scope dense, and no other
/// scope is touched.
pub proof fn lemma_create_keeps_dense(notes: Seq<NoteView>, created: NoteView)
    requires
        created.position == append_position(notes, created.folder_id),
    ensures
        is_dense(scope_of(notes, created.folder_id)) ==> is_dense(
            scope_of(notes.push(created), created.folder_id),
        ),
        forall|folder: Option<Seq<char>>|
            folder != created.folder_id ==> #[trigger] scope_of(notes.push(created), folder)
                == scope_of(notes, folder),
        all_dense(notes) ==> all_dense(notes.push(created)),
{
    let scope = scope_of(notes, created.folder_id);
    notes.lemma_filter_push(created, |n: NoteView| n.folder_id == created.folder_id);
    if is_dense(scope) {
        lemma_dense_next_position(scope);
        lemma_dense_push(scope, created);
    }
    assert forall|folder: Option<Seq<char>>| folder != created.folder_id implies #[trigger] scope_of(
        notes.push(created),
        folder,
    ) == scope_of(notes, folder) by {
        notes.lemma_filter_push(created, |n: NoteView| n.folder_id == folder);
    }
    if all_dense(notes) {
        assert forall|folder: Option<Seq<char>>| is_dense(
            #[trigger] scope_of(notes.push(created), folder),
        ) by {
            assert(is_dense(scope_of(notes, folder)));
        }
    }
}

/// Every note of a listing is one of the notes that it was made of: what holds
/// of all of those holds of all notes of the listing.
pub proof fn lemma_presentation_order_keeps(notes: Seq<NoteView>, pred: spec_fn(NoteView) -> bool)
    requires
        forall|i: int| 0 <= i < notes.len() ==> pred(#[trigger] notes[i]),
    ensures
        forall|i: int|
            0 <= i < presentation_order(notes).len() ==> pred(
                #[trigger] presentation_order(notes)[i],
            ),
    decreases notes.len(),
{
    if notes.len() > 0 {
        let front = notes.drop_last();
        assert forall|i: int| 0 <= i < front.len() implies pred(#[trigger] front[i]) by {
            assert(front[i] == notes[i]);
        }
        lemma_presentation_order_keeps(front, pred);
        let rest = presentation_order(front);
        let p = insertion_point(rest, notes.last());
        lemma_insertion_point_bounds(rest, notes.last());
        let out = rest.insert(p, notes.last());
        assert forall|i: int| 0 <= i < out.len() implies pred(#[trigger] out[i]) by {
            if i < p {
                assert(out[i] == rest[i]);
            } else if i == p {
                assert(out[i] == notes[notes.len() - 1]);
            } else {
                assert(out[i] == rest[i - 1]);
            }
        }
    }
}

/// The notes that a move does not touch: those of the scopes that are neither
/// entered nor left.
pub open spec fn untouched_by_move(
    notes: Seq<NoteView>,
    id: Seq<char>,
    target: Option<Seq<char>>,
) -> Seq<NoteView> {
    let from = notes[index_of_note(notes, id)].folder_id;
    remaining_notes(notes, id).filter(|n: NoteView| n.folder_id != target && n.folder_id != from)
}

/// The notes of the store once a move is written: the notes that the move does
/// not touch, then the target scope, then the scope that the note left.
pub open spec fn notes_after_move(
    notes: Seq<NoteView>,
    id: Seq<char>,
    target: Option<Seq<char>>,
    position: int,
) -> Seq<NoteView> {
    untouched_by_move(notes, id, target) + target_after_move(notes, id, target, position)
        + source_after_move(notes, id, target)
}

/// Every note of the target list of a move lies in the target scope, and the
/// list is dense.
pub proof fn lemma_target_after_move(
    notes: Seq<NoteView>,
    id: Seq<char>,
    target: Option<Seq<char>>,
    position: int,
)
    ensures
        forall|i: int|
            0 <= i < target_after_move(notes, id, target, position).len() ==> (
            #[trigger] target_after_move(notes, id, target, position)[i]).folder_id == target,
        is_dense(target_after_move(notes, id, target, position)),
{
    let rest = remaining_notes(notes, id);
    let base = scope_of(rest, target);
    let in_target = |n: NoteView| n.folder_id == target;
    assert forall|i: int| 0 <= i < base.len() implies in_target(#[trigger] base[i]) by {
        rest.lemma_filter_pred(in_target, i);
    }
    lemma_presentation_order_keeps(base, in_target);
    lemma_presentation_order_len(base);
    let ordered = presentation_order(base);
    let c = clamped_index(position, ordered.len() as int);
    let with_moved = ordered.insert(c, moved_note(notes, id, target));
    let entered = target_after_move(notes, id, target, position);
    assert(entered == renumbered(with_moved));
    lemma_renumbered_is_dense(with_moved);
    assert forall|i: int| 0 <= i < entered.len() implies (#[trigger] entered[i]).folder_id
        == target by {
        assert(entered[i].folder_id == with_moved[i].folder_id);
        if i < c {
            assert(with_moved[i] == ordered[i]);
            assert(in_target(ordered[i]));
        } else if i > c {
            assert(with_moved[i] == ordered[i - 1]);
            assert(in_target(ordered[i - 1]));
        }
    }
}

/// Every note of the list that a move leaves behind lies in the scope that the
/// moved note left, and the list is dense.
pub proof fn lemma_source_after_move(notes: Seq<NoteView>, id: Seq<char>, target: Option<Seq<char>>)
    ensures
        forall|i: int|
            0 <= i < source_after_move(notes, id, target).len() ==> (#[trigger] source_after_move(
                notes,
                id,
                target,
            )[i]).folder_id == notes[index_of_note(notes, id)].folder_id,
        is_dense(source_after_move(notes, id, target)),
{
    let from = notes[index_of_note(notes, id)].folder_id;
    let rest = remaining_notes(notes, id);
    let left = source_after_move(notes, id, target);
    if from != target {
        let stayed = left_behind(rest, from, id);
        let stays = |n: NoteView| n.folder_id == from && n.id != id;
        let in_source = |n: NoteView| n.folder_id == from;
        assert forall|i: int| 0 <= i < stayed.len() implies in_source(#[trigger] stayed[i]) by {
            rest.lemma_filter_pred(stays, i);
        }
        lemma_presentation_order_keeps(stayed, in_source);
        let ordered = presentation_order(stayed);
        lemma_renumbered_is_dense(ordered);
        assert(left == renumbered(ordered));
        assert forall|i: int| 0 <= i < left.len() implies (#[trigger] left[i]).folder_id
            == from by {
            assert(left[i].folder_id == ordered[i].folder_id);
            assert(in_source(ordered[i]));
        }
    } else {
        lemma_renumbered_is_dense(Seq::<NoteView>::empty());
        assert(left =~= renumbered(Seq::<NoteView>::empty()));
    }
}

/// What a scope holds after a move: the target scope holds the target list,
/// the scope that the note left holds the notes that stayed there, and any
/// other scope holds what it held.
pub proof fn lemma_scope_after_move(
    notes: Seq<NoteView>,
    id: Seq<char>,
    target: Option<Seq<char>>,
    position: int,
    folder: Option<Seq<char>>,
)
    requires
        has_note(notes, id),
    ensures
        scope_of(notes_after_move(notes, id, target, position), folder) == if folder == target {
            target_after_move(notes, id, target, position)
        } else if folder == notes[index_of_note(notes, id)].folder_id {
            source_after_move(notes, id, target)
        } else {
            scope_of(notes, folder)
        },
        folder == target || folder == notes[index_of_note(notes, id)].folder_id ==> is_dense(
            scope_of(notes_after_move(notes, id, target, position), folder),
        ),
{
    lemma_index_of_note(notes, id);
    let at = index_of_note(notes, id);
    let from = notes[at].folder_id;
    let rest = remaining_notes(notes, id);
    let untouched = untouched_by_move(notes, id, target);
    let entered = target_after_move(notes, id, target, position);
    let left = source_after_move(notes, id, target);
    lemma_target_after_move(notes, id, target, position);
    lemma_source_after_move(notes, id, target);
    let elsewhere = |n: NoteView| n.folder_id != target && n.folder_id != from;
    assert forall|i: int| 0 <= i < untouched.len() implies elsewhere(#[trigger] untouched[i]) by {
        rest.lemma_filter_pred(elsewhere, i);
    }
    let here = |n: NoteView| n.folder_id == folder;
    lemma_filter_add(untouched + entered, left, here);
    lemma_filter_add(untouched, entered, here);
    if folder == target {
        lemma_filter_none(untouched, here);
        lemma_filter_all(entered, here);
        lemma_filter_none(left, here);
        assert(Seq::<NoteView>::empty() + entered + Seq::<NoteView>::empty() == entered);
    } else if folder == from {
        lemma_filter_none(untouched, here);
        lemma_filter_none(entered, here);
        lemma_filter_all(left, here);
        assert(Seq::<NoteView>::empty() + Seq::<NoteView>::empty() + left == left);
    } else {
        lemma_filter_twice(rest, elsewhere, here);
        lemma_filter_remove_outside(notes, here, at);
        lemma_filter_none(entered, here);
        lemma_filter_none(left, here);
        assert(scope_of(notes, folder) + Seq::<NoteView>::empty() + Seq::<NoteView>::empty()
            == scope_of(notes, folder));
    }
}

/// Moving a note restores the law where it acts and keeps it elsewhere: after
/// the move the target scope and the scope that the note left are dense, and
/// every other scope holds the notes that it held.
pub proof fn lemma_move_keeps_dense(
    notes: Seq<NoteView>,
    id: Seq<char>,
    target: Option<Seq<char>>,
    position: int,
)
    requires
        has_note(notes, id),
    ensures
        ({
            let after = notes_after_move(notes, id, target, position);
            let from = notes[index_of_note(notes, id)].folder_id;
            &&& is_dense(scope_of(after, target))
            &&& is_dense(scope_of(after, from))
            &&& forall|folder: Option<Seq<char>>|
                folder != target && folder != from ==> #[trigger] scope_of(after, folder)
                    == scope_of(notes, folder)
            &&& all_dense(notes) ==> all_dense(after)
        }),
{
    let after = notes_after_move(notes, id, target, position);
    let from = notes[index_of_note(notes, id)].folder_id;
    lemma_scope_after_move(notes, id, target, position, target);
    lemma_scope_after_move(notes, id, target, position, from);
    assert forall|folder: Option<Seq<char>>| folder != target && folder != from implies #[trigger] scope_of(
        after,
        folder,
    ) == scope_of(notes, folder) by {
        lemma_scope_after_move(notes, id, target, position, folder);
    }
    if all_dense(notes) {
        assert forall|folder: Option<Seq<char>>| is_dense(
            #[trigger] scope_of(after, folder),
        ) by {
            lemma_scope_after_move(notes, id, target, position, folder);
            assert(is_dense(scope_of(notes, folder)));
        }
    }
}

/// Whether no two notes of the store share an id.
pub open spec fn ids_differ(notes: Seq<NoteView>) -> bool {
    forall|i: int, j: int|
        0 <= i < j < notes.len() ==> (#[trigger] notes[i]).id != (#[trigger] notes[j]).id
}

/// Where ids differ, deleting by id takes out the one note that has the id.
pub proof fn lemma_without_is_remove(notes: Seq<NoteView>, i: int)
    requires
        ids_differ(notes),
        0 <= i < notes.len(),
    ensures
        notes_without(notes, notes[i].id) == notes.remove(i),
    decreases notes.len(),
{
    reveal(Seq::filter);
    let id = notes[i].id;
    let keep = |n: NoteView| n.id != id;
    let front = notes.drop_last();
    if i == notes.len() - 1 {
        assert forall|k: int| 0 <= k < front.len() implies keep(#[trigger] front[k]) by {
            assert(front[k] == notes[k]);
        }
        lemma_filter_all(front, keep);
        assert(notes.remove(i) == front);
    } else {
        assert forall|a: int, b: int| 0 <= a < b < front.len() implies (#[trigger] front[a]).id != (
        #[trigger] front[b]).id by {
            assert(front[a] == notes[a]);
            assert(front[b] == notes[b]);
        }
        assert(front[i] == notes[i]);
        lemma_without_is_remove(front, i);
        assert(notes[notes.len() - 1].id != notes[i].id);
        assert(notes.remove(i) == front.remove(i).push(notes.last()));
    }
}

/// Where no note has the id, deleting by id changes nothing.
pub proof fn lemma_without_unknown(notes: Seq<NoteView>, id: Seq<char>)
    requires
        !has_note(notes, id),
    ensures
        notes_without(notes, id) == notes,
{
    lemma_index_of_note(notes, id);
    lemma_filter_all(notes, |n: NoteView| n.id != id);
}

/// Deleting a note keeps the law where the note is the last of its scope: the
/// scope stays dense, and every other scope holds the notes that it held.
/// Deleting a note from the middle of a scope leaves a gap.
pub proof fn lemma_delete_keeps_dense(notes: Seq<NoteView>, i: int)
    requires
        0 <= i < notes.len(),
        ids_differ(notes),
        notes[i].position == scope_of(notes, notes[i].folder_id).len() - 1,
    ensures
        ({
            let after = notes_without(notes, notes[i].id);
            &&& is_dense(scope_of(notes, notes[i].folder_id)) ==> is_dense(
                scope_of(after, notes[i].folder_id),
            )
            &&& forall|folder: Option<Seq<char>>|
                folder != notes[i].folder_id ==> #[trigger] scope_of(after, folder) == scope_of(
                    notes,
                    folder,
                )
            &&& all_dense(notes) ==> all_dense(after)
        }),
{
    let after = notes_without(notes, notes[i].id);
    let home = notes[i].folder_id;
    lemma_without_is_remove(notes, i);
    let j = lemma_filter_remove_inside(notes, |n: NoteView| n.folder_id == home, i);
    if is_dense(scope_of(notes, home)) {
        lemma_dense_remove_last(scope_of(notes, home), j);
    }
    assert forall|folder: Option<Seq<char>>| folder != home implies #[trigger] scope_of(
        after,
        folder,
    ) == scope_of(notes, folder) by {
        lemma_filter_remove_outside(notes, |n: NoteView| n.folder_id == folder, i);
    }
    if all_dense(notes) {
        assert forall|folder: Option<Seq<char>>| is_dense(
            #[trigger] scope_of(after, folder),
        ) by {
            assert(is_dense(scope_of(notes, folder)));
        }
    }
}

/// Deleting a note a second time changes nothing more.
pub proof fn lemma_delete_note_twice(notes: Seq<NoteView>, id: Seq<char>)
    ensures
        notes_without(notes_without(notes, id), id) == notes_without(notes, id),
{
    let keep = |n: NoteView| n.id != id;
    lemma_filter_twice(notes, keep, keep);
}

} // verus!
