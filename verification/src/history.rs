//! The law of positions over the life of a store: whatever notes are created,
//! moved and deleted, one after the other, every scope stays dense, as long as
//! only the last note of a scope is deleted.

use vstd::prelude::*;
use vstd::multiset::Multiset;
use crate::dense::{
    all_dense, ids_differ, lemma_create_keeps_dense, lemma_empty_store_is_dense, lemma_delete_keeps_dense,
    lemma_move_keeps_dense, lemma_without_is_remove, lemma_without_unknown, notes_after_move,
    untouched_by_move,
};
use crate::model::NoteView;
use crate::notes::notes_without;
use crate::ordering::{
    append_position, clamped_index, has_note, index_of_note, insertion_point, left_behind,
    lemma_index_of_note, lemma_insertion_point_bounds, lemma_presentation_order_len, moved_note,
    presentation_order, remaining_notes, renumbered, scope_of, source_after_move,
    target_after_move,
};
use crate::seqs::{lemma_filter_same, lemma_filter_twice};

verus! {

/// The ids of the notes, each as often as a note has it.
pub open spec fn id_bag(notes: Seq<NoteView>) -> Multiset<Seq<char>> {
    notes.map_values(|n: NoteView| n.id).to_multiset()
}

/// No notes, no ids.
pub proof fn lemma_bag_empty()
    ensures
        id_bag(Seq::<NoteView>::empty()) == Multiset::<Seq<char>>::empty(),
{
    broadcast use vstd::seq_lib::group_to_multiset_ensures;
    broadcast use vstd::multiset::group_multiset_axioms;

    let ids = Seq::<NoteView>::empty().map_values(|n: NoteView| n.id);
    assert forall|x: Seq<char>| ids.to_multiset().count(x) == 0 by {
        assert(!ids.contains(x));
    }
    assert(ids.to_multiset() =~= Multiset::<Seq<char>>::empty());
}

/// A note more in the list is its id more in the bag.
pub proof fn lemma_bag_push(notes: Seq<NoteView>, x: NoteView)
    ensures
        id_bag(notes.push(x)) == id_bag(notes).insert(x.id),
{
    broadcast use vstd::seq_lib::group_to_multiset_ensures;

    let ids = notes.map_values(|n: NoteView| n.id);
    assert(notes.push(x).map_values(|n: NoteView| n.id) == ids.push(x.id));
}

/// The bag of two lists in a row is the sum of their bags.
pub proof fn lemma_bag_add(a: Seq<NoteView>, b: Seq<NoteView>)
    ensures
        id_bag(a + b) == id_bag(a).add(id_bag(b)),
{
    let f = |n: NoteView| n.id;
    assert((a + b).map_values(f) == a.map_values(f) + b.map_values(f));
    vstd::seq_lib::lemma_multiset_commutative(a.map_values(f), b.map_values(f));
}

/// A note put into the list is its id more in the bag.
pub proof fn lemma_bag_insert(notes: Seq<NoteView>, at: int, x: NoteView)
    requires
        0 <= at <= notes.len(),
    ensures
        id_bag(notes.insert(at, x)) == id_bag(notes).insert(x.id),
{
    broadcast use vstd::seq_lib::group_to_multiset_ensures;

    let f = |n: NoteView| n.id;
    assert(notes.insert(at, x).map_values(f) == notes.map_values(f).insert(at, x.id));
}

/// A note taken out of the list is its id less in the bag.
pub proof fn lemma_bag_remove(notes: Seq<NoteView>, at: int)
    requires
        0 <= at < notes.len(),
    ensures
        id_bag(notes) == id_bag(notes.remove(at)).insert(notes[at].id),
{
    broadcast use vstd::seq_lib::group_to_multiset_ensures;

    let f = |n: NoteView| n.id;
    assert(notes.remove(at).map_values(f) == notes.map_values(f).remove(at));
    assert(notes.map_values(f)[at] == notes[at].id);
    assert(notes.map_values(f).to_multiset().count(notes[at].id) > 0);
    assert(id_bag(notes) =~= id_bag(notes.remove(at)).insert(notes[at].id));
}

/// A filter and its opposite share the bag of a list between them.
pub proof fn lemma_bag_split(notes: Seq<NoteView>, pred: spec_fn(NoteView) -> bool)
    ensures
        id_bag(notes) == id_bag(notes.filter(pred)).add(
            id_bag(notes.filter(|n: NoteView| !pred(n))),
        ),
    decreases notes.len(),
{
    reveal(Seq::filter);
    let other = |n: NoteView| !pred(n);
    broadcast use vstd::multiset::group_multiset_axioms;

    if notes.len() == 0 {
        lemma_bag_empty();
        assert(notes =~= Seq::<NoteView>::empty());
        assert(notes.filter(pred) =~= Seq::<NoteView>::empty());
        assert(notes.filter(other) =~= Seq::<NoteView>::empty());
        assert(id_bag(notes) =~= id_bag(notes.filter(pred)).add(id_bag(notes.filter(other))));
    } else {
        let front = notes.drop_last();
        let x = notes.last();
        lemma_bag_split(front, pred);
        assert(notes == front.push(x));
        lemma_bag_push(front, x);
        front.lemma_filter_push(x, pred);
        front.lemma_filter_push(x, other);
        if pred(x) {
            lemma_bag_push(front.filter(pred), x);
        } else {
            lemma_bag_push(front.filter(other), x);
        }
        assert(id_bag(notes) =~= id_bag(notes.filter(pred)).add(id_bag(notes.filter(other))));
    }
}

/// A listing has the bag of the notes that it was made of.
pub proof fn lemma_bag_presentation_order(notes: Seq<NoteView>)
    ensures
        id_bag(presentation_order(notes)) == id_bag(notes),
    decreases notes.len(),
{
    if notes.len() > 0 {
        let rest = presentation_order(notes.drop_last());
        lemma_bag_presentation_order(notes.drop_last());
        lemma_insertion_point_bounds(rest, notes.last());
        lemma_bag_insert(rest, insertion_point(rest, notes.last()), notes.last());
        assert(notes == notes.drop_last().push(notes.last()));
        lemma_bag_push(notes.drop_last(), notes.last());
    }
}

/// Numbering notes anew keeps their bag.
pub proof fn lemma_bag_renumbered(notes: Seq<NoteView>)
    ensures
        id_bag(renumbered(notes)) == id_bag(notes),
{
    let f = |n: NoteView| n.id;
    assert(renumbered(notes).map_values(f) =~= notes.map_values(f));
}

/// The ids of a list differ exactly where no id lies twice in its bag.
pub proof fn lemma_ids_differ_bag(notes: Seq<NoteView>)
    ensures
        ids_differ(notes) <==> forall|id: Seq<char>| id_bag(notes).count(id) <= 1,
{
    broadcast use vstd::multiset::group_multiset_axioms;

    let ids = notes.map_values(|n: NoteView| n.id);
    if ids_differ(notes) {
        assert(ids.no_duplicates()) by {
            assert forall|i: int, j: int|
                0 <= i < ids.len() && 0 <= j < ids.len() && i != j implies ids[i] != ids[j] by {
                if i < j {
                    assert(notes[i].id != notes[j].id);
                } else {
                    assert(notes[j].id != notes[i].id);
                }
            }
        }
        ids.lemma_multiset_has_no_duplicates();
        assert forall|id: Seq<char>| id_bag(notes).count(id) <= 1 by {
            if id_bag(notes).count(id) > 0 {
                assert(ids.to_multiset().contains(id));
            }
        }
    }
    if forall|id: Seq<char>| id_bag(notes).count(id) <= 1 {
        assert forall|x: Seq<char>| ids.to_multiset().contains(x) implies ids.to_multiset().count(
            x,
        ) == 1 by {
            assert(id_bag(notes).count(x) <= 1);
        }
        ids.lemma_multiset_has_no_duplicates_conv();
        assert forall|i: int, j: int| 0 <= i < j < notes.len() implies (#[trigger] notes[i]).id != (
        #[trigger] notes[j]).id by {
            assert(ids[i] == notes[i].id);
            assert(ids[j] == notes[j].id);
        }
    }
}

/// A move keeps the ids of the store: where no two notes share an id before,
/// the store holds the same ids afterwards, each once.
pub proof fn lemma_move_keeps_ids(
    notes: Seq<NoteView>,
    id: Seq<char>,
    target: Option<Seq<char>>,
    position: int,
)
    requires
        ids_differ(notes),
        has_note(notes, id),
    ensures
        id_bag(notes_after_move(notes, id, target, position)) == id_bag(notes),
        ids_differ(notes_after_move(notes, id, target, position)),
{
    broadcast use vstd::multiset::group_multiset_axioms;

    lemma_index_of_note(notes, id);
    let at = index_of_note(notes, id);
    let from = notes[at].folder_id;
    let rest = remaining_notes(notes, id);
    let untouched = untouched_by_move(notes, id, target);
    let entered = target_after_move(notes, id, target, position);
    let left = source_after_move(notes, id, target);
    let after = notes_after_move(notes, id, target, position);

    // No other note has the id of the moved one.
    assert forall|i: int| 0 <= i < rest.len() implies (#[trigger] rest[i]).id != id by {
        if i < at {
            assert(rest[i] == notes[i]);
            assert(notes[i].id != notes[at].id);
        } else {
            assert(rest[i] == notes[i + 1]);
            assert(notes[at].id != notes[i + 1].id);
        }
    }
    lemma_bag_remove(notes, at);

    // The target list holds the target scope and the moved note.
    let in_target = |n: NoteView| n.folder_id == target;
    let not_target = |n: NoteView| !in_target(n);
    let base = scope_of(rest, target);
    let ordered = presentation_order(base);
    lemma_presentation_order_len(base);
    lemma_bag_presentation_order(base);
    let c = clamped_index(position, ordered.len() as int);
    lemma_bag_insert(ordered, c, moved_note(notes, id, target));
    lemma_bag_renumbered(ordered.insert(c, moved_note(notes, id, target)));
    assert(id_bag(entered) == id_bag(base).insert(id));

    // The other two lists hold the rest of the notes.
    lemma_bag_split(rest, in_target);
    let outside = rest.filter(not_target);
    let elsewhere = |n: NoteView| n.folder_id != target && n.folder_id != from;
    if from == target {
        lemma_filter_same(rest, elsewhere, not_target);
        assert(left == Seq::<NoteView>::empty());
        lemma_bag_empty();
    } else {
        let in_source = |n: NoteView| n.folder_id == from;
        let not_source = |n: NoteView| !in_source(n);
        let stays = |n: NoteView| n.folder_id == from && n.id != id;
        lemma_bag_split(outside, in_source);
        lemma_filter_twice(rest, not_target, in_source);
        lemma_filter_same(rest, in_source, stays);
        assert(outside.filter(in_source) == left_behind(rest, from, id));
        assert forall|x: NoteView| #[trigger] elsewhere(x) implies not_target(x) by {}
        lemma_filter_twice(rest, not_target, elsewhere);
        assert forall|i: int| 0 <= i < outside.len() implies not_source(#[trigger] outside[i])
            == elsewhere(outside[i]) by {
            rest.lemma_filter_pred(not_target, i);
        }
        lemma_filter_same(outside, not_source, elsewhere);
        assert(outside.filter(not_source) == untouched);
        let stayed = left_behind(rest, from, id);
        lemma_bag_presentation_order(stayed);
        lemma_bag_renumbered(presentation_order(stayed));
    }
    lemma_bag_add(untouched + entered, left);
    lemma_bag_add(untouched, entered);
    assert(id_bag(after) =~= id_bag(notes));
    lemma_ids_differ_bag(notes);
    lemma_ids_differ_bag(after);
}

/// One change of the store.
pub enum Step {
    /// A note is created.
    Create { note: NoteView },
    /// The note `id` is moved into the scope `target`, to `position`.
    Move { id: Seq<char>, target: Option<Seq<char>>, position: int },
    /// The note `id` is deleted.
    Delete { id: Seq<char> },
}

/// Whether the store can take the step: a created note has an id of its own
/// and the position that follows the highest of its scope; a moved note is in
/// the store; a deleted note, where it is in the store, is the last of its
/// scope.
pub open spec fn may_take(notes: Seq<NoteView>, step: Step) -> bool {
    match step {
        Step::Create { note } => !has_note(notes, note.id) && note.position == append_position(
            notes,
            note.folder_id,
        ),
        Step::Move { id, target, position } => has_note(notes, id),
        Step::Delete { id } => has_note(notes, id) ==> {
            let note = notes[index_of_note(notes, id)];
            note.position == scope_of(notes, note.folder_id).len() - 1
        },
    }
}

/// The notes of the store after a step.
pub open spec fn after_step(notes: Seq<NoteView>, step: Step) -> Seq<NoteView> {
    match step {
        Step::Create { note } => notes.push(note),
        Step::Move { id, target, position } => notes_after_move(notes, id, target, position),
        Step::Delete { id } => notes_without(notes, id),
    }
}

/// Whether the store can take the steps one after the other.
pub open spec fn may_take_all(notes: Seq<NoteView>, steps: Seq<Step>) -> bool
    decreases steps.len(),
{
    steps.len() > 0 ==> may_take(notes, steps[0]) && may_take_all(
        after_step(notes, steps[0]),
        steps.drop_first(),
    )
}

/// The notes of the store after the steps, taken one after the other.
pub open spec fn after_steps(notes: Seq<NoteView>, steps: Seq<Step>) -> Seq<NoteView>
    decreases steps.len(),
{
    if steps.len() == 0 {
        notes
    } else {
        after_steps(after_step(notes, steps[0]), steps.drop_first())
    }
}

/// Whether the store is in order: no two notes share an id, and every scope is
/// dense.
pub open spec fn well_kept(notes: Seq<NoteView>) -> bool {
    ids_differ(notes) && all_dense(notes)
}

/// A step that the store can take leaves it in order.
pub proof fn lemma_step_keeps_order(notes: Seq<NoteView>, step: Step)
    requires
        well_kept(notes),
        may_take(notes, step),
    ensures
        well_kept(after_step(notes, step)),
{
    lemma_index_of_note(notes, step_id(step));
    match step {
        Step::Create { note } => {
            lemma_create_keeps_dense(notes, note);
            let grown = notes.push(note);
            assert forall|i: int, j: int| 0 <= i < j < grown.len() implies (
            #[trigger] grown[i]).id != (#[trigger] grown[j]).id by {
                assert(grown[i] == notes[i]);
                if j < notes.len() {
                    assert(grown[j] == notes[j]);
                }
            }
        },
        Step::Move { id, target, position } => {
            lemma_move_keeps_dense(notes, id, target, position);
            lemma_move_keeps_ids(notes, id, target, position);
        },
        Step::Delete { id } => {
            if has_note(notes, id) {
                let at = index_of_note(notes, id);
                lemma_delete_keeps_dense(notes, at);
                lemma_without_is_remove(notes, at);
                let rest = notes.remove(at);
                assert forall|i: int, j: int| 0 <= i < j < rest.len() implies (
                #[trigger] rest[i]).id != (#[trigger] rest[j]).id by {
                    let a = if i < at { i } else { i + 1 };
                    let b = if j < at { j } else { j + 1 };
                    assert(rest[i] == notes[a]);
                    assert(rest[j] == notes[b]);
                }
            } else {
                lemma_without_unknown(notes, id);
            }
        },
    }
}

/// The id that a step is about.
pub open spec fn step_id(step: Step) -> Seq<char> {
    match step {
        Step::Create { note } => note.id,
        Step::Move { id, target, position } => id,
        Step::Delete { id } => id,
    }
}

/// The law of positions: a store in order stays in order over any run of
/// steps that it can take. In particular the positions of every scope are 0,
/// 1, 2, ... without a gap and without a number used twice after the run.
pub proof fn lemma_history_keeps_order(notes: Seq<NoteView>, steps: Seq<Step>)
    requires
        well_kept(notes),
        may_take_all(notes, steps),
    ensures
        well_kept(after_steps(notes, steps)),
    decreases steps.len(),
{
    if steps.len() > 0 {
        lemma_step_keeps_order(notes, steps[0]);
        lemma_history_keeps_order(after_step(notes, steps[0]), steps.drop_first());
    }
}

/// A store that starts without notes is in order after any run of steps that
/// it can take.
pub proof fn lemma_history_from_nothing(steps: Seq<Step>)
    requires
        may_take_all(Seq::<NoteView>::empty(), steps),
    ensures
        well_kept(after_steps(Seq::<NoteView>::empty(), steps)),
{
    lemma_empty_store_is_dense();
    lemma_history_keeps_order(Seq::<NoteView>::empty(), steps);
}

} // verus!
