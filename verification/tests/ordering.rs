use messy_notes::model::{Entity, Note, StoreError};
use messy_notes::ordering::{
    clamp_index, find_note, next_position, note_precedes, renumber, reorder_notes, sort_notes,
};

fn note(id: &str, folder: Option<&str>, position: i32, updated_at: &str) -> Note {
    Note {
        id: id.to_string(),
        title: format!("note {}", id),
        raw_text: Some(String::new()),
        content: None,
        updated_at: updated_at.to_string(),
        created_at: "2024-01-01T00:00:00+00:00".to_string(),
        sticky: false,
        ephemeral: true,
        archived: false,
        note_type: "text".to_string(),
        color: "#ffffff".to_string(),
        folder_id: folder.map(|f| f.to_string()),
        position,
    }
}

fn layout(notes: &[Note]) -> Vec<(String, Option<String>, i32)> {
    notes.iter().map(|n| (n.id.clone(), n.folder_id.clone(), n.position)).collect()
}

fn ids(notes: &[Note]) -> Vec<String> {
    notes.iter().map(|n| n.id.clone()).collect()
}

fn row(id: &str, folder: Option<&str>, position: i32) -> (String, Option<String>, i32) {
    (id.to_string(), folder.map(|f| f.to_string()), position)
}

#[test]
fn root_scope_is_listed_first() {
    let a = note("a", None, 9, "t");
    let b = note("b", Some("f"), 0, "t");
    assert!(note_precedes(&a, &b));
    assert!(!note_precedes(&b, &a));
}

#[test]
fn folders_are_listed_in_the_order_of_their_ids() {
    let a = note("a", Some("alpha"), 9, "t");
    let b = note("b", Some("beta"), 0, "t");
    assert!(note_precedes(&a, &b));
    assert!(!note_precedes(&b, &a));
}

#[test]
fn lower_position_is_listed_first() {
    let a = note("a", Some("f"), 1, "2024");
    let b = note("b", Some("f"), 2, "2025");
    assert!(note_precedes(&a, &b));
    assert!(!note_precedes(&b, &a));
}

#[test]
fn later_update_breaks_a_tie() {
    let a = note("a", None, 1, "2024-05-02T00:00:00+00:00");
    let b = note("b", None, 1, "2024-05-01T00:00:00+00:00");
    assert!(note_precedes(&a, &b));
    assert!(!note_precedes(&b, &a));
}

#[test]
fn equal_notes_do_not_precede_each_other() {
    let a = note("a", Some("f"), 1, "t");
    let b = note("b", Some("f"), 1, "t");
    assert!(!note_precedes(&a, &b));
    assert!(!note_precedes(&b, &a));
    assert!(!note_precedes(&a, &a));
}

#[test]
fn listing_groups_scopes_and_orders_by_position() {
    let notes = vec![
        note("f2", Some("f"), 2, "t"),
        note("r1", None, 1, "t"),
        note("g0", Some("g"), 0, "t"),
        note("f0", Some("f"), 0, "t"),
        note("r0", None, 0, "t"),
        note("f1", Some("f"), 1, "t"),
    ];
    let sorted = sort_notes(notes);
    assert_eq!(ids(&sorted), vec!["r0", "r1", "f0", "f1", "f2", "g0"]);
}

#[test]
fn listing_keeps_tied_notes_in_the_order_in_which_they_came() {
    let notes = vec![
        note("x", None, 0, "same"),
        note("y", None, 0, "same"),
        note("z", None, 0, "same"),
        note("new", None, 0, "upper"),
    ];
    let sorted = sort_notes(notes);
    assert_eq!(ids(&sorted), vec!["new", "x", "y", "z"]);
}

#[test]
fn listing_agrees_with_a_stable_sort() {
    let mut notes = Vec::new();
    let folders = [None, Some("b"), Some("a"), Some("ab"), Some("\u{e9}")];
    let mut seed: u32 = 12345;
    for i in 0..60 {
        seed = seed.wrapping_mul(1103515245).wrapping_add(12345);
        let folder = folders[(seed >> 16) as usize % folders.len()];
        let position = ((seed >> 8) % 4) as i32 - 1;
        let updated = format!("2024-01-0{}", (seed >> 4) % 3 + 1);
        notes.push(note(&format!("n{}", i), folder, position, &updated));
    }
    let mut expected: Vec<Note> = notes.clone();
    expected.sort_by(|a, b| {
        a.folder_id
            .cmp(&b.folder_id)
            .then(a.position.cmp(&b.position))
            .then(b.updated_at.cmp(&a.updated_at))
    });
    let sorted = sort_notes(notes);
    assert_eq!(ids(&sorted), ids(&expected));
    assert_eq!(sorted, expected);
}

#[test]
fn listing_of_nothing() {
    assert_eq!(sort_notes(Vec::new()), Vec::<Note>::new());
}

#[test]
fn append_rule_after_three_notes() {
    let notes = vec![
        note("a", Some("f"), 0, "t"),
        note("b", Some("f"), 1, "t"),
        note("c", Some("f"), 2, "t"),
        note("r", None, 7, "t"),
    ];
    assert_eq!(next_position(&notes, &Some("f".to_string())), 3);
}

#[test]
fn append_rule_in_an_empty_scope() {
    let notes = vec![note("a", Some("f"), 0, "t")];
    assert_eq!(next_position(&notes, &None), 0);
    assert_eq!(next_position(&notes, &Some("g".to_string())), 0);
    assert_eq!(next_position(&Vec::new(), &None), 0);
}

#[test]
fn append_rule_follows_the_highest_position() {
    let notes = vec![note("a", None, 5, "t"), note("b", None, 2, "t"), note("c", Some("f"), 9, "t")];
    assert_eq!(next_position(&notes, &None), 6);
    let negative = vec![note("a", None, -5, "t")];
    assert_eq!(next_position(&negative, &None), -4);
}

#[test]
fn find_note_gives_the_first_index() {
    let notes = vec![note("a", None, 0, "t"), note("b", None, 1, "t"), note("b", None, 2, "t")];
    assert_eq!(find_note(&notes, "a"), 0);
    assert_eq!(find_note(&notes, "b"), 1);
    assert_eq!(find_note(&notes, "c"), 3);
}

#[test]
fn clamp_keeps_an_index_inside_the_list() {
    assert_eq!(clamp_index(1000, 2), 2);
    assert_eq!(clamp_index(-5, 2), 0);
    assert_eq!(clamp_index(0, 2), 0);
    assert_eq!(clamp_index(1, 2), 1);
    assert_eq!(clamp_index(2, 2), 2);
    assert_eq!(clamp_index(3, 2), 2);
    assert_eq!(clamp_index(i32::MAX, 0), 0);
    assert_eq!(clamp_index(i32::MIN, 5), 0);
}

#[test]
fn renumber_counts_from_zero() {
    let notes = vec![note("a", None, 7, "t"), note("b", None, 7, "t"), note("c", None, -1, "t")];
    let numbered = renumber(notes);
    assert_eq!(layout(&numbered), vec![row("a", None, 0), row("b", None, 1), row("c", None, 2)]);
    assert_eq!(numbered[0].title, "note a");
}

#[test]
fn move_far_behind_the_scope_goes_to_its_end() {
    let notes = vec![
        note("x", Some("t"), 0, "t"),
        note("y", Some("t"), 1, "t"),
        note("n", None, 0, "t"),
    ];
    let moved = reorder_notes(notes, "n", Some("t".to_string()), 1000).unwrap();
    assert_eq!(
        layout(&moved.target),
        vec![row("x", Some("t"), 0), row("y", Some("t"), 1), row("n", Some("t"), 2)]
    );
}

#[test]
fn move_in_front_of_the_scope_goes_to_its_start() {
    let notes = vec![
        note("x", Some("t"), 0, "t"),
        note("y", Some("t"), 1, "t"),
        note("n", None, 0, "t"),
    ];
    let moved = reorder_notes(notes, "n", Some("t".to_string()), -5).unwrap();
    assert_eq!(
        layout(&moved.target),
        vec![row("n", Some("t"), 0), row("x", Some("t"), 1), row("y", Some("t"), 2)]
    );
}

#[test]
fn move_across_scopes_renumbers_both() {
    let notes = vec![
        note("A", Some("src"), 0, "t"),
        note("B", Some("src"), 1, "t"),
        note("C", Some("src"), 2, "t"),
        note("X", Some("dst"), 0, "t"),
    ];
    let moved = reorder_notes(notes, "B", Some("dst".to_string()), 0).unwrap();
    assert_eq!(layout(&moved.target), vec![row("B", Some("dst"), 0), row("X", Some("dst"), 1)]);
    assert_eq!(layout(&moved.source), vec![row("A", Some("src"), 0), row("C", Some("src"), 1)]);
}

#[test]
fn move_inside_a_scope_writes_that_scope_only() {
    let notes = vec![
        note("a", None, 0, "t"),
        note("b", None, 1, "t"),
        note("c", None, 2, "t"),
        note("other", Some("f"), 4, "t"),
    ];
    let moved = reorder_notes(notes, "a", None, 2).unwrap();
    assert_eq!(layout(&moved.target), vec![row("b", None, 0), row("c", None, 1), row("a", None, 2)]);
    assert!(moved.source.is_empty());
}

#[test]
fn move_to_the_root_scope() {
    let notes = vec![
        note("r", None, 0, "t"),
        note("a", Some("f"), 0, "t"),
        note("b", Some("f"), 1, "t"),
    ];
    let moved = reorder_notes(notes, "a", None, 1).unwrap();
    assert_eq!(layout(&moved.target), vec![row("r", None, 0), row("a", None, 1)]);
    assert_eq!(layout(&moved.source), vec![row("b", Some("f"), 0)]);
}

#[test]
fn move_orders_the_scope_by_position_whatever_the_order_of_the_list() {
    let notes = vec![
        note("c", Some("f"), 2, "t"),
        note("n", None, 0, "t"),
        note("a", Some("f"), 0, "t"),
        note("b", Some("f"), 1, "t"),
    ];
    let moved = reorder_notes(notes, "n", Some("f".to_string()), 1).unwrap();
    assert_eq!(
        layout(&moved.target),
        vec![row("a", Some("f"), 0), row("n", Some("f"), 1), row("b", Some("f"), 2), row("c", Some("f"), 3)]
    );
    assert!(moved.source.is_empty());
}

#[test]
fn move_closes_gaps_and_doubles() {
    let notes = vec![
        note("a", Some("f"), 3, "2024-01-02"),
        note("b", Some("f"), 3, "2024-01-05"),
        note("c", Some("f"), 10, "2024-01-01"),
        note("n", Some("g"), 4, "t"),
        note("m", Some("g"), 9, "t"),
    ];
    let moved = reorder_notes(notes, "n", Some("f".to_string()), 3).unwrap();
    assert_eq!(
        layout(&moved.target),
        vec![row("b", Some("f"), 0), row("a", Some("f"), 1), row("c", Some("f"), 2), row("n", Some("f"), 3)]
    );
    assert_eq!(layout(&moved.source), vec![row("m", Some("g"), 0)]);
}

#[test]
fn move_keeps_the_other_fields_of_the_notes() {
    let mut n = note("n", None, 0, "u-n");
    n.title = "moved".to_string();
    n.sticky = true;
    let notes = vec![n, note("x", Some("t"), 0, "u-x")];
    let moved = reorder_notes(notes, "n", Some("t".to_string()), 0).unwrap();
    assert_eq!(moved.target[0].title, "moved");
    assert!(moved.target[0].sticky);
    assert_eq!(moved.target[0].updated_at, "u-n");
    assert_eq!(moved.target[1].updated_at, "u-x");
}

#[test]
fn move_into_an_empty_scope() {
    let notes = vec![note("n", None, 5, "t")];
    let moved = reorder_notes(notes, "n", Some("fresh".to_string()), 3).unwrap();
    assert_eq!(layout(&moved.target), vec![row("n", Some("fresh"), 0)]);
    assert!(moved.source.is_empty());
}

#[test]
fn move_of_an_unknown_note_fails() {
    let notes = vec![note("a", None, 0, "t")];
    assert_eq!(
        reorder_notes(notes, "zzz", None, 0),
        Err(StoreError::NotFound(Entity::Note))
    );
    assert_eq!(
        reorder_notes(Vec::new(), "a", None, 0),
        Err(StoreError::NotFound(Entity::Note))
    );
}

#[test]
fn positions_stay_dense_over_a_run_of_moves() {
    let mut store = vec![
        note("a", None, 0, "t"),
        note("b", None, 1, "t"),
        note("c", Some("f"), 0, "t"),
        note("d", Some("f"), 1, "t"),
        note("e", Some("g"), 0, "t"),
    ];
    let moves: [(&str, Option<&str>, i32); 6] = [
        ("a", Some("f"), 1),
        ("e", None, 0),
        ("c", Some("g"), 7),
        ("b", None, -1),
        ("d", Some("f"), 0),
        ("a", None, 1),
    ];
    for (id, target, position) in moves {
        let written = reorder_notes(store.clone(), id, target.map(|t| t.to_string()), position)
            .unwrap();
        for w in written.target.into_iter().chain(written.source.into_iter()) {
            let at = store.iter().position(|n| n.id == w.id).unwrap();
            store[at] = w;
        }
        for scope in [None, Some("f"), Some("g")] {
            let mut positions: Vec<i32> = store
                .iter()
                .filter(|n| n.folder_id.as_deref() == scope)
                .map(|n| n.position)
                .collect();
            positions.sort();
            let expected: Vec<i32> = (0..positions.len() as i32).collect();
            assert_eq!(positions, expected, "scope {:?} after moving {}", scope, id);
        }
    }
}
