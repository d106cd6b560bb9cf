use messy_notes::folders::{
    change_folder, create_folder, delete_folder, find_folder, new_folder, remove_folder,
    update_folder, FolderUpdate,
};
use messy_notes::model::{Entity, Folder, Note, StoreError};

fn folder(id: &str, parent: Option<&str>) -> Folder {
    Folder {
        id: id.to_string(),
        name: format!("folder {}", id),
        parent_id: parent.map(|p| p.to_string()),
        created_at: "c".to_string(),
        updated_at: "u".to_string(),
        expanded: false,
    }
}

fn note(id: &str, folder: Option<&str>, position: i32) -> Note {
    Note {
        id: id.to_string(),
        title: "t".to_string(),
        raw_text: Some("text".to_string()),
        content: None,
        updated_at: "u".to_string(),
        created_at: "c".to_string(),
        sticky: false,
        ephemeral: true,
        archived: false,
        note_type: "text".to_string(),
        color: "#ffffff".to_string(),
        folder_id: folder.map(|f| f.to_string()),
        position,
    }
}

fn nothing() -> FolderUpdate {
    FolderUpdate { name: None, parent_id: None, expanded: None }
}

#[test]
fn new_folder_is_open_and_has_both_times() {
    let made = new_folder("Work".to_string(), Some("p".to_string()), "id".to_string(), "NOW".to_string());
    assert_eq!(
        made,
        Folder {
            id: "id".to_string(),
            name: "Work".to_string(),
            parent_id: Some("p".to_string()),
            created_at: "NOW".to_string(),
            updated_at: "NOW".to_string(),
            expanded: true,
        }
    );
}

#[test]
fn created_folder_joins_the_end_of_the_list() {
    let (made, list) = create_folder("Work".to_string(), None, vec![folder("a", None)]);
    assert_eq!(list.len(), 2);
    assert_eq!(list[0], folder("a", None));
    assert_eq!(list[1], made);
    assert_eq!(made.name, "Work");
    assert_eq!(made.parent_id, None);
    assert!(made.expanded);
    assert!(uuid::Uuid::parse_str(&made.id).is_ok());
    assert_eq!(made.created_at, made.updated_at);
    assert!(chrono::DateTime::parse_from_rfc3339(&made.created_at).is_ok());
}

#[test]
fn find_folder_gives_the_first_index() {
    let list = vec![folder("a", None), folder("b", None)];
    assert_eq!(find_folder(&list, "b"), 1);
    assert_eq!(find_folder(&list, "x"), 2);
}

#[test]
fn change_replaces_the_fields_that_it_gives() {
    let list = vec![folder("a", None), folder("b", Some("a")), folder("c", None)];
    let update = FolderUpdate {
        name: Some("renamed".to_string()),
        parent_id: Some("c".to_string()),
        expanded: Some(true),
    };
    let (changed, after) = change_folder(list, "b", update, "LATER".to_string()).unwrap();
    assert_eq!(
        changed,
        Folder {
            id: "b".to_string(),
            name: "renamed".to_string(),
            parent_id: Some("c".to_string()),
            created_at: "c".to_string(),
            updated_at: "LATER".to_string(),
            expanded: true,
        }
    );
    assert_eq!(after, vec![folder("a", None), changed, folder("c", None)]);
}

#[test]
fn change_without_fields_only_sets_the_time() {
    let (changed, after) =
        change_folder(vec![folder("b", Some("a"))], "b", nothing(), "LATER".to_string()).unwrap();
    let mut expected = folder("b", Some("a"));
    expected.updated_at = "LATER".to_string();
    assert_eq!(changed, expected);
    assert_eq!(after, vec![expected]);
}

#[test]
fn change_of_an_unknown_folder_fails() {
    assert_eq!(
        change_folder(vec![folder("a", None)], "x", nothing(), "LATER".to_string()),
        Err(StoreError::NotFound(Entity::Folder))
    );
    assert_eq!(
        update_folder(Vec::new(), "x", nothing()),
        Err(StoreError::NotFound(Entity::Folder))
    );
}

#[test]
fn update_by_the_clock() {
    let mut update = nothing();
    update.expanded = Some(true);
    let (changed, after) = update_folder(vec![folder("a", None)], "a", update).unwrap();
    assert!(changed.expanded);
    assert_eq!(changed.created_at, "c");
    assert!(chrono::DateTime::parse_from_rfc3339(&changed.updated_at).is_ok());
    assert_eq!(after, vec![changed]);
}

#[test]
fn deleting_a_folder_moves_children_up_and_notes_out() {
    let folders = vec![folder("P", None), folder("F", Some("P")), folder("G", Some("F")), folder("H", None)];
    let notes = vec![note("n", Some("F"), 3), note("m", Some("G"), 0), note("r", None, 0)];
    let out = remove_folder(folders, notes, "F", "NOW");
    assert_eq!(out.folders, vec![folder("P", None), folder("G", Some("P")), folder("H", None)]);
    let mut evicted = note("n", None, 3);
    evicted.updated_at = "NOW".to_string();
    assert_eq!(out.evicted, vec![evicted]);
}

#[test]
fn deleting_a_root_folder_puts_its_children_at_the_root() {
    let folders = vec![folder("F", None), folder("G", Some("F"))];
    let out = remove_folder(folders, Vec::new(), "F", "NOW");
    assert_eq!(out.folders, vec![folder("G", None)]);
    assert!(out.evicted.is_empty());
}

#[test]
fn evicted_notes_keep_their_positions() {
    let notes = vec![note("a", Some("F"), 0), note("b", Some("F"), 1), note("r", None, 0)];
    let out = remove_folder(vec![folder("F", None)], notes, "F", "NOW");
    let seen: Vec<(&str, Option<&str>, i32)> = out
        .evicted
        .iter()
        .map(|n| (n.id.as_str(), n.folder_id.as_deref(), n.position))
        .collect();
    assert_eq!(seen, vec![("a", None, 0), ("b", None, 1)]);
}

#[test]
fn deleting_an_unknown_folder_changes_nothing() {
    let folders = vec![folder("a", None), folder("b", Some("a"))];
    let notes = vec![note("n", Some("a"), 0)];
    let out = remove_folder(folders.clone(), notes, "zzz", "NOW");
    assert_eq!(out.folders, folders);
    assert!(out.evicted.is_empty());
}

#[test]
fn deleting_by_the_clock() {
    let out = delete_folder(vec![folder("F", None)], vec![note("n", Some("F"), 0)], "F");
    assert!(out.folders.is_empty());
    assert_eq!(out.evicted.len(), 1);
    assert_eq!(out.evicted[0].folder_id, None);
    assert!(chrono::DateTime::parse_from_rfc3339(&out.evicted[0].updated_at).is_ok());
}
