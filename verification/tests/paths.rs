use messy_notes::model::{Entity, StoreError};
use messy_notes::paths::{record_id, AppState};
use std::path::PathBuf;

fn state() -> AppState {
    AppState { data_dir: PathBuf::from("/home/me/Documents/MessyNotes") }
}

#[test]
fn directories_of_the_store() {
    let s = state();
    assert_eq!(s.notes_dir(), PathBuf::from("/home/me/Documents/MessyNotes").join("notes"));
    assert_eq!(s.attachments_dir(), PathBuf::from("/home/me/Documents/MessyNotes").join("attachments"));
    assert_eq!(s.canvas_dir(), PathBuf::from("/home/me/Documents/MessyNotes").join("canvas"));
}

#[test]
fn files_of_the_store() {
    let s = state();
    assert_eq!(s.graph_file(), PathBuf::from("/home/me/Documents/MessyNotes").join("graph.json"));
    assert_eq!(s.folders_file(), PathBuf::from("/home/me/Documents/MessyNotes").join("folders.json"));
    assert_eq!(
        s.canvas_file("abc"),
        PathBuf::from("/home/me/Documents/MessyNotes").join("canvas").join("abc.json")
    );
    assert_eq!(
        s.note_file("abc"),
        PathBuf::from("/home/me/Documents/MessyNotes").join("notes").join("abc.md")
    );
}

#[test]
fn required_directories() {
    let s = state();
    assert_eq!(s.required_dirs(), vec![s.notes_dir(), s.attachments_dir(), s.canvas_dir()]);
}

#[test]
fn id_of_a_note_record() {
    assert_eq!(record_id(&PathBuf::from("/data/notes/abc-123.md")), Some("abc-123".to_string()));
    assert_eq!(record_id(&PathBuf::from("a.b.md")), Some("a.b".to_string()));
}

#[test]
fn other_files_hold_no_note() {
    assert_eq!(record_id(&PathBuf::from("/data/notes/abc.txt")), None);
    assert_eq!(record_id(&PathBuf::from("/data/notes/abc")), None);
    assert_eq!(record_id(&PathBuf::from("/data/notes/abc.MD")), None);
    assert_eq!(record_id(&PathBuf::from("/data/notes/.md")), None);
    assert_eq!(record_id(&PathBuf::from("")), None);
}

#[test]
fn failures_in_words() {
    assert_eq!(StoreError::NotFound(Entity::Note).describe(), "Note not found");
    assert_eq!(StoreError::NotFound(Entity::Folder).describe(), "Folder not found");
    assert_eq!(StoreError::Malformed("bad header".to_string()).describe(), "bad header");
    assert_eq!(StoreError::IoFailure("disk full".to_string()).describe(), "disk full");
}
