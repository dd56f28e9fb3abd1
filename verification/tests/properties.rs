use nfa::{NFAError, NoteManager};
use tempfile::TempDir;

fn open_store() -> (NoteManager, TempDir) {
    let dir = tempfile::tempdir().unwrap();
    let path = dir.path().join("notes.db");
    let manager = NoteManager::new(path.to_str().unwrap()).unwrap();
    (manager, dir)
}

#[test]
fn test_round_trip_preserves_unicode() {
    let (mut manager, _dir) = open_store();

    let title = "Grüße ✓ 日本語";
    let content = "naïve — résumé\n\t☃";
    let created = manager
        .create_note(title.to_string(), content.to_string())
        .unwrap();
    let fetched = manager.get_note(&created.id).unwrap();

    assert_eq!(created, fetched);
    assert_eq!(fetched.title, title);
    assert_eq!(fetched.content, content);
}

#[test]
fn test_round_trip_preserves_empty_fields() {
    let (mut manager, _dir) = open_store();

    let created = manager.create_note(String::new(), String::new()).unwrap();
    let fetched = manager.get_note(&created.id).unwrap();

    assert_eq!(created, fetched);
    assert_eq!(fetched.title, "");
    assert_eq!(fetched.content, "");
}

#[test]
fn test_identifier_is_sixteen_lowercase_hex_chars() {
    let (mut manager, _dir) = open_store();

    let note = manager
        .create_note("a".to_string(), "b".to_string())
        .unwrap();

    assert_eq!(note.id.chars().count(), 16);
    assert!(note
        .id
        .chars()
        .all(|c| c.is_ascii_digit() || ('a'..='f').contains(&c)));
}

#[test]
fn test_fresh_identifiers_differ() {
    let (mut manager, _dir) = open_store();

    let a = manager.create_note("a".to_string(), "1".to_string()).unwrap();
    let b = manager.create_note("b".to_string(), "2".to_string()).unwrap();

    assert_ne!(a.id, b.id);
}

#[test]
fn test_update_title_only_keeps_content() {
    let (mut manager, _dir) = open_store();

    let note = manager
        .create_note("Before".to_string(), "Body".to_string())
        .unwrap();
    let updated = manager
        .update_note(&note.id, Some("After".to_string()), None)
        .unwrap();

    assert_eq!(updated.title, "After");
    assert_eq!(updated.content, "Body");
    assert_eq!(updated.id, note.id);
    assert_eq!(updated.created_at, note.created_at);
}

#[test]
fn test_update_content_only_keeps_title() {
    let (mut manager, _dir) = open_store();

    let note = manager
        .create_note("Kept".to_string(), "Old body".to_string())
        .unwrap();
    let updated = manager
        .update_note(&note.id, None, Some("New body".to_string()))
        .unwrap();

    assert_eq!(updated.title, "Kept");
    assert_eq!(updated.content, "New body");
}

#[test]
fn test_empty_update_still_advances_stamp() {
    let (mut manager, _dir) = open_store();

    let note = manager
        .create_note("Same".to_string(), "Same body".to_string())
        .unwrap();
    let updated = manager.update_note(&note.id, None, None).unwrap();

    assert_eq!(updated.title, "Same");
    assert_eq!(updated.content, "Same body");
    assert!(updated.updated_at > note.updated_at);
    assert_eq!(updated.created_at, note.created_at);
}

#[test]
fn test_stamps_stay_monotonic_across_updates() {
    let (mut manager, _dir) = open_store();

    let note = manager
        .create_note("t".to_string(), "c".to_string())
        .unwrap();
    assert!(note.updated_at >= note.created_at);

    let first = manager.update_note(&note.id, None, None).unwrap();
    let second = manager.update_note(&note.id, None, None).unwrap();

    assert!(first.updated_at >= first.created_at);
    assert!(second.updated_at >= second.created_at);
    assert!(second.updated_at >= first.updated_at);
}

#[test]
fn test_delete_is_idempotent() {
    let (mut manager, _dir) = open_store();

    let note = manager
        .create_note("Gone".to_string(), "Soon".to_string())
        .unwrap();

    assert!(manager.delete_note(&note.id).is_ok());
    assert!(manager.delete_note(&note.id).is_ok());
}

#[test]
fn test_delete_of_absent_id_succeeds() {
    let (mut manager, _dir) = open_store();

    assert!(manager.delete_note("0123456789abcdef").is_ok());
}

#[test]
fn test_get_unknown_id_on_empty_store_is_not_found() {
    let (manager, _dir) = open_store();

    assert!(matches!(
        manager.get_note("0123456789abcdef"),
        Err(NFAError::NoteNotFound)
    ));
}

#[test]
fn test_update_unknown_id_on_empty_store_is_not_found() {
    let (mut manager, _dir) = open_store();

    assert!(matches!(
        manager.update_note("0123456789abcdef", Some("t".to_string()), None),
        Err(NFAError::NoteNotFound)
    ));
}

#[test]
fn test_list_of_empty_store_is_empty() {
    let (manager, _dir) = open_store();

    let notes = manager.list_notes().unwrap();
    assert!(notes.is_empty());
}

#[test]
fn test_list_keeps_creation_order_without_updates() {
    let (mut manager, _dir) = open_store();

    let first = manager
        .create_note("Note 1".to_string(), "Content 1".to_string())
        .unwrap();
    let second = manager
        .create_note("Note 2".to_string(), "Content 2".to_string())
        .unwrap();

    let notes = manager.list_notes().unwrap();

    assert_eq!(notes.len(), 2);
    assert_eq!(notes[0], first);
    assert_eq!(notes[1], second);
}

#[test]
fn test_list_sorts_ascending_by_update_stamp() {
    let (mut manager, _dir) = open_store();

    let a = manager
        .create_note("A".to_string(), "first".to_string())
        .unwrap();
    let b = manager
        .create_note("B".to_string(), "second".to_string())
        .unwrap();
    assert!(a.updated_at < b.updated_at);

    let a_updated = manager.update_note(&a.id, None, None).unwrap();
    assert!(a_updated.updated_at > b.updated_at);

    let notes = manager.list_notes().unwrap();

    assert_eq!(notes.len(), 2);
    assert_eq!(notes[0].title, "B");
    assert_eq!(notes[1].title, "A");
    assert!(notes[0].updated_at <= notes[1].updated_at);
}

#[test]
fn test_open_of_unusable_path_is_database_error() {
    let result = NoteManager::new("/dev/null/not-a-directory");

    assert!(matches!(result, Err(NFAError::DatabaseError(_))));
}

#[test]
fn test_foreign_record_surfaces_as_serialization_error() {
    let dir = tempfile::tempdir().unwrap();
    let path = dir.path().join("notes.db");
    {
        let db = sled::open(&path).unwrap();
        db.insert(b"bad".as_slice(), b"not an encoded note".as_slice())
            .unwrap();
        db.flush().unwrap();
    }

    let manager = NoteManager::new(path.to_str().unwrap()).unwrap();

    assert!(matches!(
        manager.get_note("bad"),
        Err(NFAError::SerializationError)
    ));
    assert!(matches!(
        manager.list_notes(),
        Err(NFAError::SerializationError)
    ));
}
