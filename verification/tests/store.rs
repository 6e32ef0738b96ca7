use note_store::models::{NewNote, Note, StoreError};
use note_store::store::NoteStore;

#[test]
fn create_then_get_roundtrip() {
    let mut s = NoteStore::new();
    let n = Note::create(Some("A"), Some("b"), &mut s).expect("create");
    assert_eq!(n.title.as_deref(), Some("A"));
    assert_eq!(n.text.as_deref(), Some("b"));
    assert_eq!(n.created_at, n.updated_at);
    let g = Note::get(&n.id, &s).expect("get");
    assert_eq!(g.id, n.id);
    assert_eq!(g.title, n.title);
    assert_eq!(g.text, n.text);
    assert_eq!(g.created_at, n.created_at);
    assert_eq!(g.updated_at, n.updated_at);
}

#[test]
fn create_with_absent_fields() {
    let mut s = NoteStore::new();
    let n = Note::create(None, None, &mut s).expect("create");
    assert_eq!(n.title, None);
    assert_eq!(n.text, None);
    assert_eq!(n.created_at, n.updated_at);
    let g = Note::get(&n.id, &s).expect("get");
    assert_eq!(g.title, None);
    assert_eq!(g.text, None);
}

#[test]
fn create_with_id_succeeds_only_once() {
    let mut s = NoteStore::new();
    let first = Note::create_with_id("fixed-id".to_string(), Some("a"), None, &mut s);
    assert!(first.is_some());
    let second = Note::create_with_id("fixed-id".to_string(), Some("b"), None, &mut s);
    assert!(second.is_none());
    let g = Note::get("fixed-id", &s).expect("get");
    assert_eq!(g.title.as_deref(), Some("a"));
}

#[test]
fn delete_then_get_not_found() {
    let mut s = NoteStore::new();
    let n = Note::create(Some("gone"), None, &mut s).expect("create");
    assert_eq!(Note::delete(&n.id, &mut s), Ok(()));
    assert!(Note::get(&n.id, &s).is_none());
}

#[test]
fn delete_missing_reports_not_found() {
    let mut s = NoteStore::new();
    assert_eq!(Note::delete("no-such-id", &mut s), Err(StoreError::NotFound));
}

#[test]
fn noop_update_keeps_note_and_timestamp() {
    let mut s = NoteStore::new();
    let n = Note::create(Some("t"), Some("x"), &mut s).expect("create");
    let u = Note::update(&n.id, None, None, &mut s).expect("update");
    assert_eq!(u.id, n.id);
    assert_eq!(u.title, n.title);
    assert_eq!(u.text, n.text);
    assert_eq!(u.created_at, n.created_at);
    assert_eq!(u.updated_at, n.updated_at);
    let g = Note::get(&n.id, &s).expect("get");
    assert_eq!(g.updated_at, n.updated_at);
}

#[test]
fn update_refreshes_timestamp() {
    let mut s = NoteStore::new();
    let n = Note::create(Some("t1"), Some("x1"), &mut s).expect("create");
    let u = Note::update(&n.id, Some("t2"), Some("x2"), &mut s).expect("update");
    assert_eq!(u.id, n.id);
    assert_eq!(u.title.as_deref(), Some("t2"));
    assert_eq!(u.text.as_deref(), Some("x2"));
    assert_eq!(u.created_at, n.created_at);
    assert!(u.updated_at > n.updated_at);
}

#[test]
fn update_is_partial_replace_not_merge() {
    let mut s = NoteStore::new();
    let n = Note::create(Some("A"), Some("b"), &mut s).expect("create");
    let u = Note::update(&n.id, None, Some("c"), &mut s).expect("update");
    assert_eq!(u.title, None);
    assert_eq!(u.text.as_deref(), Some("c"));
    let g = Note::get(&n.id, &s).expect("get");
    assert_eq!(g.title, None);
    assert_eq!(g.text.as_deref(), Some("c"));
}

#[test]
fn update_missing_returns_none() {
    let mut s = NoteStore::new();
    assert!(Note::update("no-such-id", Some("t"), Some("x"), &mut s).is_none());
}

#[test]
fn many_creates_yield_distinct_retrievable_ids() {
    let mut s = NoteStore::new();
    let mut ids: Vec<String> = Vec::new();
    for k in 0..20 {
        let title = format!("note {}", k);
        let n = Note::create(Some(&title), None, &mut s).expect("create");
        ids.push(n.id);
    }
    for a in 0..ids.len() {
        for b in (a + 1)..ids.len() {
            assert_ne!(ids[a], ids[b]);
        }
    }
    let all = Note::list(&s);
    assert_eq!(all.len(), 20);
    for id in &ids {
        assert!(Note::get(id, &s).is_some());
        assert!(all.iter().any(|n| &n.id == id));
    }
}

#[test]
fn list_keeps_insertion_order() {
    let mut s = NoteStore::new();
    let a = Note::create(Some("first"), None, &mut s).expect("create");
    let b = Note::create(Some("second"), None, &mut s).expect("create");
    let all = Note::list(&s);
    assert_eq!(all.len(), 2);
    assert_eq!(all[0].id, a.id);
    assert_eq!(all[1].id, b.id);
}

#[test]
fn identifiers_are_hyphenated_uuids() {
    let mut s = NoteStore::new();
    let n = Note::create(None, None, &mut s).expect("create");
    assert_eq!(n.id.len(), 36);
    for (i, c) in n.id.chars().enumerate() {
        if i == 8 || i == 13 || i == 18 || i == 23 {
            assert_eq!(c, '-');
        } else {
            assert!(c.is_ascii_hexdigit() && !c.is_ascii_uppercase());
        }
    }
}

#[test]
fn create_on_fresh_store_always_succeeds() {
    let mut s = NoteStore::new();
    assert!(Note::create(Some("first"), None, &mut s).is_some());
}

#[test]
fn deleted_id_is_never_reassigned() {
    let mut s = NoteStore::new();
    let first = Note::create_with_id("stable-id".to_string(), Some("old"), None, &mut s);
    assert!(first.is_some());
    assert_eq!(Note::delete("stable-id", &mut s), Ok(()));
    let again = Note::create_with_id("stable-id".to_string(), Some("new"), None, &mut s);
    assert!(again.is_none());
    assert!(Note::get("stable-id", &s).is_none());
    assert_eq!(Note::list(&s).len(), 0);
}

#[test]
fn update_then_delete_leaves_note_gone() {
    let mut s = NoteStore::new();
    let n = Note::create(Some("contested"), None, &mut s).expect("create");
    assert!(Note::update(&n.id, Some("late"), None, &mut s).is_some());
    assert_eq!(Note::delete(&n.id, &mut s), Ok(()));
    assert!(Note::get(&n.id, &s).is_none());
}

#[test]
fn delete_then_update_stays_deleted() {
    let mut s = NoteStore::new();
    let n = Note::create(Some("contested"), None, &mut s).expect("create");
    assert_eq!(Note::delete(&n.id, &mut s), Ok(()));
    assert!(Note::update(&n.id, Some("late"), None, &mut s).is_none());
    assert!(Note::get(&n.id, &s).is_none());
    assert_eq!(Note::list(&s).len(), 0);
}

#[test]
fn full_lifecycle_scenario() {
    let mut s = NoteStore::new();
    let n = Note::create(Some("A"), Some("b"), &mut s).expect("create");
    assert_eq!(n.title.as_deref(), Some("A"));
    assert_eq!(n.text.as_deref(), Some("b"));
    let u = Note::update(&n.id, None, Some("c"), &mut s).expect("update");
    assert_eq!(u.id, n.id);
    assert_eq!(u.title, None);
    assert_eq!(u.text.as_deref(), Some("c"));
    assert_eq!(Note::delete(&n.id, &mut s), Ok(()));
    assert!(Note::get(&n.id, &s).is_none());
}

#[test]
fn request_body_drives_create() {
    let body = NewNote { title: "from wire".to_string(), text: "payload".to_string() };
    let copy = body.clone();
    assert_eq!(body, copy);
    let mut s = NoteStore::new();
    let n = Note::create(Some(&body.title), Some(&body.text), &mut s).expect("create");
    assert_eq!(n.title.as_deref(), Some("from wire"));
    assert_eq!(n.text.as_deref(), Some("payload"));
}

#[test]
fn error_kinds_are_distinct() {
    assert_ne!(StoreError::NotFound, StoreError::Unavailable);
    assert_eq!(StoreError::NotFound, StoreError::NotFound);
}
