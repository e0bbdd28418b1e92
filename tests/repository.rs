use hyut::repository::{
    create_memo, create_memo_at, list_memos, list_memos_at, load_memo, memo_file_name,
    memo_id_of_file_name, save_memo, save_memo_at,
};
use hyut::{serialize_memo, Memo, MemoMeta, Timestamp};

fn ts(secs: i64) -> Timestamp {
    Timestamp { secs, nanos: 0 }
}

fn file_of(id: &str, created: i64, updated: i64, body: &str) -> (String, String) {
    let m = Memo {
        meta: MemoMeta { id: id.to_string(), created_at: ts(created), updated_at: ts(updated) },
        body: body.to_string(),
    };
    (id.to_string(), serialize_memo(&m))
}

#[test]
fn listing_is_newest_first() {
    let files = vec![
        file_of("t2", 1, 200, "second"),
        file_of("t1", 1, 100, "# first"),
        file_of("t3", 1, 300, "third"),
    ];
    let list = list_memos_at(&files, ts(5));
    let ids: Vec<&str> = list.iter().map(|s| s.id.as_str()).collect();
    assert_eq!(ids, vec!["t3", "t2", "t1"]);
    assert_eq!(list[2].title, "first");
    assert_eq!(list[0].updated_at, ts(300));
}

#[test]
fn listing_skips_unreadable_files() {
    let files = vec![file_of("good", 1, 2, "ok"), ("bad".to_string(), "no header here".to_string())];
    let list = list_memos(&files);
    assert_eq!(list.len(), 1);
    assert_eq!(list[0].id, "good");
    assert_eq!(list[0].title, "ok");
}

#[test]
fn listing_of_nothing_is_empty() {
    assert!(list_memos(&Vec::new()).is_empty());
}

#[test]
fn listing_uses_file_id_for_damaged_header() {
    let files = vec![("stem".to_string(), "---\n[[[\n---\nhello".to_string())];
    let list = list_memos_at(&files, ts(9));
    assert_eq!(list.len(), 1);
    assert_eq!(list[0].id, "stem");
    assert_eq!(list[0].updated_at, ts(9));
}

#[test]
fn save_keeps_identity_of_existing() {
    let (_, text) = file_of("orig", 10, 20, "old body");
    let m = save_memo_at("orig", "new body".to_string(), Some(&text), ts(30));
    assert_eq!(m.meta.id, "orig");
    assert_eq!(m.meta.created_at, ts(10));
    assert_eq!(m.meta.updated_at, ts(30));
    assert_eq!(m.body, "new body");
}

#[test]
fn save_keeps_embedded_id() {
    let (_, text) = file_of("inner", 10, 20, "old");
    let m = save_memo_at("outer", "b".to_string(), Some(&text), ts(30));
    assert_eq!(m.meta.id, "inner");
}

#[test]
fn save_without_file_makes_new_memo() {
    let m = save_memo_at("n", "text".to_string(), None, ts(30));
    assert_eq!(m.meta.id, "n");
    assert_eq!(m.meta.created_at, ts(30));
    assert_eq!(m.meta.updated_at, ts(30));
    assert_eq!(m.body, "text");
}

#[test]
fn save_over_unreadable_file_makes_new_memo() {
    let m = save_memo_at("n", "text".to_string(), Some("garbage"), ts(30));
    assert_eq!(m.meta.id, "n");
    assert_eq!(m.meta.created_at, ts(30));
}

#[test]
fn save_now_advances_update_time() {
    let (_, text) = file_of("orig", 10, 20, "old");
    let m = save_memo("orig", "new".to_string(), Some(&text));
    assert_eq!(m.meta.created_at, ts(10));
    assert!(ts(20).is_before(&m.meta.updated_at));
}

#[test]
fn create_makes_empty_memo() {
    let m = create_memo_at("id1".to_string(), ts(77));
    assert_eq!(m.meta.id, "id1");
    assert_eq!(m.meta.created_at, ts(77));
    assert_eq!(m.meta.updated_at, ts(77));
    assert_eq!(m.body, "");
}

#[test]
fn create_now_gives_fresh_ids() {
    let a = create_memo();
    let b = create_memo();
    assert_eq!(a.meta.id.len(), 36);
    assert_ne!(a.meta.id, b.meta.id);
    assert_eq!(a.meta.created_at, a.meta.updated_at);
    assert!(a.body.is_empty());
}

#[test]
fn load_reports_parse_failure() {
    match load_memo("x", "no header") {
        Err(e) => assert_eq!(e, "Failed to parse memo"),
        Ok(_) => panic!("expected an error"),
    }
    let (_, text) = file_of("x", 1, 2, "body");
    let m = load_memo("x", &text).unwrap();
    assert_eq!(m.body, "body");
    assert_eq!(m.meta.updated_at, ts(2));
}

#[test]
fn file_names() {
    assert_eq!(memo_file_name("abc"), "abc.md");
    assert_eq!(memo_id_of_file_name("abc.md"), Some("abc".to_string()));
    assert_eq!(memo_id_of_file_name("a.b.md"), Some("a.b".to_string()));
    assert_eq!(memo_id_of_file_name(".md"), None);
    assert_eq!(memo_id_of_file_name("abc.txt"), None);
    assert_eq!(memo_id_of_file_name("abcmd"), None);
}

#[test]
fn created_id_is_hyphenated_lowercase_uuid() {
    let id: Vec<char> = create_memo().meta.id.chars().collect();
    assert_eq!(id.len(), 36);
    for (i, c) in id.iter().enumerate() {
        if i == 8 || i == 13 || i == 18 || i == 23 {
            assert_eq!(*c, '-');
        } else {
            assert!(c.is_ascii_digit() || ('a'..='f').contains(c));
        }
    }
    assert_eq!(id[14], '4');
    assert!(['8', '9', 'a', 'b'].contains(&id[19]));
}
