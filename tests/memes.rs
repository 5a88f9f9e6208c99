use memebot::guild::{table_name, RecordKind};
use memebot::memes::{delete_report, meme_id, MemeError, Memes};
use memebot::roles::{toggle_action, RoleChange, Roles};

fn three() -> Memes {
    let mut m = Memes::with_cursor(0);
    assert_eq!(m.add(100, "first".to_string()), Some(1));
    assert_eq!(m.add(200, "Second Meme".to_string()), Some(2));
    assert_eq!(m.add(300, "third".to_string()), Some(3));
    m
}

#[test]
fn deleting_the_tail_lowers_the_cursor() {
    let mut m = three();
    assert_eq!(m.delete_by_id(3), Ok("third".to_string()));
    assert_eq!(m.add(400, "again".to_string()), Some(3));
}

#[test]
fn deleting_an_inner_id_keeps_the_cursor() {
    let mut m = three();
    assert_eq!(m.delete_by_id(2), Ok("Second Meme".to_string()));
    assert_eq!(m.add(400, "next".to_string()), Some(4));
}

#[test]
fn deleting_the_last_resets_to_zero() {
    let mut m = Memes::with_cursor(0);
    assert_eq!(m.add(1, "only".to_string()), Some(1));
    assert_eq!(m.delete_by_id(1), Ok("only".to_string()));
    assert_eq!(m.add(2, "fresh".to_string()), Some(1));
}

#[test]
fn deleting_a_missing_id_changes_nothing() {
    let mut m = three();
    assert_eq!(m.delete_by_id(9), Err(MemeError::NotFound));
    assert_eq!(m.listing(), "1 100 first\n2 200 Second Meme\n3 300 third\n");
    assert_eq!(m.add(5, "four".to_string()), Some(4));
}

#[test]
fn restore_takes_stored_rows() {
    let mut m = Memes::with_cursor(7);
    assert!(m.restore(2, 10, "b".to_string()));
    assert!(!m.restore(2, 11, "dup".to_string()));
    assert!(!m.restore(0, 11, "zero".to_string()));
    assert_eq!(m.add(12, "c".to_string()), Some(8));
    assert_eq!(m.latest(), Some("c".to_string()));
}

#[test]
fn ids_run_out() {
    let mut m = Memes::with_cursor(i32::MAX);
    assert_eq!(m.add(1, "x".to_string()), None);
}

#[test]
fn reading_memes() {
    let m = three();
    assert_eq!(m.get_by_id(2), Some("Second Meme".to_string()));
    assert_eq!(m.get_by_id(4), None);
    assert_eq!(m.latest(), Some("third".to_string()));
    assert_eq!(m.pick(4), Some("Second Meme".to_string()));
    assert_eq!(m.search_text("SECOND", 0), Some("Second Meme".to_string()));
    assert_eq!(m.search_text("ir", 1), Some("third".to_string()));
    assert_eq!(m.search_text("nothing", 1), None);
}

#[test]
fn answering_requests() {
    let m = three();
    assert_eq!(m.respond("", 2), Some("third".to_string()));
    assert_eq!(m.respond("0", 2), Some("third".to_string()));
    assert_eq!(m.respond("1", 2), Some("first".to_string()));
    assert_eq!(m.respond("-4", 2), Some("meme -4 not found".to_string()));
    assert_eq!(m.respond("meme", 0), Some("Second Meme".to_string()));
    assert_eq!(m.respond("cat", 0), Some("meme matching \"cat\" not found".to_string()));
    assert_eq!(Memes::with_cursor(0).respond("", 0), None);
}

#[test]
fn delete_requests() {
    let mut m = three();
    assert_eq!(meme_id("two"), None);
    assert_eq!(meme_id("-2"), Some(-2));
    let id = meme_id("2").unwrap();
    let done = m.delete_by_id(id);
    assert_eq!(delete_report(id, &done), "successfully deleted meme 2: Second Meme");
    let again = m.delete_by_id(id);
    assert_eq!(delete_report(id, &again), "error deleting meme (it probably doesn't exist to begin with)");
    assert_eq!(m.listing(), "1 100 first\n3 300 third\n");
    assert_eq!(m.seq(), 3);
}

#[test]
fn table_names() {
    assert_eq!(table_name(42, RecordKind::Memes), "x42_memes");
    assert_eq!(table_name(0, RecordKind::Perms), "x0_perms");
    assert_eq!(table_name(u64::MAX, RecordKind::Roles), "x18446744073709551615_roles");
}

#[test]
fn toggling_roles() {
    assert_eq!(toggle_action(&vec![1, 2], 2), RoleChange::Remove);
    assert_eq!(toggle_action(&vec![1, 2], 3), RoleChange::Add);
    assert_eq!(toggle_action(&vec![], 3), RoleChange::Add);
}

#[test]
fn self_assignable_roles() {
    let mut r = Roles::new();
    r.add(5, "Gamer".to_string());
    r.add(6, "Artist".to_string());
    r.add(5, "Gamers".to_string());
    assert_eq!(r.listing(), "Available Roles: ```\n5 Gamers\n6 Artist\n```");
    assert_eq!(r.directory().search("art"), vec![(6, "Artist".to_string())]);
    assert!(r.del(5));
    assert!(!r.del(5));
    assert_eq!(r.listing(), "Available Roles: ```\n6 Artist\n```");
}
