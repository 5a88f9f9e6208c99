use memebot::directory::IdNameMap;

fn letters() -> IdNameMap {
    let mut d = IdNameMap::new();
    for (i, c) in ["a", "b", "c", "d", "e", "f", "g"].iter().enumerate() {
        d.insert(i as u64 + 1, format!("role {}", c));
    }
    d
}

#[test]
fn integer_query_finds_by_id() {
    let d = letters();
    assert_eq!(d.search("3"), vec![(3, "role c".to_string())]);
    assert_eq!(d.search("+3"), vec![(3, "role c".to_string())]);
    assert_eq!(d.search("99"), vec![]);
}

#[test]
fn integer_query_never_matches_names() {
    let mut d = IdNameMap::new();
    d.insert(1, "42".to_string());
    assert_eq!(d.search("42"), vec![]);
}

#[test]
fn name_query_ignores_case() {
    let mut d = IdNameMap::new();
    d.insert(5, "Moderator".to_string());
    d.insert(6, "member".to_string());
    d.insert(7, "Admin".to_string());
    assert_eq!(d.search("MOD"), vec![(5, "Moderator".to_string())]);
    assert_eq!(d.search("m"), vec![(5, "Moderator".to_string()), (6, "member".to_string()), (7, "Admin".to_string())]);
    assert_eq!(d.search("zz"), vec![]);
}

#[test]
fn insert_keeps_last_name() {
    let mut d = IdNameMap::new();
    d.insert(1, "old".to_string());
    d.insert(2, "two".to_string());
    d.insert(1, "new".to_string());
    assert_eq!(d.search("1"), vec![(1, "new".to_string())]);
    assert_eq!(d.search("o"), vec![(2, "two".to_string())]);
}

#[test]
fn lookup_without_match() {
    let d = letters();
    let r = d.lookup("zebra", |_, _| "picked".to_string());
    assert_eq!(r, "no matches for `zebra` found");
}

#[test]
fn lookup_unique_match_calls_back() {
    let d = letters();
    let r = d.lookup("role b", |id, name| format!("{}={}", id, name));
    assert_eq!(r, "2=role b");
}

#[test]
fn lookup_lists_first_five_of_seven() {
    let d = letters();
    let r = d.lookup("role", |_, _| "picked".to_string());
    assert_eq!(
        r,
        "`role` is ambiguous. perhaps you meant one of these:\n```\n1 role a\n2 role b\n3 role c\n4 role d\n5 role e```"
    );
    let block = r.split("```\n").nth(1).unwrap().trim_end_matches("```");
    assert_eq!(block.lines().count(), 5);
}

#[test]
fn lookup_lists_two_matches() {
    let mut d = IdNameMap::new();
    d.insert(10, "Red".to_string());
    d.insert(20, "dark red".to_string());
    let r = d.lookup("RED", |_, _| "picked".to_string());
    assert_eq!(r, "`RED` is ambiguous. perhaps you meant one of these:\n```\n10 Red\n20 dark red```");
}
