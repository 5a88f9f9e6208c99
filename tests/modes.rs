use memebot::perms::{Modes, Permissions};

fn set_of(cs: &[char]) -> Modes {
    let mut m = Modes::new();
    for c in cs {
        m.insert(*c);
    }
    m
}

#[test]
fn from_string() {
    let set = set_of(&['a', 'b', 'c', 'd']);
    assert_eq!(set, Modes::from_str("abcd"));
}

#[test]
fn extend() {
    let mut x = set_of(&['a', 'c']);
    let y = set_of(&['b', 'd']);
    let m = set_of(&['a', 'b', 'c', 'd']);
    x.extend(&y);
    assert_eq!(x, m);
}

#[test]
fn check_single_true() {
    let modes = set_of(&['a', 'b', 'c', 'd']);
    assert!(modes.check("a"));
}

#[test]
fn check_single_false() {
    let modes = set_of(&['a', 'b', 'c', 'd']);
    assert!(!modes.check("e"));
}

#[test]
fn check_multiple_true() {
    let modes = set_of(&['a', 'b', 'c', 'd']);
    assert!(modes.check("ad"));
}

#[test]
fn check_multiple_false() {
    let modes = set_of(&['a', 'b', 'c', 'd']);
    assert!(!modes.check("ae"));
}

#[test]
fn duplicates_collapse() {
    let m = Modes::from_str("aabba");
    assert_eq!(m.to_string().len(), 2);
    assert_eq!(m, set_of(&['b', 'a']));
}

#[test]
fn empty_requirement_is_satisfied() {
    assert!(Modes::new().check(""));
    assert!(set_of(&['a']).check(""));
}

#[test]
fn satisfies_examples() {
    let flags = set_of(&['a', 'b', 'c']);
    assert!(flags.check("ac"));
    assert!(!flags.check("ad"));
}

#[test]
fn repeated_required_flag() {
    let flags = set_of(&['a']);
    assert!(flags.check("aa"));
}

#[test]
fn text_round_trip() {
    let m = Modes::from_str("abcd");
    let back = Modes::from_str(&m.to_string());
    assert_eq!(back, m);
    assert_eq!(back, set_of(&['d', 'c', 'b', 'a']));
}

#[test]
fn unequal_sets() {
    assert_ne!(Modes::from_str("ab"), Modes::from_str("abc"));
}

#[test]
fn administrator_passes_without_grants() {
    let perms = Permissions::new();
    assert!(perms.check_member(7, &vec![1, 2], true, "xyz"));
    assert!(!perms.check_member(7, &vec![1, 2], false, "x"));
}

#[test]
fn effective_flags_join_user_and_roles() {
    let mut perms = Permissions::new();
    perms.set(7, "user".to_string(), Modes::from_str("m"));
    perms.set(100, "mods".to_string(), Modes::from_str("p"));
    perms.set(200, "other".to_string(), Modes::from_str("r"));
    assert!(perms.check_member(7, &vec![100], false, "mp"));
    assert!(!perms.check_member(7, &vec![100], false, "mr"));
    assert!(perms.check_member(8, &vec![100, 200], false, "pr"));
    assert!(!perms.check_member(8, &vec![], false, "p"));
    assert!(perms.check_member(8, &vec![], false, ""));
}

#[test]
fn set_replaces_and_del_removes() {
    let mut perms = Permissions::new();
    perms.set(7, "a".to_string(), Modes::from_str("m"));
    perms.set(7, "b".to_string(), Modes::from_str("p"));
    assert!(!perms.check_member(7, &vec![], false, "m"));
    assert!(perms.check_member(7, &vec![], false, "p"));
    assert_eq!(perms.listing(), "```\n7 b p\n```");
    assert!(perms.del(7));
    assert!(!perms.del(7));
    assert_eq!(perms.listing(), "```\n```");
}

#[test]
fn perms_directory_resolves_tags() {
    let mut perms = Permissions::new();
    perms.set(11, "Moderators".to_string(), Modes::from_str("p"));
    perms.set(12, "Members".to_string(), Modes::from_str("m"));
    let d = perms.directory();
    assert_eq!(d.search("mod"), vec![(11, "Moderators".to_string())]);
    assert_eq!(d.search("12"), vec![(12, "Members".to_string())]);
}
