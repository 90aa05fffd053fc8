use batch_image_resizer::text::{chars_of, join_strs, split_str, str_eq};
use batch_image_resizer::{CMDS_JOINSIGN, FILES_JOINSIGN};

fn owned(v: &[&str]) -> Vec<String> {
    v.iter().map(|s| s.to_string()).collect()
}

#[test]
fn split_keeps_empty_pieces() {
    let r = split_str("a🀡🀡b🀡🀡", CMDS_JOINSIGN);
    assert_eq!(r, owned(&["a", "b", ""]));
}

#[test]
fn split_without_match_gives_whole() {
    assert_eq!(split_str("plain", CMDS_JOINSIGN), owned(&["plain"]));
    assert_eq!(split_str("", CMDS_JOINSIGN), owned(&[""]));
}

#[test]
fn split_matches_do_not_overlap() {
    assert_eq!(split_str("aaa", "aa"), owned(&["", "a"]));
    assert_eq!(split_str("aaaa", "aa"), owned(&["", "", ""]));
}

#[test]
fn split_agrees_with_std() {
    for (s, p) in [("x.y.z", "."), ("..", "."), ("🀡🀡🀡", "🀡🀡"), ("a🀅🀅b", FILES_JOINSIGN)] {
        let ours = split_str(s, p);
        let theirs: Vec<String> = s.split(p).map(|x| x.to_string()).collect();
        assert_eq!(ours, theirs);
    }
}

#[test]
fn join_puts_separator_between() {
    assert_eq!(join_strs(&owned(&["a", "b", "c"]), "-"), "a-b-c");
    assert_eq!(join_strs(&owned(&["a"]), "-"), "a");
    assert_eq!(join_strs(&Vec::new(), "-"), "");
}

#[test]
fn join_then_split_round_trip() {
    let parts = owned(&["working", "12", "photo.jpg"]);
    let joined = join_strs(&parts, CMDS_JOINSIGN);
    assert_eq!(split_str(&joined, CMDS_JOINSIGN), parts);
}

#[test]
fn split_then_join_round_trip() {
    let s = "a🀡🀡🀡b";
    let pieces = split_str(s, CMDS_JOINSIGN);
    assert_eq!(join_strs(&pieces, CMDS_JOINSIGN), s);
}

#[test]
fn str_eq_compares_characters() {
    assert!(str_eq("resize", "resize"));
    assert!(!str_eq("resize", "resizes"));
    assert!(!str_eq("abc", "abd"));
}

#[test]
fn chars_of_lists_characters() {
    assert_eq!(chars_of("a🀡b"), vec!['a', '🀡', 'b']);
}
