use stayfocused::cli::{completion_candidates, list_hint, wants_hint, CommandHint, TabEventHandler};

#[test]
fn new_hint_completes_its_prefix() {
    let h = CommandHint::new("checkout", "check");
    assert_eq!(h.display, "checkout");
    assert_eq!(h.complete_up_to, 5);
    assert_eq!(h.completion(), Some("check"));
    assert_eq!(h.display(), "checkout");
    assert_eq!(h.replacement(), "checkout");
}

#[test]
fn empty_completion_is_none() {
    let h = CommandHint::new("status", "");
    assert_eq!(h.completion(), None);
}

#[test]
fn suffix_strips_bytes_and_shrinks_completion() {
    let h = CommandHint::new("checkout", "check");
    let s = h.suffix(2);
    assert_eq!(s.display, "eckout");
    assert_eq!(s.complete_up_to, 3);
    let t = h.suffix(7);
    assert_eq!(t.display, "t");
    assert_eq!(t.complete_up_to, 0);
}

#[test]
fn suffix_on_multibyte_text() {
    let h = CommandHint::new("héllo", "hé");
    assert_eq!(h.complete_up_to, 3);
    let s = h.suffix(3);
    assert_eq!(s.display, "llo");
    assert_eq!(s.complete_up_to, 0);
}

#[test]
fn candidates_filter_and_strip() {
    let commands = vec![
        CommandHint::new("commit", ""),
        CommandHint::new("checkout", ""),
        CommandHint::new("cherry-pick", "cherry"),
    ];
    let r = completion_candidates(&commands, "chx", 2);
    let shown: Vec<&str> = r.iter().map(|h| h.display.as_str()).collect();
    assert_eq!(shown, vec!["eckout", "erry-pick"]);
    assert_eq!(r[1].complete_up_to, 4);
    assert_eq!(completion_candidates(&commands, "zz", 2).len(), 0);
    assert_eq!(completion_candidates(&commands, "", 0).len(), 3);
}

#[test]
fn hints_only_at_end_of_nonempty_line() {
    assert!(!wants_hint("", 0));
    assert!(!wants_hint("ab", 1));
    assert!(wants_hint("ab", 2));
    let hints = vec![CommandHint::new("status", ""), CommandHint::new("stash", "st")];
    assert!(list_hint(&hints, "st", 1).is_none());
    let h = list_hint(&hints, "sta", 3).expect("a hint");
    assert_eq!(h.display, "tus");
    assert!(list_hint(&hints, "x", 1).is_none());
}

#[test]
fn tab_after_whitespace_types_a_tab() {
    let t = TabEventHandler;
    assert!(t.inserts_tab("ls ", 3));
    assert!(!t.inserts_tab("ls", 2));
    assert!(!t.inserts_tab("", 0));
    assert!(t.inserts_tab("a\u{3000}b", 4));
    assert!(!t.inserts_tab("a b", 3));
    assert!(t.inserts_tab("a b", 2));
}

#[test]
fn stripped_hint_keeps_completion_on_boundary() {
    let h = CommandHint::new("héé-x", "héé");
    assert_eq!(h.complete_up_to, 5);
    let s = h.suffix(1);
    assert_eq!(s.display, "éé-x");
    assert_eq!(s.complete_up_to, 4);
    assert_eq!(s.completion(), Some("éé"));
}

#[test]
fn candidates_after_multibyte_prefix() {
    let commands = vec![CommandHint::new("café au lait", "café"), CommandHint::new("cafe", "")];
    let r = completion_candidates(&commands, "café", 5);
    assert_eq!(r.len(), 1);
    assert_eq!(r[0].display, " au lait");
    assert_eq!(r[0].complete_up_to, 0);
}

#[test]
fn suffix_twice_equals_suffix_of_sum() {
    let h = CommandHint::new("checkout", "check");
    let twice = h.suffix(2).suffix(3);
    let once = h.suffix(5);
    assert_eq!(twice, once);
    assert_eq!(once.display, "out");
    assert_eq!(once.complete_up_to, 0);
}
