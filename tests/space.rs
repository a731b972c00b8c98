use space_counter::space::SpaceTable;
use space_counter::text::{count_text, same_text};
use space_counter::ws::is_ping;

#[test]
fn relative_steps_clamp_each_time() {
    let mut t = SpaceTable::new();
    assert_eq!(t.adjust("ABCD", "relative", 2), 2);
    assert_eq!(t.adjust("ABCD", "relative", -5), 0);
    assert_eq!(t.adjust("ABCD", "relative", 3), 3);
    // the sum 2 - 5 + 3 is 0; the per-step fold gives 3
    assert_eq!(t.count_of("ABCD"), 3);
}

#[test]
fn absolute_negative_is_zero() {
    let mut t = SpaceTable::new();
    assert_eq!(t.adjust("ABCD", "absolute", 8), 8);
    assert_eq!(t.adjust("ABCD", "absolute", -3), 0);
    assert_eq!(t.adjust("WXYZ", "absolute", isize::MIN), 0);
}

#[test]
fn unseen_space_starts_at_zero() {
    let mut t = SpaceTable::new();
    assert_eq!(t.count_of("NEWS"), 0);
    assert_eq!(t.adjust("NEWS", "relative", 4), 4);
    assert_eq!(t.adjust("OTHER", "bogus", 4), 0);
    assert_eq!(t.count_of("OTHER"), 0);
    assert_eq!(t.count_of("NEWS"), 4);
}

#[test]
fn relative_saturates_at_max() {
    let mut t = SpaceTable::new();
    t.adjust("ABCD", "absolute", isize::MAX);
    assert_eq!(t.adjust("ABCD", "relative", 10), isize::MAX);
}

#[test]
fn decimal_text() {
    assert_eq!(count_text(0), "0");
    assert_eq!(count_text(7), "7");
    assert_eq!(count_text(120), "120");
    assert_eq!(count_text(isize::MAX), isize::MAX.to_string());
}

#[test]
fn text_comparison_and_pings() {
    assert!(same_text("abc", "abc"));
    assert!(!same_text("abc", "abd"));
    assert!(!same_text("abc", "ab"));
    assert!(is_ping("ping"));
    assert!(is_ping("ping\n"));
    assert!(!is_ping("ping "));
    assert!(!is_ping("pin"));
}
