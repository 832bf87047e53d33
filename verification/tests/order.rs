use irssi_tg::order::{dedup_names, sort_names};

fn v(a: &[&str]) -> Vec<String> {
    a.iter().map(|s| s.to_string()).collect()
}

#[test]
fn sorts_without_regard_to_case() {
    assert_eq!(sort_names(&v(&["bob", "Alice", "Carol", "alan"])), v(&["alan", "Alice", "bob", "Carol"]));
    assert_eq!(sort_names(&v(&[])), v(&[]));
}

#[test]
fn sorting_keeps_the_order_of_equal_names() {
    assert_eq!(sort_names(&v(&["bob", "BOB", "Al", "Bob", "al"])), v(&["Al", "al", "bob", "BOB", "Bob"]));
}

#[test]
fn sorting_knows_letters_beyond_ascii() {
    assert_eq!(sort_names(&v(&["ÄB", "äa", "Z"])), v(&["Z", "äa", "ÄB"]));
}

#[test]
fn removes_repeats_in_a_row_only() {
    assert_eq!(dedup_names(&v(&["a", "a", "b", "a", "a", "a"])), v(&["a", "b", "a"]));
    assert_eq!(dedup_names(&v(&["a"])), v(&["a"]));
    assert_eq!(dedup_names(&v(&[])), v(&[]));
}
