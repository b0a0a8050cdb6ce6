use ramon_templates::text::{join, repeat};

fn strings(parts: &[&str]) -> Vec<String> {
    parts.iter().map(|p| p.to_string()).collect()
}

#[test]
fn join_puts_the_separator_between_neighbours_only() {
    assert_eq!(join(&strings(&["1,2", "3,4"]), " "), "1,2 3,4");
    assert_eq!(join(&strings(&["1", "2", "3", "4"]), ", "), "1, 2, 3, 4");
    assert_eq!(join(&strings(&["only"]), "--"), "only");
}

#[test]
fn join_of_nothing_is_empty() {
    assert_eq!(join(&Vec::new(), ", "), "");
    assert_eq!(join(&Vec::new(), ""), "");
}

#[test]
fn join_with_empty_separator_concatenates() {
    assert_eq!(join(&strings(&["a = ", "4"]), ""), "a = 4");
    assert_eq!(join(&strings(&["", "x", ""]), "|"), "|x|");
}

#[test]
fn repeat_counts() {
    assert_eq!(repeat("ab", 3), "ababab");
    assert_eq!(repeat("ab", 0), "");
    assert_eq!(repeat("", 5), "");
    assert_eq!(repeat("é", 2), "éé");
}
