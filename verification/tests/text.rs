use see::text::{
    char_is_space, part, same_text, slice_string, text_begins_with, text_contains, text_ends_with,
    text_occurs_at, to_chars,
};

fn chars(s: &str) -> Vec<char> {
    s.chars().collect()
}

#[test]
fn to_chars_gives_the_characters() {
    assert_eq!(to_chars("a\u{e9}z"), vec!['a', '\u{e9}', 'z']);
    assert_eq!(to_chars(""), Vec::<char>::new());
}

#[test]
fn slice_string_counts_characters() {
    assert_eq!(slice_string("a\u{e9}z!", 1, 3), "\u{e9}z");
    assert_eq!(slice_string("abc", 3, 3), "");
    assert_eq!(slice_string("abc", 0, 3), "abc");
}

#[test]
fn part_of_a_vector() {
    let v = chars("hello");
    assert_eq!(part(&v, 1, 3), &['e', 'l'][..]);
}

#[test]
fn occurrence_at_an_offset() {
    let hay = chars("abcabc");
    assert!(text_occurs_at(&hay, &chars("bc"), 1));
    assert!(text_occurs_at(&hay, &chars("bc"), 4));
    assert!(!text_occurs_at(&hay, &chars("bc"), 5));
    assert!(!text_occurs_at(&hay, &chars("bc"), 0));
    assert!(text_occurs_at(&hay, &chars(""), 6));
    assert!(!text_occurs_at(&hay, &chars(""), 7));
}

#[test]
fn beginning_end_and_inside() {
    let hay = chars("github.com");
    assert!(text_begins_with(&hay, &chars("git")));
    assert!(!text_begins_with(&hay, &chars("hub")));
    assert!(text_ends_with(&hay, &chars(".com")));
    assert!(!text_ends_with(&hay, &chars(".org")));
    assert!(!text_ends_with(&chars("com"), &chars(".com")));
    assert!(text_contains(&hay, &chars("hub.")));
    assert!(text_contains(&hay, &chars("")));
    assert!(text_contains(&hay, &hay));
    assert!(!text_contains(&hay, &chars("gitlab")));
    assert!(!text_contains(&chars(""), &chars("a")));
}

#[test]
fn same_text_compares_all_characters() {
    assert!(same_text("pull", "pull"));
    assert!(!same_text("pull", "pulL"));
    assert!(!same_text("pull", "pul"));
    assert!(!same_text("pul", "pull"));
    assert!(same_text("", ""));
}

#[test]
fn white_space_is_that_of_the_standard_library() {
    let mut n: u32 = 0;
    while n <= 0x3100 {
        if let Some(c) = char::from_u32(n) {
            assert_eq!(char_is_space(c), c.is_whitespace(), "{:x}", n);
        }
        n += 1;
    }
}
