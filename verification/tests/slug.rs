use irclogs::slug::slugify;

#[test]
fn test_slugify_basic() {
    assert_eq!(slugify("Hello World"), "hello-world");
}

#[test]
fn test_slugify_date_prefix() {
    assert_eq!(
        slugify("2025-05-04--irc-bcache---promote-target"),
        "2025-05-04--irc-bcache---promote-target"
    );
}

#[test]
fn test_slugify_special_chars() {
    assert_eq!(slugify("foo/bar: baz!"), "foo-bar--baz");
}

#[test]
fn test_slugify_trim_hyphens() {
    assert_eq!(slugify("---hello---"), "hello");
}

#[test]
fn test_slugify_truncate() {
    let long = "a".repeat(200);
    let slug = slugify(&long);
    assert!(slug.len() <= 120);
}

#[test]
fn test_slugify_truncate_no_trailing_hyphen() {
    // 119 letters, then hyphens: the cap would expose a trailing hyphen
    let mut title = "a".repeat(119);
    title.push_str("----------");
    let slug = slugify(&title);
    assert!(slug.len() <= 120);
    assert!(!slug.ends_with('-'));
    assert_eq!(slug, "a".repeat(119));
}

#[test]
fn test_slugify_unicode_becomes_hyphen() {
    assert_eq!(slugify("caf\u{e9} beat"), "caf--beat");
}
