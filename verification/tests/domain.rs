use postparse::date::Date;
use postparse::error::ParsingError;
use postparse::frontmatter::{Frontmatter, FrontmatterParsingError};
use postparse::plaintext::{center_multiline, wrap_in_box};
use postparse::tags::tag_groups;
use postparse::text::{find_sub, split_once_at, str_eq, str_starts_with, trim};
use postparse::util::Siblings;

#[test]
fn test_date_parse() {
    let d = Date::parse("2023-04-15").unwrap();
    assert_eq!(d, Date::new(2023, 4, 15));

    let err = Date::parse("2023-13-01").unwrap_err();
    match err {
        ParsingError::InvalidDate(original) => assert_eq!(original, "2023-13-01"),
        other => panic!("wrong error: {:?}", other),
    }

    assert!(Date::parse("bad").is_err());
}

#[test]
fn test_date_parse_edges() {
    assert_eq!(Date::parse("2023-004-15").unwrap(), Date::new(2023, 4, 15));
    assert_eq!(Date::parse("2023-+4-15").unwrap(), Date::new(2023, 4, 15));
    assert!(Date::parse("2023-0-15").is_err());
    assert!(Date::parse("2023-4-").is_err());
    assert!(Date::parse("-4-15").is_err());
    assert!(Date::parse("99999-4-15").is_err());
    assert!(Date::parse("2023-4-1x").is_err());
    assert!(Date::parse("").is_err());
    assert!(Date::parse("2023").is_err());
    assert!(Date::parse("2023-12").is_err());
}

#[test]
fn test_date_ordering() {
    assert!(Date::new(2022, 12, 31) < Date::new(2023, 1, 1));
    assert!(Date::new(2023, 4, 15) < Date::new(2023, 4, 16));
    assert!(Date::new(2023, 4, 15) < Date::new(2023, 5, 1));
    assert_eq!(Date::new(2023, 4, 15), Date::new(2023, 4, 15));
}

#[test]
fn test_date_renders() {
    let d = Date::new(2023, 4, 15);
    assert_eq!(d.month_name(), "April");
    assert_eq!(d.pretty(), "April 15, 2023");
    assert_eq!(d.pretty_no_day(), "April 2023");
    assert_eq!(d.iso_8601(), "2023-4-15");
    assert_eq!(d.rfc2822(), "15 Apr 2023 00:00:00 -0700");

    let d = Date::new(999, 12, 1);
    assert_eq!(d.month_name(), "December");
    assert_eq!(d.iso_8601(), "999-12-1");
    assert_eq!(d.rfc2822(), "1 Dec 999 00:00:00 -0700");
}

#[test]
fn test_frontmatter_parse() {
    let text = "---\ntitle: Hello\ndescription: World\ntags: [a, b]\n---\nBODY";
    let (body, fm) = Frontmatter::parse(text).unwrap();
    assert_eq!(body, "\nBODY");
    assert_eq!(fm.title, "Hello");
    assert_eq!(fm.description, "World");
    assert_eq!(fm.tags, vec!["a".to_string(), "b".to_string()]);

    let swapped = "---\ndescription: World\ntitle: Hello\ntags: [a, b]\n---\nBODY";
    let err = Frontmatter::parse(swapped).unwrap_err();
    match err {
        FrontmatterParsingError::IncorrectLinePosition(key) => assert_eq!(key, "title"),
        other => panic!("wrong error: {:?}", other),
    }
}

#[test]
fn test_frontmatter_errors() {
    assert!(matches!(
        Frontmatter::parse("no divider at all"),
        Err(FrontmatterParsingError::MissingDivider)
    ));
    assert!(matches!(
        Frontmatter::parse("---\ntitle: Hello\nnever closed"),
        Err(FrontmatterParsingError::MissingSecondDivider)
    ));
    assert!(matches!(
        Frontmatter::parse("---\n\n---\nBODY"),
        Err(FrontmatterParsingError::MissingTitle)
    ));
    assert!(matches!(
        Frontmatter::parse("---\ntitle: Hello\n---\nBODY"),
        Err(FrontmatterParsingError::MissingDescription)
    ));
    assert!(matches!(
        Frontmatter::parse("---\ntitle: Hello\ndescription: World\n---\nBODY"),
        Err(FrontmatterParsingError::MissingTags)
    ));
    assert!(matches!(
        Frontmatter::parse("---\ntitle Hello\ndescription: World\ntags: [a]\n---\n"),
        Err(FrontmatterParsingError::InvalidLineFormat)
    ));
    assert!(matches!(
        Frontmatter::parse("---\ntitle: Hello\ndescription: World\ntags: a, b\n---\n"),
        Err(FrontmatterParsingError::BadTagsFormat)
    ));
    assert!(matches!(
        Frontmatter::parse("---\ntitle: Hello\ndescription: World\ntags: [a, b\n---\n"),
        Err(FrontmatterParsingError::BadTagsFormat)
    ));
}

#[test]
fn test_frontmatter_tags_edges() {
    let text = "---\ntitle: T\ndescription: D\ntags: []\n---\nB";
    let (_, fm) = Frontmatter::parse(text).unwrap();
    assert_eq!(fm.tags, vec!["".to_string()]);

    let text = "---\ntitle: T\ndescription: D\ntags: [ solo ]\n---\nB";
    let (_, fm) = Frontmatter::parse(text).unwrap();
    assert_eq!(fm.tags, vec!["solo".to_string()]);

    let text = "---\ntitle: T\ndescription: D\ntags: [a, a,b]\n---\nB";
    let (_, fm) = Frontmatter::parse(text).unwrap();
    assert_eq!(fm.tags, vec!["a".to_string(), "a".to_string(), "b".to_string()]);
}

#[test]
fn test_frontmatter_extra_lines_ignored() {
    let text = "---\ntitle: T\ndescription: D\ntags: [a]\nextra: ignored\n---\nB";
    let (body, fm) = Frontmatter::parse(text).unwrap();
    assert_eq!(fm.title, "T");
    assert_eq!(fm.tags, vec!["a".to_string()]);
    assert_eq!(body, "\nB");
}

#[test]
fn test_frontmatter_values_trimmed() {
    let text = "---\ntitle:    Spaced Out   \ndescription:\tTabbed\ntags: [x]\n---\n";
    let (_, fm) = Frontmatter::parse(text).unwrap();
    assert_eq!(fm.title, "Spaced Out");
    assert_eq!(fm.description, "Tabbed");
}

#[test]
fn test_frontmatter_error_wraps_into_parsing_error() {
    let e: ParsingError = FrontmatterParsingError::MissingDivider.into();
    assert!(matches!(
        e,
        ParsingError::Frontmatter(FrontmatterParsingError::MissingDivider)
    ));
}

#[test]
fn test_text_helpers() {
    assert_eq!(find_sub("abcabc", "ca"), Some(2));
    assert_eq!(find_sub("abcabc", "zz"), None);
    assert_eq!(find_sub("anything", ""), Some(0));

    assert_eq!(split_once_at("key: value: more", ":"), Some(("key", " value: more")));
    assert_eq!(split_once_at("no separator", ":"), None);

    assert!(str_starts_with("hello", "he"));
    assert!(!str_starts_with("hello", "lo"));

    assert_eq!(trim("  padded\t\n"), "padded");
    assert_eq!(trim(" \t \n"), "");
    assert_eq!(trim("bare"), "bare");

    assert!(str_eq("same", "same"));
    assert!(!str_eq("same", "sane"));
}

#[test]
fn test_siblings_walk() {
    let v = vec![1, 2, 3];
    let mut it = Siblings::new(&v);
    assert_eq!(it.next(), Some((None, &1, Some(&2))));
    assert_eq!(it.next(), Some((Some(&1), &2, Some(&3))));
    assert_eq!(it.next(), Some((Some(&2), &3, None)));
    assert_eq!(it.next(), None);
    assert_eq!(it.next(), None);
}

#[test]
fn test_siblings_small() {
    let v = vec![7];
    let mut it = Siblings::new(&v);
    assert_eq!(it.next(), Some((None, &7, None)));
    assert_eq!(it.next(), None);

    let empty: Vec<u8> = Vec::new();
    let mut it = Siblings::new(&empty);
    assert_eq!(it.next(), None);
}

#[test]
fn test_center_multiline_fixed_width() {
    assert_eq!(center_multiline("ab", Some(6)), "  ab  ");
    assert_eq!(center_multiline("a", Some(4)), " a  ");
    assert_eq!(center_multiline("toolong", Some(3)), "toolong");
    assert_eq!(center_multiline("ab\ncdef", Some(6)), "  ab  \n cdef ");
}

#[test]
fn test_center_multiline_natural_width() {
    assert_eq!(center_multiline("ab\ncdef", None), " ab \ncdef");
    assert_eq!(center_multiline("", None), "");
}

#[test]
fn test_tag_groups() {
    let lists = vec![
        vec!["rust".to_string(), "web".to_string()],
        vec!["web".to_string()],
        vec!["rust".to_string(), "rust".to_string()],
    ];
    let groups = tag_groups(&lists);
    assert_eq!(
        groups,
        vec![
            ("rust".to_string(), vec![0usize, 2, 2]),
            ("web".to_string(), vec![0usize, 1]),
        ]
    );

    let empty: Vec<Vec<String>> = Vec::new();
    assert_eq!(tag_groups(&empty), Vec::new());
}

#[test]
fn test_wrap_in_box() {
    assert_eq!(wrap_in_box("hi"), "\u{250f}\u{2501}\u{2501}\u{2501}\u{2501}\u{2513}\n\u{2503} hi \u{2503}\n\u{2517}\u{2501}\u{2501}\u{2501}\u{2501}\u{251b}");
    assert_eq!(
        wrap_in_box("a\nbcd"),
        "\u{250f}\u{2501}\u{2501}\u{2501}\u{2501}\u{2501}\u{2513}\n\u{2503} a   \u{2503}\n\u{2503} bcd \u{2503}\n\u{2517}\u{2501}\u{2501}\u{2501}\u{2501}\u{2501}\u{251b}"
    );
}
