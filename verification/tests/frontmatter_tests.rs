use ferrocyanide::datetime::{parse_datetime, DateTime};
use ferrocyanide::frontmatter::{decode_fields, frontmatter_from_block, FieldView, Frontmatter};

fn decode(yaml: &str) -> Option<Frontmatter> {
    frontmatter_from_block(yaml)
}

#[test]
fn test_frontmatter() {
    let yaml = r#"
        title: "Test Title"
        description: "Test Description"
        layout: "post.html"
        created_at: 2023-10-01T12:00:00Z
        updated_at: 2023-10-02T12:00:00Z
        "#;
    let frontmatter = decode(yaml).unwrap();
    assert_eq!(frontmatter.title, Some("Test Title".to_string()));
    assert_eq!(frontmatter.description, Some("Test Description".to_string()));
    assert_eq!(frontmatter.layout, Some("post.html".to_string()));
    assert_eq!(
        frontmatter.created_at,
        Some(DateTime { year: 2023, month: 10, day: 1, hour: 12, minute: 0, second: 0 })
    );
    assert_eq!(
        frontmatter.updated_at,
        Some(DateTime { year: 2023, month: 10, day: 2, hour: 12, minute: 0, second: 0 })
    );
    assert_eq!(frontmatter.authors, Vec::<String>::new());
    assert_eq!(frontmatter.extra.len(), 0);
}

#[test]
fn test_read_frontmatter() {
    let yaml = r#"
        ---
        title: "Test Title"
        description: "Test Description"
        ---
        # This is a test markdown content
        "#;

    let frontmatter = Frontmatter::read(yaml).unwrap();
    assert_eq!(frontmatter.title, Some("Test Title".to_string()));
    assert_eq!(frontmatter.description, Some("Test Description".to_string()));
}

#[test]
fn test_format_ymd() {
    let result = parse_datetime("2025-04-30");
    let expected = DateTime { year: 2025, month: 4, day: 30, hour: 0, minute: 0, second: 0 };
    assert_eq!(result.unwrap(), expected);
}

#[test]
fn test_format_ymd_hm() {
    let result = parse_datetime("2025-04-30 13:45");
    let expected = DateTime { year: 2025, month: 4, day: 30, hour: 13, minute: 45, second: 0 };
    assert_eq!(result.unwrap(), expected);
}

#[test]
fn test_format_ymd_hms() {
    let result = parse_datetime("2025-04-30T13:45:30");
    let expected = DateTime { year: 2025, month: 4, day: 30, hour: 13, minute: 45, second: 30 };
    assert_eq!(result.unwrap(), expected);
}

#[test]
fn test_format_rfc3339_z() {
    let result = parse_datetime("2025-04-30T13:45:30Z");
    let expected = DateTime { year: 2025, month: 4, day: 30, hour: 13, minute: 45, second: 30 };
    assert_eq!(result.unwrap(), expected);
}

#[test]
fn test_format_rfc3339_offset() {
    // a full RFC 3339 timestamp: the zone offset is discarded, the
    // wall-clock fields are kept as written
    let result = parse_datetime("2025-04-30T13:45:30+02:00");
    let expected = DateTime { year: 2025, month: 4, day: 30, hour: 13, minute: 45, second: 30 };
    assert_eq!(result.unwrap(), expected);
}

#[test]
fn test_invalid_format() {
    assert!(parse_datetime("invalid-date").is_none());
    // an unparseable non-null date fails the whole block
    assert!(decode("created_at: \"invalid-date\"").is_none());
}

#[test]
fn test_null_datetime() {
    let result = decode("created_at: null").unwrap();
    assert!(result.created_at.is_none());
}

#[test]
fn test_missing_datetime() {
    let result = decode("{}").unwrap();
    assert!(result.created_at.is_none());
}

#[test]
fn test_invalid_day_rejected() {
    // April has 30 days; February follows the leap-year rule
    assert!(parse_datetime("2025-04-31").is_none());
    assert!(parse_datetime("2025-02-29").is_none());
    assert!(parse_datetime("2024-02-29").is_some());
    assert!(parse_datetime("2025-04-30T24:00:00").is_none());
}

#[test]
fn test_frontmatter_authors_and_extra() {
    let fm = decode("authors:\n  - Ada\n  - Grace\nextra:\n  banner: big\n").unwrap();
    assert_eq!(fm.authors, vec!["Ada".to_string(), "Grace".to_string()]);
    assert_eq!(fm.extra.len(), 1);
    assert_eq!(fm.extra[0].0, "banner");
    assert_eq!(fm.extra[0].1.as_str(), Some("big"));
}

#[test]
fn test_frontmatter_bad_title_fails() {
    // a recognised key with an unusable value fails the whole block
    assert!(decode("title: [1, 2]").is_none());
    assert!(decode("authors: nope").is_none());
}

#[test]
fn test_non_string_key_fails_block() {
    // the whole block fails when any key is not a string
    assert!(decode("1: x\ntitle: \"T\"").is_none());
}

#[test]
fn test_read_without_block() {
    assert!(Frontmatter::read("# Just a heading\nNo metadata here.").is_none());
}

#[test]
fn test_decode_field_rules() {
    // unknown keys are ignored; `null` leaves a field absent
    let fm = decode_fields(vec![
        ("title".to_string(), FieldView::Text("T".to_string())),
        ("publish".to_string(), FieldView::Other),
        ("description".to_string(), FieldView::Null),
    ])
    .unwrap();
    assert_eq!(fm.title, Some("T".to_string()));
    assert!(fm.description.is_none());
    // a recognised key with an unusable value fails the whole block
    assert!(decode_fields(vec![("title".to_string(), FieldView::Other)]).is_none());
    assert!(decode_fields(vec![(
        "authors".to_string(),
        FieldView::List(vec![Some("Ada".to_string()), None])
    )])
    .is_none());
    // an unparseable date fails; a parseable one is decoded
    assert!(decode_fields(vec![(
        "created_at".to_string(),
        FieldView::Text("soon".to_string())
    )])
    .is_none());
    let fm = decode_fields(vec![(
        "created_at".to_string(),
        FieldView::Text("2024-02-29".to_string()),
    )])
    .unwrap();
    assert_eq!(fm.created_at.unwrap().day, 29);
}
