use makinilya::text::MakinilyaText;
use makinilya::text::Segment;

#[test]
fn markdown_parser_parses_string_interpolation() {
    let file = MakinilyaText::parse("{{ name }}");
    assert!(file.is_ok());
    let file = MakinilyaText::parse("{{ }}");
    assert!(file.is_err());
    let file = MakinilyaText::parse("{{ ?#@# }}");
    assert!(file.is_err());
}

#[test]
fn lib_parses_string_interpolation() {
    let file = MakinilyaText::parse("{{ name }}");
    assert!(file.is_ok());
    let file = MakinilyaText::parse("{{ }}");
    assert!(file.is_err());
    let file = MakinilyaText::parse("{{ 32 }}");
    assert!(file.is_err());
    let file = MakinilyaText::parse("{{ name32 }}");
    assert!(file.is_ok());
    let file = MakinilyaText::parse("{{ name_32 }}");
    assert!(file.is_ok());
    let file = MakinilyaText::parse("{{ name_32.long }}");
    assert!(file.is_ok());
    let file = MakinilyaText::parse("{{ name_32..long }}");
    assert!(file.is_err());
}

#[test]
fn parses_content() {
    let file = MakinilyaText::parse("Hello. My name is {{ name }}.");
    assert!(file.is_ok());
    let file = MakinilyaText::parse("Hello. My name is {{ name.long }}.");
    assert!(file.is_ok());
}

#[test]
fn empty_input_has_no_segments() {
    let segments = MakinilyaText::parse("").unwrap();
    assert!(segments.is_empty());
}

#[test]
fn pure_literal_is_one_segment() {
    let segments = MakinilyaText::parse("just text, no placeholders").unwrap();
    assert_eq!(segments.len(), 1);
    assert_eq!(
        segments[0],
        Segment::Literal("just text, no placeholders".to_owned())
    );
}

#[test]
fn placeholder_keeps_spelling_and_path() {
    let segments = MakinilyaText::parse("Hi, {{ names.mc }}.").unwrap();
    assert_eq!(segments.len(), 3);
    assert_eq!(segments[0], Segment::Literal("Hi, ".to_owned()));
    assert_eq!(
        segments[1],
        Segment::Placeholder {
            raw: "{{ names.mc }}".to_owned(),
            path: vec!["names".to_owned(), "mc".to_owned()],
        }
    );
    assert_eq!(segments[2], Segment::Literal(".".to_owned()));
}

#[test]
fn segments_concatenate_back_to_input() {
    let source = "a {{ x }} b {{ y.z }}\nlast line {{ one }}";
    let segments = MakinilyaText::parse(source).unwrap();
    let mut rebuilt = String::new();
    for segment in segments {
        match segment {
            Segment::Literal(text) => rebuilt.push_str(&text),
            Segment::Placeholder { raw, .. } => rebuilt.push_str(&raw),
        }
    }
    assert_eq!(rebuilt, source);
}

#[test]
fn adjacent_placeholders_parse() {
    let segments = MakinilyaText::parse("{{a}}{{b}}").unwrap();
    assert_eq!(segments.len(), 2);
    assert!(matches!(segments[0], Segment::Placeholder { .. }));
    assert!(matches!(segments[1], Segment::Placeholder { .. }));
}

#[test]
fn unclosed_opener_is_an_error() {
    assert!(MakinilyaText::parse("text {{ name").is_err());
}

#[test]
fn stray_closer_is_literal() {
    let segments = MakinilyaText::parse("a }} b").unwrap();
    assert_eq!(segments, vec![Segment::Literal("a }} b".to_owned())]);
}

#[test]
fn error_carries_opener_line_and_column() {
    let error = MakinilyaText::parse("{{ }}").unwrap_err();
    let makinilya::text::Error::ParsingError(line, column, message) = error;
    assert_eq!(line, 1);
    assert_eq!(column, 1);
    assert!(!message.is_empty());

    let error = MakinilyaText::parse("fine line\nbad {{ .oops }}").unwrap_err();
    let makinilya::text::Error::ParsingError(line, column, _) = error;
    assert_eq!(line, 2);
    assert_eq!(column, 5);
}

#[test]
fn whitespace_inside_placeholder_is_ignored() {
    let segments = MakinilyaText::parse("{{  spaced . path  }}").unwrap();
    assert_eq!(
        segments,
        vec![Segment::Placeholder {
            raw: "{{  spaced . path  }}".to_owned(),
            path: vec!["spaced".to_owned(), "path".to_owned()],
        }]
    );
}
