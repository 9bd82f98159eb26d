use routerify::paths::join_paths;
use routerify::paths::normalize_path;
use routerify::paths::normalize_pattern;
use routerify::pattern::classify_segment;
use routerify::pattern::names_of;
use routerify::pattern::parse;
use routerify::pattern::split_segments;
use routerify::pattern::translate;
use routerify::pattern::Segment;
use routerify::text::chars_of;
use routerify::text::occurs_from;
use routerify::text::string_from;
use routerify::text::string_of;
use routerify::PatternError;

fn chars(s: &str) -> Vec<char> {
    s.chars().collect()
}

fn source_of(pattern: &str) -> String {
    translate(&parse(pattern).unwrap())
}

#[test]
fn chars_and_strings_round_trip() {
    assert_eq!(chars_of("a/é*"), vec!['a', '/', 'é', '*']);
    assert_eq!(chars_of(""), Vec::<char>::new());
    assert_eq!(string_of(&chars("héllo")), "héllo");
    assert_eq!(string_from(&chars(":name"), 1), "name");
    assert_eq!(string_from(&chars("abc"), 3), "");
}

#[test]
fn occurs_from_looks_only_past_the_start() {
    let v = chars(":a:b");
    assert!(occurs_from(&v, 0, ':'));
    assert!(occurs_from(&v, 1, ':'));
    assert!(!occurs_from(&v, 3, ':'));
    assert!(!occurs_from(&v, 4, 'b'));
    assert!(!occurs_from(&v, 0, '*'));
}

#[test]
fn split_cuts_at_every_slash() {
    assert_eq!(split_segments(&chars("")), vec![chars("")]);
    assert_eq!(split_segments(&chars("/")), vec![chars(""), chars("")]);
    assert_eq!(
        split_segments(&chars("/users/:name/")),
        vec![chars(""), chars("users"), chars(":name"), chars("")]
    );
    assert_eq!(split_segments(&chars("a//b")), vec![chars("a"), chars(""), chars("b")]);
    assert_eq!(split_segments(&chars("abc")), vec![chars("abc")]);
}

#[test]
fn classify_tells_the_three_kinds_apart() {
    assert!(matches!(classify_segment(&chars("users"), 1), Ok(Segment::Literal(t)) if t == "users"));
    assert!(matches!(classify_segment(&chars(""), 0), Ok(Segment::Literal(t)) if t.is_empty()));
    assert!(matches!(classify_segment(&chars(":id"), 2), Ok(Segment::Param(n)) if n == "id"));
    assert!(matches!(classify_segment(&chars("*"), 3), Ok(Segment::Wildcard)));
    assert_eq!(
        classify_segment(&chars(":"), 4).unwrap_err(),
        PatternError::EmptyParamName { segment: 4 }
    );
    assert_eq!(
        classify_segment(&chars(":a:b"), 5).unwrap_err(),
        PatternError::MisplacedMarker { segment: 5 }
    );
    assert_eq!(
        classify_segment(&chars(":a*"), 5).unwrap_err(),
        PatternError::MisplacedMarker { segment: 5 }
    );
    assert_eq!(
        classify_segment(&chars("a*"), 6).unwrap_err(),
        PatternError::MisplacedMarker { segment: 6 }
    );
    assert_eq!(
        classify_segment(&chars("**"), 6).unwrap_err(),
        PatternError::MisplacedMarker { segment: 6 }
    );
    assert_eq!(
        classify_segment(&chars("file-:id"), 7).unwrap_err(),
        PatternError::MisplacedMarker { segment: 7 }
    );
}

#[test]
fn parse_reads_segments_in_order() {
    let segs = parse("/users/:userName/books/:bookName/").unwrap();
    assert_eq!(segs.len(), 6);
    assert!(matches!(&segs[0], Segment::Literal(t) if t.is_empty()));
    assert!(matches!(&segs[1], Segment::Literal(t) if t == "users"));
    assert!(matches!(&segs[2], Segment::Param(n) if n == "userName"));
    assert!(matches!(&segs[3], Segment::Literal(t) if t == "books"));
    assert!(matches!(&segs[4], Segment::Param(n) if n == "bookName"));
    assert!(matches!(&segs[5], Segment::Literal(t) if t.is_empty()));
    assert_eq!(names_of(&segs), vec!["userName".to_string(), "bookName".to_string()]);
}

#[test]
fn parse_accepts_a_trailing_wildcard() {
    let segs = parse("/files/:kind/*").unwrap();
    assert_eq!(segs.len(), 4);
    assert!(matches!(&segs[3], Segment::Wildcard));
    assert_eq!(names_of(&segs), vec!["kind".to_string(), "*".to_string()]);
}

#[test]
fn parse_reports_an_empty_parameter_name() {
    assert_eq!(parse("/users/:").unwrap_err(), PatternError::EmptyParamName { segment: 2 });
    assert_eq!(parse("/users/:/books").unwrap_err(), PatternError::EmptyParamName { segment: 2 });
}

#[test]
fn parse_reports_a_misplaced_marker() {
    assert_eq!(parse("/a:b").unwrap_err(), PatternError::MisplacedMarker { segment: 1 });
    assert_eq!(parse("/x/a*").unwrap_err(), PatternError::MisplacedMarker { segment: 2 });
    assert_eq!(parse("/:a:b/").unwrap_err(), PatternError::MisplacedMarker { segment: 1 });
}

#[test]
fn parse_reports_a_wildcard_that_is_not_last() {
    assert_eq!(parse("/a/*/b").unwrap_err(), PatternError::WildcardNotLast { segment: 2 });
    assert_eq!(parse("/*/").unwrap_err(), PatternError::WildcardNotLast { segment: 1 });
    assert_eq!(parse("/*/*").unwrap_err(), PatternError::WildcardNotLast { segment: 1 });
}

#[test]
fn parse_reports_a_duplicate_parameter() {
    assert_eq!(parse("/:id/x/:id").unwrap_err(), PatternError::DuplicateParam { segment: 3 });
    assert!(parse("/:id/x/:ID").is_ok());
}

#[test]
fn parse_reports_the_first_fault_only() {
    // The empty name comes before the misplaced wildcard.
    assert_eq!(parse("/:/*/x").unwrap_err(), PatternError::EmptyParamName { segment: 1 });
    // The wildcard comes before the duplicate.
    assert_eq!(parse("/:a/*/:a").unwrap_err(), PatternError::WildcardNotLast { segment: 2 });
}

#[test]
fn translate_gives_the_anchored_expression() {
    assert_eq!(source_of("/"), "(?s)^/$");
    assert_eq!(source_of(""), "(?s)^$");
    assert_eq!(source_of("/users/:name/"), "(?s)^/users/([^/]+)/$");
    assert_eq!(source_of("/files/*"), "(?s)^/files/(.*)$");
    assert_eq!(source_of("/*"), "(?s)^/(.*)$");
    assert_eq!(
        source_of("/users/:userName/books/:bookName/"),
        "(?s)^/users/([^/]+)/books/([^/]+)/$"
    );
}

#[test]
fn translate_escapes_meta_characters_in_literals() {
    assert_eq!(source_of("/a.b/"), "(?s)^/a\\.b/$");
    assert_eq!(source_of("/v1.0/(x)/"), "(?s)^/v1\\.0/\\(x\\)/$");
    assert_eq!(source_of("/a-b~c/"), "(?s)^/a\\-b\\~c/$");
    assert_eq!(source_of("/a%b!/"), "(?s)^/a%b!/$");
}

#[test]
fn patterns_are_closed_by_a_slash() {
    assert_eq!(normalize_pattern("/users"), "/users/");
    assert_eq!(normalize_pattern("/users/"), "/users/");
    assert_eq!(normalize_pattern("/files/*"), "/files/*");
    assert_eq!(normalize_pattern(""), "/");
    assert_eq!(normalize_pattern("/"), "/");
}

#[test]
fn paths_are_closed_by_a_slash() {
    assert_eq!(normalize_path("/users/alice".to_string()), "/users/alice/");
    assert_eq!(normalize_path("/users/alice/".to_string()), "/users/alice/");
    assert_eq!(normalize_path("".to_string()), "/");
    assert_eq!(normalize_path("/a*".to_string()), "/a*/");
}

#[test]
fn join_puts_exactly_one_slash_between() {
    assert_eq!(join_paths("/api", "/users/"), "/api/users/");
    assert_eq!(join_paths("/api/", "/users/"), "/api/users/");
    assert_eq!(join_paths("/api", "users/"), "/api/users/");
    assert_eq!(join_paths("/api//", "//users/"), "/api/users/");
    assert_eq!(join_paths("", "/x"), "/x");
    assert_eq!(join_paths("/", "/"), "/");
    assert_eq!(join_paths("/api", "*"), "/api/*");
    assert_eq!(join_paths("/v1/api", "/"), "/v1/api/");
}
