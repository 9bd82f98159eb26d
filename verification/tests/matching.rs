use routerify::matcher::PathMatcher;
use routerify::method::method_listed;
use routerify::middleware::positions;
use routerify::order::reversed;
use routerify::params::bind_params;
use routerify::route::mask_of;
use routerify::route::window;
use routerify::route::Selection;
use routerify::Lookup;
use routerify::Method;
use routerify::PatternError;
use routerify::RouteParams;
use routerify::RouteTable;

fn pairs(p: &RouteParams) -> Vec<(String, String)> {
    (0..p.len()).map(|i| (p.name_at(i).clone(), p.value_at(i).clone())).collect()
}

fn pair(a: &str, b: &str) -> (String, String) {
    (a.to_string(), b.to_string())
}

#[test]
fn compile_keeps_pattern_names_and_source() {
    let m = PathMatcher::compile("/users/:name/").unwrap();
    assert_eq!(m.pattern(), "/users/:name/");
    assert_eq!(m.param_names(), &vec!["name".to_string()]);
    assert_eq!(m.source(), "(?s)^/users/([^/]+)/$");
}

#[test]
fn compile_reports_the_pattern_fault() {
    assert_eq!(
        PathMatcher::compile("/a/*/b").unwrap_err(),
        PatternError::WildcardNotLast { segment: 2 }
    );
    assert_eq!(
        PathMatcher::compile("/:x/:x").unwrap_err(),
        PatternError::DuplicateParam { segment: 2 }
    );
}

#[test]
fn matching_is_anchored_to_the_whole_path() {
    let m = PathMatcher::compile("/users/:name/").unwrap();
    assert!(m.is_match("/users/alice/"));
    assert!(!m.is_match("/users/alice"));
    assert!(!m.is_match("/users/alice/books/"));
    assert!(!m.is_match("/x/users/alice/"));
    assert!(!m.is_match("/users//"));
    assert!(m.match_path("/users/alice/books/").is_none());
}

#[test]
fn a_literal_dot_matches_only_a_dot() {
    let m = PathMatcher::compile("/a.b/").unwrap();
    assert!(m.is_match("/a.b/"));
    assert!(!m.is_match("/axb/"));
}

#[test]
fn parameters_take_the_segment_values() {
    let m = PathMatcher::compile("/users/:userName/books/:bookName/").unwrap();
    let p = m.match_path("/users/alice/books/dune/").unwrap();
    assert_eq!(pairs(&p), vec![pair("userName", "alice"), pair("bookName", "dune")]);
    assert_eq!(p.get("userName").unwrap(), "alice");
    assert_eq!(p.get("bookName").unwrap(), "dune");
    assert!(p.get("missing").is_none());
}

#[test]
fn the_wildcard_takes_the_tail_verbatim() {
    let m = PathMatcher::compile("/files/*").unwrap();
    let p = m.match_path("/files/a/b.txt/").unwrap();
    assert_eq!(pairs(&p), vec![pair("*", "a/b.txt/")]);
    let p = m.match_path("/files/").unwrap();
    assert_eq!(pairs(&p), vec![pair("*", "")]);
    assert!(m.match_path("/file/").is_none());
    let p = m.match_path("/files/line\nbreak/").unwrap();
    assert_eq!(p.get("*").unwrap(), "line\nbreak/");
}

#[test]
fn a_pattern_without_parameters_extracts_nothing() {
    let m = PathMatcher::compile("/about/").unwrap();
    let p = m.match_path("/about/").unwrap();
    assert_eq!(p.len(), 0);
}

#[test]
fn bind_pairs_names_with_groups_after_the_whole_match() {
    let names = vec!["a".to_string(), "b".to_string(), "c".to_string()];
    let groups = vec![
        Some("whole".to_string()),
        Some("x".to_string()),
        None,
        Some("z".to_string()),
    ];
    assert_eq!(pairs(&bind_params(&names, &groups)), vec![pair("a", "x"), pair("c", "z")]);
    // More names than groups: the names left over get nothing.
    let short = vec![Some("whole".to_string()), Some("x".to_string())];
    assert_eq!(pairs(&bind_params(&names, &short)), vec![pair("a", "x")]);
    // No groups at all, not even the whole match.
    assert_eq!(bind_params(&names, &Vec::new()).len(), 0);
    assert_eq!(bind_params(&Vec::new(), &groups).len(), 0);
}

#[test]
fn params_get_returns_the_first_binding() {
    let mut p = RouteParams::new();
    assert_eq!(p.len(), 0);
    p.push("k".to_string(), "one".to_string());
    p.push("k".to_string(), "two".to_string());
    p.push("j".to_string(), "three".to_string());
    assert_eq!(p.len(), 3);
    assert_eq!(p.get("k").unwrap(), "one");
    assert_eq!(p.get("j").unwrap(), "three");
    assert!(p.get("").is_none());
    assert_eq!(p.name_at(1), "k");
    assert_eq!(p.value_at(1), "two");
}

#[test]
fn mask_marks_the_listed_positions() {
    assert_eq!(mask_of(&vec![0, 2, 3], 5), vec![true, false, true, true, false]);
    assert_eq!(mask_of(&vec![], 3), vec![false, false, false]);
    assert_eq!(mask_of(&vec![], 0), Vec::<bool>::new());
    assert_eq!(mask_of(&vec![1, 1], 2), vec![false, true]);
}

#[test]
fn positions_lists_the_marked_places_in_order() {
    assert_eq!(positions(&vec![true, false, true, true, false]), vec![0, 2, 3]);
    assert_eq!(positions(&vec![false, false]), Vec::<usize>::new());
    assert_eq!(positions(&vec![]), Vec::<usize>::new());
}

#[test]
fn reversed_turns_the_order_round() {
    assert_eq!(reversed(vec![1, 2, 3]), vec![3, 2, 1]);
    assert_eq!(reversed(Vec::<u8>::new()), Vec::<u8>::new());
}

#[test]
fn method_listed_finds_a_method() {
    let methods = vec![Method::Get, Method::Put];
    assert!(method_listed(&methods, Method::Put));
    assert!(!method_listed(&methods, Method::Post));
    assert!(!method_listed(&Vec::new(), Method::Get));
}

fn table() -> RouteTable<&'static str> {
    let mut t = RouteTable::new();
    assert_eq!(t.register(Method::Get, "/", "home").unwrap(), 0);
    assert_eq!(t.register(Method::Get, "/users/:name", "user").unwrap(), 1);
    assert_eq!(t.register(Method::Put, "/users/:name", "put-user").unwrap(), 2);
    assert_eq!(t.register(Method::Get, "/users/me", "me").unwrap(), 3);
    assert_eq!(t.register(Method::Delete, "/files/*", "files").unwrap(), 4);
    t
}

#[test]
fn register_normalizes_and_keeps_order() {
    let t = table();
    assert_eq!(t.len(), 5);
    assert_eq!(t.route(1).pattern(), "/users/:name/");
    assert_eq!(t.route(4).pattern(), "/files/*");
    assert_eq!(t.route(2).method(), Method::Put);
    assert_eq!(*t.route(3).handler(), "me");
    assert_eq!(t.route(0).mount_depth(), 0);
    assert_eq!(t.route(0).scope(), 0);
}

#[test]
fn register_turns_a_faulty_pattern_down() {
    let mut t = table();
    assert_eq!(
        t.register(Method::Get, "/x/:", "bad").unwrap_err(),
        PatternError::EmptyParamName { segment: 2 }
    );
    assert_eq!(t.len(), 5);
}

#[test]
fn acceptance_is_the_same_with_and_without_the_aggregate() {
    let mut t = table();
    let paths = ["/", "/users/alice/", "/users/me/", "/files/a/b/", "/none/", "/users/"];
    let before: Vec<Vec<bool>> = paths.iter().map(|p| t.acceptance(p)).collect();
    assert!(t.index());
    let after: Vec<Vec<bool>> = paths.iter().map(|p| t.acceptance(p)).collect();
    assert_eq!(before, after);
    assert_eq!(before[0], vec![true, false, false, false, false]);
    assert_eq!(before[1], vec![false, true, true, false, false]);
    assert_eq!(before[2], vec![false, true, true, true, false]);
    assert_eq!(before[3], vec![false, false, false, false, true]);
    assert_eq!(before[4], vec![false, false, false, false, false]);
    assert_eq!(before[5], vec![false, false, false, false, false]);
}

#[test]
fn select_takes_the_first_marked_route_of_the_method() {
    let t = table();
    let all = vec![true, true, true, true, true];
    assert!(matches!(t.select(&all, Method::Get), Selection::Route(0)));
    assert!(matches!(t.select(&all, Method::Put), Selection::Route(2)));
    assert!(matches!(t.select(&all, Method::Delete), Selection::Route(4)));
    let some = vec![false, true, true, true, false];
    assert!(matches!(t.select(&some, Method::Get), Selection::Route(1)));
    match t.select(&some, Method::Post) {
        Selection::MethodNotAllowed(allowed) => assert_eq!(allowed, vec![Method::Get, Method::Put]),
        other => panic!("unexpected {:?}", other),
    }
    let none = vec![false; 5];
    assert!(matches!(t.select(&none, Method::Get), Selection::NotFound));
}

#[test]
fn find_returns_the_first_registered_match() {
    let mut t = table();
    for indexed in [false, true] {
        if indexed {
            assert!(t.index());
        }
        // "/users/me/" is matched by the parameter route, which came first.
        match t.find(Method::Get, "/users/me/") {
            Lookup::Found { index, params } => {
                assert_eq!(index, 1);
                assert_eq!(params.get("name").unwrap(), "me");
            }
            other => panic!("unexpected {:?}", other),
        }
        match t.find(Method::Put, "/users/bob/") {
            Lookup::Found { index, params } => {
                assert_eq!(index, 2);
                assert_eq!(pairs(&params), vec![pair("name", "bob")]);
            }
            other => panic!("unexpected {:?}", other),
        }
        match t.find(Method::Post, "/users/bob/") {
            Lookup::MethodNotAllowed { allowed } => {
                assert_eq!(allowed, vec![Method::Get, Method::Put])
            }
            other => panic!("unexpected {:?}", other),
        }
        assert!(matches!(t.find(Method::Get, "/missing/"), Lookup::NotFound));
        assert!(matches!(t.find(Method::Get, "/users/alice"), Lookup::NotFound));
    }
}

#[test]
fn find_scales_to_thousands_of_routes() {
    let mut t: RouteTable<usize> = RouteTable::new();
    for i in 0..2000 {
        t.register(Method::Get, &format!("/abc-{}/:id", i), i).unwrap();
    }
    assert!(t.index());
    match t.find(Method::Get, "/abc-1999/7/") {
        Lookup::Found { index, params } => {
            assert_eq!(index, 1999);
            assert_eq!(*t.route(index).handler(), 1999);
            assert_eq!(params.get("id").unwrap(), "7");
        }
        other => panic!("unexpected {:?}", other),
    }
    assert!(matches!(t.find(Method::Get, "/abc-2000/7/"), Lookup::NotFound));
}

#[test]
fn window_cuts_a_stretch_out_of_a_mask() {
    let mask = vec![true, false, true, true];
    assert_eq!(window(&mask, 1, 2), vec![false, true]);
    assert_eq!(window(&mask, 0, 4), mask);
    assert_eq!(window(&mask, 3, 3), vec![true, false, false]);
    assert_eq!(window(&mask, 9, 2), vec![false, false]);
    assert_eq!(window(&mask, usize::MAX, 2), vec![false, false]);
    assert_eq!(window(&mask, 2, 0), Vec::<bool>::new());
}
