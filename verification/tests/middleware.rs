use routerify::middleware::applicability_of;
use routerify::Middleware;
use routerify::MiddlewareChain;
use routerify::MiddlewareEntry;
use routerify::PatternError;
use routerify::Phase;
use routerify::PostMiddleware;
use routerify::PreMiddleware;

#[test]
fn pre_middleware_is_anchored_to_its_normal_pattern() {
    let m = PreMiddleware::new("/abc", "h").unwrap().into_entry();
    assert_eq!(m.pattern().unwrap(), "/abc/");
    assert_eq!(m.phase(), Phase::Pre);
    assert!(!m.needs_info());
    assert_eq!(*m.handler(), "h");
    assert_eq!(m.mount_depth(), 0);
    assert_eq!(m.origin(), 0);
    assert!(m.applies("/abc/"));
    assert!(!m.applies("/abc/d/"));
    assert!(!m.applies("/"));
}

#[test]
fn pre_middleware_reports_a_faulty_pattern() {
    assert_eq!(
        PreMiddleware::new("/a/:", "h").err().unwrap(),
        PatternError::EmptyParamName { segment: 2 }
    );
    assert_eq!(
        PostMiddleware::new("/*/x", true, "h").err().unwrap(),
        PatternError::WildcardNotLast { segment: 1 }
    );
    assert_eq!(
        Middleware::pre_with_path("/a*", "h").err().unwrap(),
        PatternError::MisplacedMarker { segment: 1 }
    );
    assert_eq!(
        Middleware::post_with_path("/:x/:x", "h").err().unwrap(),
        PatternError::DuplicateParam { segment: 2 }
    );
    assert_eq!(
        Middleware::post_with_info_with_path("/:", "h").err().unwrap(),
        PatternError::EmptyParamName { segment: 1 }
    );
    assert_eq!(
        MiddlewareEntry::new(Phase::Pre, Some("/a/:"), false, "h").err().unwrap(),
        PatternError::EmptyParamName { segment: 2 }
    );
}

#[test]
fn global_middleware_applies_to_every_path() {
    let m = PreMiddleware::global("h").into_entry();
    assert!(m.pattern().is_none());
    assert!(m.applies("/"));
    assert!(m.applies("/anything/at/all/"));
    assert!(m.applies(""));
    let m = PostMiddleware::global(true, "h").into_entry();
    assert_eq!(m.phase(), Phase::Post);
    assert!(m.needs_info());
    let m = MiddlewareEntry::new(Phase::Post, None, false, "h").unwrap();
    assert!(m.pattern().is_none());
    assert_eq!(m.phase(), Phase::Post);
}

#[test]
fn middleware_constructors_set_phase_and_info() {
    let cases = [
        (Middleware::pre("a"), Phase::Pre, false, None),
        (Middleware::post("b"), Phase::Post, false, None),
        (Middleware::post_with_info("c"), Phase::Post, true, None),
        (Middleware::pre_with_path("/p", "d").unwrap(), Phase::Pre, false, Some("/p/")),
        (Middleware::post_with_path("/p/*", "e").unwrap(), Phase::Post, false, Some("/p/*")),
        (
            Middleware::post_with_info_with_path("/:x", "f").unwrap(),
            Phase::Post,
            true,
            Some("/:x/"),
        ),
    ];
    for (m, phase, info, pattern) in cases {
        let entry = m.into_entry();
        assert_eq!(entry.phase(), phase);
        assert_eq!(entry.needs_info(), info);
        assert_eq!(entry.pattern().map(|p| p.as_str()), pattern);
    }
}

fn chain() -> MiddlewareChain<&'static str> {
    let mut c = MiddlewareChain::new();
    c.register(Middleware::pre("log").into_entry());
    c.register(Middleware::post_with_path("/users/:id", "users-post").unwrap().into_entry());
    c.register(Middleware::pre_with_path("/users/*", "users-pre").unwrap().into_entry());
    c.register(Middleware::post_with_info("all-post").into_entry());
    c.register(Middleware::pre_with_path("/about", "about-pre").unwrap().into_entry());
    c
}

#[test]
fn chain_keeps_registration_order_within_a_phase() {
    let c = chain();
    assert_eq!(c.len(Phase::Pre), 3);
    assert_eq!(c.len(Phase::Post), 2);
    assert_eq!(*c.entry(Phase::Pre, 0).handler(), "log");
    assert_eq!(*c.entry(Phase::Pre, 1).handler(), "users-pre");
    assert_eq!(*c.entry(Phase::Pre, 2).handler(), "about-pre");
    assert_eq!(*c.entry(Phase::Post, 0).handler(), "users-post");
    assert_eq!(*c.entry(Phase::Post, 1).handler(), "all-post");
}

#[test]
fn applicable_selects_global_and_matching_entries_in_order() {
    let c = chain();
    assert_eq!(c.applicable("/users/7/", Phase::Pre), vec![0, 1]);
    assert_eq!(c.applicable("/users/7/", Phase::Post), vec![0, 1]);
    assert_eq!(c.applicable("/users/7/books/", Phase::Pre), vec![0, 1]);
    assert_eq!(c.applicable("/users/7/books/", Phase::Post), vec![1]);
    assert_eq!(c.applicable("/about/", Phase::Pre), vec![0, 2]);
    assert_eq!(c.applicable("/about/", Phase::Post), vec![1]);
    assert_eq!(c.applicable("/", Phase::Pre), vec![0]);
    let empty: MiddlewareChain<u8> = MiddlewareChain::new();
    assert_eq!(empty.applicable("/", Phase::Pre), Vec::<usize>::new());
}

#[test]
fn applicability_marks_each_entry() {
    let entries = vec![
        Middleware::pre("a").into_entry(),
        Middleware::pre_with_path("/x", "b").unwrap().into_entry(),
        Middleware::pre_with_path("/y", "c").unwrap().into_entry(),
    ];
    assert_eq!(applicability_of(&entries, "/y/"), vec![true, false, true]);
    assert_eq!(applicability_of(&entries, "/z/"), vec![true, false, false]);
}

#[test]
fn applicable_given_reads_the_marks_of_an_aggregate() {
    let c = chain();
    // The pre entries stand at positions 2, 3 and 4 of the mask.
    let hits = vec![true, true, false, true, false, true];
    assert_eq!(c.applicable_given(Phase::Pre, &hits, 2), vec![0, 1]);
    // A global entry applies whatever its mark.
    assert_eq!(c.applicable_given(Phase::Pre, &vec![false; 8], 2), vec![0]);
    assert_eq!(c.applicable_given(Phase::Post, &hits, 0), vec![0, 1]);
    assert_eq!(c.applicable_given(Phase::Post, &hits, 2), vec![1]);
    // Past the end of the mask nothing is marked.
    assert_eq!(c.applicable_given(Phase::Pre, &hits, 4), vec![0, 1]);
    assert_eq!(c.applicable_given(Phase::Pre, &hits, 5), vec![0]);
    assert_eq!(c.applicable_given(Phase::Pre, &hits, 6), vec![0]);
    assert_eq!(c.applicable_given(Phase::Pre, &hits, usize::MAX), vec![0]);
}

#[test]
fn sources_give_each_entry_its_expression() {
    let c = chain();
    assert_eq!(
        c.sources(Phase::Pre),
        vec!["".to_string(), "(?s)^/users/(.*)$".to_string(), "(?s)^/about/$".to_string()]
    );
    assert_eq!(
        c.sources(Phase::Post),
        vec!["(?s)^/users/([^/]+)/$".to_string(), "".to_string()]
    );
    assert!(c.entry(Phase::Pre, 0).is_global());
    assert!(!c.entry(Phase::Pre, 1).is_global());
}
