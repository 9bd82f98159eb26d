use routerify::matcher::PathMatcher;
use routerify::Action;
use routerify::IpAddress;
use routerify::Middleware;
use routerify::Outcome;
use routerify::RemoteAddr;
use routerify::RequestContext;
use routerify::Method;
use routerify::PatternError;
use routerify::RequestServiceBuilder;
use routerify::RouteTable;
use routerify::Router;

#[test]
fn engine_rejects_an_expression_that_is_too_large() {
    let pattern = format!("/{}", "a".repeat(1_000_000));
    assert_eq!(PathMatcher::compile(&pattern).unwrap_err(), PatternError::Rejected);
    let mut table: RouteTable<u8> = RouteTable::new();
    assert_eq!(table.register(Method::Get, &pattern, 0).unwrap_err(), PatternError::Rejected);
    assert_eq!(table.len(), 0);
}

#[test]
fn service_builder_rejects_an_aggregate_that_is_too_large() {
    // Each pattern compiles alone; all of them together do not.
    let mut router: Router<usize, u8> = Router::new();
    for i in 0..40 {
        let pattern = format!("/{}-{}", "a".repeat(100_000), i);
        router.add(Method::Get, &pattern, i).unwrap();
    }
    assert_eq!(router.route_count(), 40);
    assert_eq!(RequestServiceBuilder::new(router).err().unwrap(), PatternError::Rejected);
}

#[test]
fn table_without_aggregate_still_finds_routes() {
    let mut table: RouteTable<usize> = RouteTable::new();
    for i in 0..40 {
        let pattern = format!("/{}-{}", "a".repeat(100_000), i);
        table.register(Method::Get, &pattern, i).unwrap();
    }
    assert!(!table.index());
    let path = format!("/{}-{}/", "a".repeat(100_000), 17);
    let accepted = table.acceptance(&path);
    assert_eq!(accepted.iter().filter(|hit| **hit).count(), 1);
    assert!(accepted[17]);
}

#[test]
fn one_evaluation_serves_thousands_of_routes_and_middleware() {
    let mut router: Router<usize, u8> = Router::new();
    for i in 0..3000 {
        router.middleware(Middleware::pre_with_path(&format!("/abc-{}", i), i).unwrap());
        router.add(Method::Get, &format!("/abc-{}", i), i).unwrap();
        router.middleware(Middleware::post_with_path(&format!("/abc-{}", i), i).unwrap());
    }
    router.middleware(Middleware::pre(usize::MAX));
    let slow = router.matches("/abc-2999/");
    let builder = RequestServiceBuilder::new(router).unwrap();
    let fast = builder.router().matches("/abc-2999/");
    assert_eq!(fast.pre, vec![2999, 3000]);
    assert_eq!(fast.post, vec![2999]);
    assert_eq!(fast.accepted.iter().filter(|hit| **hit).count(), 1);
    assert!(fast.accepted[2999]);
    assert_eq!((slow.pre, slow.accepted, slow.post), (fast.pre, fast.accepted, fast.post));

    let service = builder.build(RemoteAddr { ip: IpAddress::V4(0), port: 80 });
    let (mut d, _, first): (_, RequestContext<u8>, _) =
        service.call(Method::Get, "/abc-7", "/abc-7", Vec::new());
    assert_eq!(first, Action::RunPre { index: 7 });
    assert_eq!(d.step(Outcome::Succeeded), Action::RunPre { index: 3000 });
    assert_eq!(d.step(Outcome::Succeeded), Action::RunHandler { route: 7 });
    assert_eq!(d.step(Outcome::Succeeded), Action::RunPost { index: 7, with_info: false });
    assert_eq!(d.step(Outcome::Succeeded), Action::Finish);
    let nothing = builder.router().matches("/nothing/");
    assert_eq!(nothing.pre, vec![3000]);
    assert!(nothing.post.is_empty());
    assert!(nothing.accepted.iter().all(|hit| !*hit));
}
