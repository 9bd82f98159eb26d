use routerify::Action;
use routerify::Dispatch;
use routerify::Failure;
use routerify::IpAddress;
use routerify::Lookup;
use routerify::Method;
use routerify::Middleware;
use routerify::Outcome;
use routerify::RemoteAddr;
use routerify::RequestContext;
use routerify::RequestService;
use routerify::RequestServiceBuilder;
use routerify::RouteError;
use routerify::RouteParams;
use routerify::Router;
use routerify::Stage;
use std::time::Duration;
use std::time::Instant;

type Handler = fn(&RouteParams) -> String;

fn peer() -> RemoteAddr {
    RemoteAddr { ip: IpAddress::V4(0x7f00_0001), port: 3001 }
}

fn home(_: &RouteParams) -> String {
    "home".to_string()
}

fn user(params: &RouteParams) -> String {
    format!("user:{}", params.get("name").unwrap())
}

/// Takes a request in whose stages share nothing.
fn open<'a, H, D>(
    service: &RequestService<'a, H, D>,
    method: Method,
    path: &str,
) -> (Dispatch<'a, H, D>, Action) {
    let (dispatch, context, first): (_, RequestContext<u8>, _) =
        service.call(method, path, path, Vec::new());
    assert_eq!(context.len(), 0);
    (dispatch, first)
}

/// Feeds `outcomes` to a dispatch that opened with `first`, and lists
/// every action asked for.
fn drive<H, D>(
    mut dispatch: Dispatch<H, D>,
    first: Action,
    outcomes: &[Outcome],
) -> (Vec<Action>, Stage) {
    let mut actions = vec![first];
    for outcome in outcomes {
        actions.push(dispatch.step(*outcome));
    }
    (actions, dispatch.current_stage())
}

fn named(pre: usize, post: usize, with_info: usize) -> Router<&'static str, u8> {
    let mut r = Router::new();
    for _ in 0..pre {
        r.middleware(Middleware::pre("pre"));
    }
    for _ in 0..post {
        r.middleware(Middleware::post("post"));
    }
    for _ in 0..with_info {
        r.middleware(Middleware::post_with_info("post-info"));
    }
    r.add(Method::Get, "/", "home").unwrap();
    r.add(Method::Get, "/about", "about").unwrap();
    r
}

const OK: Outcome = Outcome::Succeeded;
const FAIL: Outcome = Outcome::Failed;

#[test]
fn scenario_home_user_and_missing() {
    let mut router: Router<Handler, u8> = Router::new();
    router.add(Method::Get, "/", home).unwrap();
    router.add(Method::Get, "/users/:name", user).unwrap();
    let builder = RequestServiceBuilder::new(router).unwrap();
    let service = builder.build(peer());

    // GET /users/alice is answered by the second route with "user:alice".
    let (mut d, action) = open(&service, Method::Get, "/users/alice");
    assert_eq!(action, Action::RunHandler { route: 1 });
    let body = match d.lookup().unwrap() {
        Lookup::Found { index, params } => (service.router().route(*index).handler())(params),
        other => panic!("unexpected {:?}", other),
    };
    assert_eq!(body, "user:alice");
    assert_eq!(d.step(OK), Action::Finish);
    assert!(d.is_resolved());

    // GET / is answered by the first.
    let (d, action) = open(&service, Method::Get, "/");
    assert_eq!(action, Action::RunHandler { route: 0 });
    match d.lookup().unwrap() {
        Lookup::Found { index, params } => {
            assert_eq!((service.router().route(*index).handler())(params), "home")
        }
        other => panic!("unexpected {:?}", other),
    }

    // POST /users/alice is known, but not under POST.
    let (d, action) = open(&service, Method::Post, "/users/alice");
    assert_eq!(action, Action::RespondMethodNotAllowed);
    assert!(d.is_resolved());
    match d.lookup().unwrap() {
        Lookup::MethodNotAllowed { allowed } => assert_eq!(allowed, &vec![Method::Get]),
        other => panic!("unexpected {:?}", other),
    }

    // GET /missing is not known.
    let (d, action) = open(&service, Method::Get, "/missing");
    assert_eq!(action, Action::RespondNotFound);
    assert!(d.is_resolved());
    assert!(matches!(d.lookup().unwrap(), Lookup::NotFound));
}

#[test]
fn pipeline_runs_pre_then_handler_then_post() {
    let builder = RequestServiceBuilder::new(named(2, 1, 1)).unwrap();
    let service = builder.build(peer());
    let (d, first) = open(&service, Method::Get, "/about");
    assert_eq!(d.current_stage(), Stage::PreChain { position: 0 });
    assert!(d.lookup().is_none());
    let (actions, stage) = drive(d, first, &[OK, OK, OK, OK, OK, OK]);
    assert_eq!(
        actions,
        vec![
            Action::RunPre { index: 0 },
            Action::RunPre { index: 1 },
            Action::RunHandler { route: 1 },
            Action::RunPost { index: 0, with_info: false },
            Action::RunPost { index: 1, with_info: true },
            Action::Finish,
            Action::Finish,
        ]
    );
    assert_eq!(stage, Stage::Resolved);
}

#[test]
fn pipeline_rests_at_each_stage() {
    let builder = RequestServiceBuilder::new(named(1, 1, 0)).unwrap();
    let service = builder.build(peer());
    let (mut d, _) = open(&service, Method::Get, "/");
    assert_eq!(d.current_stage(), Stage::PreChain { position: 0 });
    d.step(OK);
    assert_eq!(d.current_stage(), Stage::Handle { route: 0 });
    assert!(d.lookup().is_some());
    d.step(OK);
    assert_eq!(d.current_stage(), Stage::PostChain { position: 0 });
    d.step(OK);
    assert_eq!(d.current_stage(), Stage::Resolved);
    assert_eq!(d.method(), Method::Get);
    assert_eq!(d.path().unwrap(), "/");
}

#[test]
fn pre_failure_skips_the_rest_of_the_pipeline() {
    // The second of three pre-middleware fails.
    for handler in [false, true] {
        let mut router = named(3, 2, 0);
        if handler {
            router.err_handler("errors");
        }
        let builder = RequestServiceBuilder::new(router).unwrap();
        let service = builder.build(peer());
        let (d, first) = open(&service, Method::Get, "/");
        let (actions, stage) = drive(d, first, &[OK, FAIL, OK, OK, OK]);
        let cause = Failure::PreMiddleware { index: 1 };
        let after = if handler {
            Action::RunErrorHandler { cause, with_info: false }
        } else {
            Action::RespondDefaultError { cause }
        };
        assert_eq!(
            actions,
            vec![
                Action::RunPre { index: 0 },
                Action::RunPre { index: 1 },
                after,
                Action::Finish,
                Action::Finish,
                Action::Finish,
            ]
        );
        assert_eq!(stage, Stage::Resolved);
    }
}

#[test]
fn unknown_path_gets_the_default_not_found() {
    let mut router = named(1, 2, 0);
    router.err_handler("errors");
    let builder = RequestServiceBuilder::new(router).unwrap();
    let service = builder.build(peer());
    let (d, first) = open(&service, Method::Get, "/missing");
    let (actions, stage) = drive(d, first, &[OK, OK]);
    assert_eq!(
        actions,
        vec![Action::RunPre { index: 0 }, Action::RespondNotFound, Action::Finish]
    );
    assert_eq!(stage, Stage::Resolved);
}

#[test]
fn unknown_path_gets_the_configured_fallback() {
    let mut router = named(1, 2, 0);
    router.any("handler-404");
    router.err_handler("errors");
    let builder = RequestServiceBuilder::new(router).unwrap();
    let service = builder.build(peer());
    assert_eq!(service.router().fallback(), Some(&"handler-404"));
    let (d, first) = open(&service, Method::Get, "/missing");
    let (actions, stage) = drive(d, first, &[OK, OK, OK]);
    assert_eq!(
        actions,
        vec![Action::RunPre { index: 0 }, Action::RunFallback, Action::Finish, Action::Finish]
    );
    assert_eq!(stage, Stage::Resolved);
}

#[test]
fn failing_fallback_goes_to_the_error_handler() {
    let mut router = named(0, 1, 0);
    router.any("handler-404");
    router.err_handler("errors");
    let builder = RequestServiceBuilder::new(router).unwrap();
    let service = builder.build(peer());
    let (d, first) = open(&service, Method::Get, "/missing");
    assert_eq!(d.current_stage(), Stage::Fallback);
    let (actions, _) = drive(d, first, &[FAIL, OK]);
    assert_eq!(
        actions,
        vec![
            Action::RunFallback,
            Action::RunErrorHandler { cause: Failure::Fallback, with_info: false },
            Action::Finish,
        ]
    );
}

#[test]
fn options_is_answered_without_the_get_handler() {
    let builder = RequestServiceBuilder::new(named(1, 1, 0)).unwrap();
    let service = builder.build(peer());
    let (d, first) = open(&service, Method::Options, "/about");
    let (actions, stage) = drive(d, first, &[OK, OK]);
    assert_eq!(
        actions,
        vec![Action::RunPre { index: 0 }, Action::RespondAllowed, Action::Finish]
    );
    assert_eq!(stage, Stage::Resolved);
}

#[test]
fn options_names_the_methods_of_the_path() {
    let mut router: Router<&'static str, u8> = Router::new();
    router.add(Method::Get, "/things/:id", "get").unwrap();
    router.add(Method::Delete, "/things/:id", "delete").unwrap();
    router.add(Method::Get, "/things/*", "all").unwrap();
    router.add(Method::Post, "/other", "post").unwrap();
    let builder = RequestServiceBuilder::new(router).unwrap();
    let service = builder.build(peer());
    let (d, first) = open(&service, Method::Options, "/things/7");
    assert_eq!(first, Action::RespondAllowed);
    match d.lookup().unwrap() {
        Lookup::MethodNotAllowed { allowed } => {
            assert_eq!(allowed, &vec![Method::Get, Method::Delete])
        }
        other => panic!("unexpected {:?}", other),
    }
}

#[test]
fn explicit_options_route_is_handled_like_any_other() {
    let mut router = named(0, 0, 0);
    router.add(Method::Options, "/about", "options").unwrap();
    let builder = RequestServiceBuilder::new(router).unwrap();
    let service = builder.build(peer());
    let (_, first) = open(&service, Method::Options, "/about");
    assert_eq!(first, Action::RunHandler { route: 2 });
    // On an unknown path OPTIONS is not found like any other method.
    let (_, first) = open(&service, Method::Options, "/nowhere");
    assert_eq!(first, Action::RespondNotFound);
}

#[test]
fn handler_failure_skips_the_post_chain() {
    let mut router = named(0, 2, 0);
    router.err_handler_with_info("errors");
    let builder = RequestServiceBuilder::new(router).unwrap();
    let service = builder.build(peer());
    let (d, first) = open(&service, Method::Get, "/");
    assert!(d.info().is_some());
    let (actions, stage) = drive(d, first, &[FAIL, OK]);
    assert_eq!(
        actions,
        vec![
            Action::RunHandler { route: 0 },
            Action::RunErrorHandler { cause: Failure::Handler { route: 0 }, with_info: true },
            Action::Finish,
        ]
    );
    assert_eq!(stage, Stage::Resolved);
}

#[test]
fn post_failure_goes_to_the_error_handler() {
    let mut router = named(0, 3, 0);
    router.err_handler("errors");
    let builder = RequestServiceBuilder::new(router).unwrap();
    let service = builder.build(peer());
    let (d, first) = open(&service, Method::Get, "/");
    let (actions, _) = drive(d, first, &[OK, OK, FAIL, OK]);
    assert_eq!(
        actions,
        vec![
            Action::RunHandler { route: 0 },
            Action::RunPost { index: 0, with_info: false },
            Action::RunPost { index: 1, with_info: false },
            Action::RunErrorHandler {
                cause: Failure::PostMiddleware { index: 1 },
                with_info: false
            },
            Action::Finish,
        ]
    );
}

#[test]
fn failing_error_handler_is_masked_by_the_default_response() {
    let mut router = named(0, 0, 0);
    router.err_handler("errors");
    let builder = RequestServiceBuilder::new(router).unwrap();
    let service = builder.build(peer());
    let (d, first) = open(&service, Method::Get, "/");
    let (actions, stage) = drive(d, first, &[FAIL, FAIL, FAIL]);
    assert_eq!(
        actions,
        vec![
            Action::RunHandler { route: 0 },
            Action::RunErrorHandler { cause: Failure::Handler { route: 0 }, with_info: false },
            Action::RespondDefaultError { cause: Failure::ErrorHandler },
            Action::Finish,
        ]
    );
    assert_eq!(stage, Stage::Resolved);
}

#[test]
fn path_is_percent_decoded_before_matching() {
    let mut router: Router<&'static str, u8> = Router::new();
    router.add(Method::Get, "/caf\u{e9}/:what", "cafe").unwrap();
    let builder = RequestServiceBuilder::new(router).unwrap();
    let service = builder.build(peer());
    let (d, first) = open(&service, Method::Get, "/caf%C3%A9/a%20b");
    assert_eq!(first, Action::RunHandler { route: 0 });
    assert_eq!(d.path().unwrap(), "/caf\u{e9}/a b/");
    match d.lookup().unwrap() {
        Lookup::Found { params, .. } => assert_eq!(params.get("what").unwrap(), "a b"),
        other => panic!("unexpected {:?}", other),
    }
    // A percent sign that no two hexadecimal digits follow stands for itself.
    let (d, _, _): (_, RequestContext<u8>, _) =
        service.call(Method::Get, "/x", "/100%/%zz/%4", Vec::new());
    assert_eq!(d.path().unwrap(), "/100%/%zz/%4/");
    // Digits of either case are read.
    let (d, _, _): (_, RequestContext<u8>, _) =
        service.call(Method::Get, "/x", "/%2f%2F%41", Vec::new());
    assert_eq!(d.path().unwrap(), "///A/");
}

#[test]
fn undecodable_path_goes_straight_to_error_handling() {
    // Without a handler: the default response.
    let builder = RequestServiceBuilder::new(named(2, 1, 0)).unwrap();
    let service = builder.build(peer());
    let (d, first) = open(&service, Method::Get, "/%FF");
    assert_eq!(first, Action::RespondDefaultError { cause: Failure::Decode });
    assert!(d.is_resolved());
    assert!(d.path().is_none());
    assert!(d.info().is_none());
    assert!(d.lookup().is_none());

    // With a handler that takes the error alone: the handler, without a snapshot.
    let mut router = named(2, 1, 0);
    router.err_handler("errors");
    let builder = RequestServiceBuilder::new(router).unwrap();
    let service = builder.build(peer());
    let (d, first) = open(&service, Method::Get, "/%C3");
    assert_eq!(d.current_stage(), Stage::ErrorHandle);
    let (actions, stage) = drive(d, first, &[OK, OK]);
    assert_eq!(
        actions,
        vec![
            Action::RunErrorHandler { cause: Failure::Decode, with_info: false },
            Action::Finish,
            Action::Finish,
        ]
    );
    assert_eq!(stage, Stage::Resolved);

    // With a handler that wants a snapshot, which does not exist yet: the default.
    let mut router = named(2, 1, 0);
    router.err_handler_with_info("errors");
    let builder = RequestServiceBuilder::new(router).unwrap();
    let service = builder.build(peer());
    let (_, first) = open(&service, Method::Get, "/%FF");
    assert_eq!(first, Action::RespondDefaultError { cause: Failure::Decode });
}

#[test]
fn snapshot_is_taken_only_when_a_stage_asks_for_it() {
    let headers = vec![("cookie".to_string(), "k=v".to_string())];
    let builder = RequestServiceBuilder::new(named(1, 1, 0)).unwrap();
    let service = builder.build(peer());
    assert!(!service.router().should_gen_req_info());
    let (d, _, _): (_, RequestContext<u8>, _) =
        service.call(Method::Get, "/?q=1", "/", headers.clone());
    assert!(d.info().is_none());

    let builder = RequestServiceBuilder::new(named(1, 1, 1)).unwrap();
    let service = builder.build(peer());
    assert!(service.router().should_gen_req_info());
    assert_eq!(service.remote_addr(), peer());
    let (d, _, _): (_, RequestContext<u8>, _) =
        service.call(Method::Get, "/?q=1", "/", headers.clone());
    let info = d.info().unwrap();
    assert_eq!(info.method(), Method::Get);
    assert_eq!(info.uri(), "/?q=1");
    assert_eq!(info.remote_addr(), peer());
    assert_eq!(info.header("cookie").unwrap(), "k=v");
}

const STARTED: u64 = 42;

#[test]
fn scenario_request_duration() {
    let mut router: Router<&'static str, u8> = Router::new();
    router.add(Method::Get, "/", "hello").unwrap();
    router.middleware(Middleware::pre("before"));
    router.middleware(Middleware::post_with_info("after"));
    let builder = RequestServiceBuilder::new(router).unwrap();
    let service = builder.build(peer());

    let (mut d, mut context, action): (_, RequestContext<Instant>, _) =
        service.call(Method::Get, "/", "/", Vec::new());
    assert!(context.get(STARTED).is_none());
    // The pre-middleware stores the time at which the request came in.
    assert_eq!(action, Action::RunPre { index: 0 });
    assert!(context.set(STARTED, Instant::now()).is_none());
    assert_eq!(d.step(OK), Action::RunHandler { route: 0 });
    // The post-middleware is handed the snapshot, reads the time, and measures.
    assert_eq!(d.step(OK), Action::RunPost { index: 0, with_info: true });
    let info = d.info().unwrap();
    assert_eq!(info.method(), Method::Get);
    let started = context.get(STARTED).unwrap();
    let duration = started.elapsed();
    assert!(duration >= Duration::ZERO);
    assert_eq!(d.step(OK), Action::Finish);
}

#[derive(Debug, PartialEq)]
enum ApiError {
    Unauthorized,
    Generic(String),
}

const API_ERROR: u64 = 7;

fn status_of(err: RouteError<ApiError>) -> (u16, String) {
    match err.downcast(API_ERROR) {
        Ok(ApiError::Unauthorized) => (401, String::new()),
        Ok(ApiError::Generic(s)) => (500, s),
        Err(_) => (500, "Internal Server Error".to_string()),
    }
}

#[test]
fn scenario_custom_error_is_recovered_by_the_error_handler() {
    let mut router: Router<&'static str, u8> = Router::new();
    router.add(Method::Get, "/", "home").unwrap();
    router.add(Method::Get, "/private", "private").unwrap();
    router.err_handler("error_handler");
    let builder = RequestServiceBuilder::new(router).unwrap();
    let service = builder.build(peer());

    let (mut d, action) = open(&service, Method::Get, "/");
    assert_eq!(action, Action::RunHandler { route: 0 });
    // The handler fails with a value of its own error type.
    let raised = ApiError::Generic("Something went wrong!".to_string());
    let cause = match d.step(FAIL) {
        Action::RunErrorHandler { cause, with_info: false } => cause,
        other => panic!("unexpected {:?}", other),
    };
    assert_eq!(cause, Failure::Handler { route: 0 });
    let err = RouteError::new(cause, API_ERROR, raised);
    assert_eq!(status_of(err), (500, "Something went wrong!".to_string()));
    assert_eq!(d.step(OK), Action::Finish);

    let (mut d, _) = open(&service, Method::Get, "/private");
    let cause = match d.step(FAIL) {
        Action::RunErrorHandler { cause, .. } => cause,
        other => panic!("unexpected {:?}", other),
    };
    assert_eq!(status_of(RouteError::new(cause, API_ERROR, ApiError::Unauthorized)), (401, String::new()));
}

#[test]
fn building_twice_gives_the_same_dispatch() {
    let outcomes = [
        vec![OK, OK, OK, OK, OK, OK],
        vec![OK, FAIL, OK, OK],
        vec![FAIL, FAIL],
        vec![OK, OK, OK, FAIL, OK],
    ];
    let requests = [
        (Method::Get, "/"),
        (Method::Get, "/about"),
        (Method::Post, "/about"),
        (Method::Options, "/about"),
        (Method::Get, "/missing"),
        (Method::Get, "/%FF"),
    ];
    let build = || {
        let mut router = named(2, 1, 1);
        router.err_handler_with_info("errors");
        RequestServiceBuilder::new(router).unwrap()
    };
    let (a, b) = (build(), build());
    for (method, path) in requests {
        for run in &outcomes {
            let (da, fa) = open(&a.build(peer()), method, path);
            let (db, fb) = open(&b.build(peer()), method, path);
            assert_eq!(drive(da, fa, run), drive(db, fb, run));
        }
    }
}

#[test]
fn path_anchored_middleware_runs_only_on_its_path() {
    let mut router: Router<&'static str, u8> = Router::new();
    router.middleware(Middleware::pre_with_path("/abc-1", "pre-1").unwrap());
    router.middleware(Middleware::pre_with_path("/abc-2", "pre-2").unwrap());
    router.middleware(Middleware::post_with_info_with_path("/abc-2", "post-2").unwrap());
    router.add(Method::Get, "/abc-1", "one").unwrap();
    router.add(Method::Get, "/abc-2", "two").unwrap();
    let builder = RequestServiceBuilder::new(router).unwrap();
    let service = builder.build(peer());
    let (d, first) = open(&service, Method::Get, "/abc-2");
    let (actions, _) = drive(d, first, &[OK, OK, OK]);
    assert_eq!(
        actions,
        vec![
            Action::RunPre { index: 1 },
            Action::RunHandler { route: 1 },
            Action::RunPost { index: 0, with_info: true },
            Action::Finish,
        ]
    );
    let (d, first) = open(&service, Method::Get, "/abc-1");
    let (actions, _) = drive(d, first, &[OK, OK]);
    assert_eq!(
        actions,
        vec![Action::RunPre { index: 0 }, Action::RunHandler { route: 0 }, Action::Finish]
    );
}

#[test]
fn cancelled_request_asks_for_no_more_stages() {
    let builder = RequestServiceBuilder::new(named(2, 2, 0)).unwrap();
    let service = builder.build(peer());
    let (mut d, first) = open(&service, Method::Get, "/");
    assert_eq!(first, Action::RunPre { index: 0 });
    d.cancel();
    assert!(d.is_resolved());
    assert_eq!(d.step(OK), Action::Finish);
    assert_eq!(d.step(FAIL), Action::Finish);
    assert_eq!(d.current_stage(), Stage::Resolved);
}
