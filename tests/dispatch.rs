use flua::bridge::{Interchange, NativeValue};
use flua::dispatch::{not_found, respond, route_request, Body, Reply, Worker, WorkerAction, WorkerState};
use flua::registry::Registry;
use flua::routes::{build_routes, plan_handler, HandlerPlan, HandlerSource, RouteError, RouteTable};
use flua::server::{check_compiled, prepare_start, StartError};

fn s(t: &str) -> String {
    t.to_string()
}

fn table_of(names: &[&str]) -> RouteTable {
    let config = names.iter().map(|n| (s(n), HandlerSource::Text(s("1")))).collect();
    match build_routes(config) {
        Ok((t, _)) => t,
        Err(_) => panic!("route table should build"),
    }
}

fn code(p: HandlerPlan) -> (bool, String) {
    match p {
        HandlerPlan::Function(c) => (true, c),
        HandlerPlan::Expression(c) => (false, c),
        _ => panic!("expected a text plan"),
    }
}

#[test]
fn plans_for_handler_text() {
    assert_eq!(code(plan_handler(HandlerSource::Text(s("42")))), (false, s("return (42)")));
    assert_eq!(
        code(plan_handler(HandlerSource::Text(s("  function() return 1 end")))),
        (true, s("  function() return 1 end"))
    );
    assert_eq!(code(plan_handler(HandlerSource::Text(s(" \t\n")))), (false, s("return nil")));
    assert_eq!(code(plan_handler(HandlerSource::Text(s("")))), (false, s("return nil")));
    assert_eq!(
        code(plan_handler(HandlerSource::Text(s("\u{a0}return {a = 1}")))),
        (false, s("\u{a0}return {a = 1}"))
    );
    assert!(matches!(plan_handler(HandlerSource::Invocable), HandlerPlan::Invocable));
    assert!(matches!(
        plan_handler(HandlerSource::Constant(Interchange::Int(5))),
        HandlerPlan::Constant(Interchange::Int(5))
    ));
}

#[test]
fn build_routes_rejects_bad_names() {
    let bad = vec![(s("ok"), HandlerSource::Invocable), (s(""), HandlerSource::Invocable)];
    assert!(matches!(build_routes(bad), Err(RouteError::InvalidName(n)) if n.is_empty()));
    let slash = vec![(s("a/b"), HandlerSource::Invocable)];
    assert!(matches!(build_routes(slash), Err(RouteError::InvalidName(n)) if n == "a/b"));
    let dup = vec![
        (s("x"), HandlerSource::Invocable),
        (s("y"), HandlerSource::Invocable),
        (s("x"), HandlerSource::Invocable),
    ];
    assert!(matches!(build_routes(dup), Err(RouteError::DuplicateName(n)) if n == "x"));
}

#[test]
fn routes_requests_by_path() {
    let t = table_of(&["echo", "time"]);
    assert_eq!(t.len(), 2);
    assert_eq!(route_request(&t, true, "/api/echo"), Some(0));
    assert_eq!(route_request(&t, true, "/api/time"), Some(1));
    assert_eq!(route_request(&t, true, "/api/missing"), None);
    assert_eq!(route_request(&t, false, "/api/echo"), None);
    assert_eq!(route_request(&t, true, "/api/echo/extra"), None);
    assert_eq!(route_request(&t, true, "/echo"), None);
    assert_eq!(route_request(&t, true, "/api/"), None);
    assert_eq!(t.find("time"), Some(1));
    assert_eq!(t.find("nope"), None);
}

#[test]
fn worker_answers_each_request_once() {
    let t = table_of(&["ok", "boom"]);
    let mut w = Worker::new();
    assert_eq!(w.state(), WorkerState::Idle);

    match w.on_request(&t, "boom") {
        WorkerAction::Invoke(i) => assert_eq!(i, 1),
        _ => panic!("known route is invoked"),
    }
    assert_eq!(w.state(), WorkerState::Executing(1));
    let r = w.on_outcome(Err(s("runtime error: boom")));
    assert!(matches!(&r, Err(m) if m.contains("boom")));
    assert_eq!(w.state(), WorkerState::Idle);
    let resp = respond(Reply::Answered(r));
    assert_eq!(resp.status, 500);
    assert!(matches!(resp.body, Body::Text(m) if m.contains("boom")));

    match w.on_request(&t, "ok") {
        WorkerAction::Invoke(i) => assert_eq!(i, 0),
        _ => panic!("known route is invoked"),
    }
    let r = w.on_outcome(Ok(NativeValue::Integer(7)));
    let resp = respond(Reply::Answered(r));
    assert_eq!(resp.status, 200);
    assert!(matches!(resp.body, Body::Json(Interchange::Int(7))));

    match w.on_request(&t, "gone") {
        WorkerAction::Reply(Err(m)) => assert_eq!(m, "route not found"),
        _ => panic!("unknown route is answered at once"),
    }
    assert_eq!(w.state(), WorkerState::Idle);
    w.on_close();
    assert_eq!(w.state(), WorkerState::Stopped);
}

#[test]
fn unconvertible_result_is_an_error() {
    let t = table_of(&["f"]);
    let mut w = Worker::new();
    let _ = w.on_request(&t, "f");
    let r = w.on_outcome(Ok(NativeValue::Opaque(s("function"))));
    assert_eq!(r.err(), Some(s("handler returned a value of an unsupported type")));
}

#[test]
fn fixed_responses() {
    let nf = not_found();
    assert_eq!(nf.status, 404);
    assert!(matches!(nf.body, Body::Text(m) if m == "Not found"));
    let gone = respond(Reply::Unavailable);
    assert_eq!(gone.status, 500);
    assert!(matches!(gone.body, Body::Text(m) if m == "execution unavailable"));
}

#[test]
fn registry_one_instance_per_port() {
    let mut r: Registry<&str> = Registry::new();
    assert_eq!(r.start(8080, "a"), Ok(()));
    assert_eq!(r.start(8081, "b"), Ok(()));
    assert_eq!(r.start(8080, "c"), Err("c"));
    assert!(r.is_running(8080));
    assert_eq!(r.stop(8080), Some("a"));
    assert!(!r.is_running(8080));
    assert!(r.is_running(8081));
    assert_eq!(r.stop(8080), None);
    assert_eq!(r.stop(8081), Some("b"));
}

#[test]
fn start_checks() {
    let mut reg: Registry<u8> = Registry::new();
    let _ = reg.start(9000, 1);
    let cfg = vec![(s("a"), HandlerSource::Invocable)];
    assert!(matches!(prepare_start(&reg, 9000, cfg), Err(StartError::PortInUse)));
    let cfg = vec![(s(""), HandlerSource::Invocable)];
    assert!(matches!(prepare_start(&reg, 9001, cfg), Err(StartError::Route(RouteError::InvalidName(_)))));
    let cfg = vec![(s("a"), HandlerSource::Invocable), (s("b"), HandlerSource::Text(s("1 +")))];
    let (t, plans) = match prepare_start(&reg, 9001, cfg) {
        Ok(x) => x,
        Err(_) => panic!("valid configuration"),
    };
    assert_eq!(plans.len(), 2);
    assert!(check_compiled(&t, vec![Ok(()), Ok(())]).is_ok());
    match check_compiled(&t, vec![Ok(()), Err(s("syntax error"))]) {
        Err(StartError::Compile(route, diag)) => {
            assert_eq!(route, "b");
            assert_eq!(diag, "syntax error");
        }
        _ => panic!("compile failure is reported"),
    }
    let e = StartError::Compile(s("b"), s("syntax error"));
    assert_eq!(e.message(), "failed to compile handler for route 'b': syntax error");
}

#[test]
fn echo_server_scenario() {
    let mut reg: Registry<()> = Registry::new();
    let cfg = vec![(s("echo"), HandlerSource::Text(s("42")))];
    let (t, mut plans) = match prepare_start(&reg, 8099, cfg) {
        Ok(x) => x,
        Err(_) => panic!("server starts"),
    };
    assert!(matches!(plans.remove(0), HandlerPlan::Expression(c) if c == "return (42)"));
    assert!(check_compiled(&t, vec![Ok(())]).is_ok());
    assert_eq!(reg.start(8099, ()), Ok(()));

    let mut w = Worker::new();
    let i = route_request(&t, true, "/api/echo").expect("echo is routed");
    let name = t.name(i).clone();
    match w.on_request(&t, &name) {
        WorkerAction::Invoke(k) => assert_eq!(k, i),
        _ => panic!("echo is invoked"),
    }
    let resp = respond(Reply::Answered(w.on_outcome(Ok(NativeValue::Integer(42)))));
    assert_eq!(resp.status, 200);
    assert!(matches!(resp.body, Body::Json(Interchange::Int(42))));

    assert_eq!(route_request(&t, true, "/api/missing"), None);
    assert_eq!(not_found().status, 404);

    assert_eq!(reg.stop(8099), Some(()));
    assert!(!reg.is_running(8099));
}
