use travel_agent::orchestrator::{
    order_results, Action, Completion, Event, Fragment, Orchestrator, Phase, SessionError,
};
use travel_agent::registry::{Registry, ToolKind};
use travel_agent::session::{Arg, Part, Role, Session, ToolCall, ToolOutcome, ToolResult, Turn};

fn call(id: u64, name: &str, args: &[(&str, &str)]) -> ToolCall {
    ToolCall {
        id,
        name: name.to_string(),
        args: args
            .iter()
            .map(|(k, v)| Arg { key: k.to_string(), value: v.to_string() })
            .collect(),
    }
}

fn ok(id: u64, payload: &str) -> ToolResult {
    ToolResult { call_id: id, outcome: ToolOutcome::Success(payload.to_string()) }
}

fn failed(id: u64, message: &str) -> ToolResult {
    ToolResult { call_id: id, outcome: ToolOutcome::Failure(message.to_string()) }
}

fn user_session(text: &str, max: usize) -> Session {
    let mut s = Session::new(max);
    s.push_user_text(text.to_string());
    s
}

fn result_ids(turn: &Turn) -> Vec<u64> {
    turn.parts
        .iter()
        .filter_map(|p| match p {
            Part::Result(r) => Some(r.call_id),
            _ => None,
        })
        .collect()
}

#[test]
fn results_follow_call_order() {
    let calls = vec![call(1, "a", &[]), call(2, "b", &[]), call(3, "c", &[])];
    // c2 completes first, c1 last
    let done = vec![ok(2, "two"), ok(3, "three"), ok(1, "one")];
    let r = order_results(&calls, &done);
    let ids: Vec<u64> = r.iter().map(|x| x.call_id).collect();
    assert_eq!(ids, vec![1, 2, 3]);
    match &r[0].outcome {
        ToolOutcome::Success(p) => assert_eq!(p, "one"),
        _ => panic!("expected success"),
    }
}

#[test]
fn unanswered_call_is_an_error() {
    let calls = vec![call(1, "a", &[]), call(2, "b", &[])];
    let r = order_results(&calls, &vec![ok(1, "x")]);
    assert_eq!(r.len(), 2);
    match &r[1].outcome {
        ToolOutcome::Failure(m) => assert_eq!(m, "no result was reported for this call"),
        _ => panic!("expected failure"),
    }
}

#[test]
fn partial_failure_still_appends_results() {
    let mut o = Orchestrator::start(user_session("plan", 10), 5).unwrap();
    for c in [call(1, "a", &[]), call(2, "b", &[]), call(3, "c", &[])] {
        o.step(Event::Fragment(Fragment::Call(c)));
    }
    match o.step(Event::StreamEnd) {
        Action::RunTools(calls) => assert_eq!(calls.len(), 3),
        other => panic!("unexpected {:?}", other),
    }
    let a = o.step(Event::ToolsDone(vec![failed(2, "boom"), ok(3, "c"), ok(1, "a")]));
    assert!(matches!(a, Action::CallModel));
    assert_eq!(o.phase(), Phase::Streaming);
    let turns = o.session().turns();
    let last = &turns[turns.len() - 1];
    assert_eq!(last.role, Role::Tool);
    assert_eq!(result_ids(last), vec![1, 2, 3]);
    match &last.parts[1] {
        Part::Result(r) => assert!(matches!(&r.outcome, ToolOutcome::Failure(m) if m == "boom")),
        _ => panic!("expected a result"),
    }
}

#[test]
fn no_tools_means_one_model_call() {
    let mut o = Orchestrator::start(user_session("hello", 10), 3).unwrap();
    assert_eq!(o.model_calls(), 1);
    o.step(Event::Fragment(Fragment::Text("Hi".to_string())));
    o.step(Event::Fragment(Fragment::Text(" there".to_string())));
    let a = o.step(Event::StreamEnd);
    assert!(matches!(a, Action::Finish(Completion::Finished)));
    assert_eq!(o.phase(), Phase::Terminal);
    assert_eq!(o.model_calls(), 1);
    assert_eq!(o.session().len(), 2);
}

#[test]
fn resolution_limit_stops_a_model_that_always_calls_tools() {
    let limit: u32 = 2;
    let mut o = Orchestrator::start(user_session("loop", 20), limit).unwrap();
    let mut finished = None;
    let mut id = 0;
    while finished.is_none() {
        id += 1;
        o.step(Event::Fragment(Fragment::Call(call(id, "a", &[]))));
        match o.step(Event::StreamEnd) {
            Action::RunTools(_) => {
                assert!(matches!(o.step(Event::ToolsDone(vec![ok(id, "x")])), Action::CallModel));
            }
            Action::Finish(c) => finished = Some(c),
            other => panic!("unexpected {:?}", other),
        }
    }
    assert!(matches!(finished, Some(Completion::LimitExceeded)));
    assert_eq!(o.rounds(), limit);
    assert_eq!(o.model_calls(), limit as u64 + 1);
    // the last request is answered with the limit error, so the session can be resumed
    let turns = o.session().turns();
    let last = &turns[turns.len() - 1];
    assert_eq!(last.role, Role::Tool);
    assert_eq!(result_ids(last), vec![id]);
    assert!(matches!(&last.parts[0], Part::Result(r)
        if matches!(&r.outcome, ToolOutcome::Failure(m) if m == "resolution limit exceeded")));
    assert!(o.session().is_consistent());
    let mut resumed = o.into_session();
    resumed.push_user_text("try again".to_string());
    assert!(Orchestrator::start(resumed, limit).is_ok());
}

#[test]
fn zero_limit_stops_at_first_request() {
    let mut o = Orchestrator::start(user_session("x", 5), 0).unwrap();
    o.step(Event::Fragment(Fragment::Call(call(1, "a", &[]))));
    assert!(matches!(o.step(Event::StreamEnd), Action::Finish(Completion::LimitExceeded)));
}

#[test]
fn fragments_are_forwarded_in_order() {
    let mut o = Orchestrator::start(user_session("x", 5), 1).unwrap();
    let mut seen = Vec::new();
    for t in ["a", "b", "c", "b"] {
        match o.step(Event::Fragment(Fragment::Text(t.to_string()))) {
            Action::Emit(Fragment::Text(s)) => seen.push(s),
            other => panic!("unexpected {:?}", other),
        }
    }
    assert_eq!(seen, vec!["a", "b", "c", "b"]);
    let recorded: Vec<&str> = o
        .emitted()
        .iter()
        .map(|f| match f {
            Fragment::Text(s) => s.as_str(),
            Fragment::Call(_) => "",
        })
        .collect();
    assert_eq!(recorded, vec!["a", "b", "c", "b"]);
    o.step(Event::StreamEnd);
    let turns = o.session().turns();
    let texts: Vec<&str> = turns[1]
        .parts
        .iter()
        .map(|p| match p {
            Part::Text(s) => s.as_str(),
            _ => "",
        })
        .collect();
    assert_eq!(texts, vec!["a", "b", "c", "b"]);
}

#[test]
fn end_to_end_flight_scenario() {
    let mut o =
        Orchestrator::start(user_session("flights from A to B on day D", 10), 5).unwrap();
    let request = call(
        7,
        "flights_between",
        &[
            ("source", "\"AAA\""),
            ("destination", "\"BBB\""),
            ("least_departure", "{\"year\":2025,\"month\":10,\"day\":4}"),
            ("adult_count", "1"),
            ("currency_code", "\"INR\""),
        ],
    );
    let mut emitted = 0;
    if let Action::Emit(_) = o.step(Event::Fragment(Fragment::Call(request))) {
        emitted += 1;
    }
    let calls = match o.step(Event::StreamEnd) {
        Action::RunTools(calls) => calls,
        other => panic!("unexpected {:?}", other),
    };
    assert_eq!(calls.len(), 1);
    assert_eq!(Registry::standard().resolve(&calls[0]), Ok(ToolKind::FlightsBetween));
    let a = o.step(Event::ToolsDone(vec![ok(7, "[{\"offer\":1},{\"offer\":2}]")]));
    assert!(matches!(a, Action::CallModel));
    if let Action::Emit(_) = o.step(Event::Fragment(Fragment::Text("Two offers.".to_string()))) {
        emitted += 1;
    }
    assert!(matches!(o.step(Event::StreamEnd), Action::Finish(Completion::Finished)));
    assert!(emitted > 0);
    assert_eq!(o.emitted().len(), 2);
    let (session, fragments) = o.into_parts();
    assert!(matches!(&fragments[0], Fragment::Call(c) if c.id == 7 && c.name == "flights_between"));
    assert!(matches!(&fragments[1], Fragment::Text(t) if t == "Two offers."));
    let roles: Vec<Role> = session.turns().iter().map(|t| t.role).collect();
    assert_eq!(roles, vec![Role::User, Role::Agent, Role::Tool, Role::Agent]);
    assert!(session.is_consistent());
}

#[test]
fn model_failure_keeps_the_session() {
    let mut o = Orchestrator::start(user_session("x", 5), 1).unwrap();
    o.step(Event::Fragment(Fragment::Text("partial".to_string())));
    let a = o.step(Event::ModelFailed("connection reset".to_string()));
    assert!(matches!(a, Action::Finish(Completion::ModelFailed(m)) if m == "connection reset"));
    assert_eq!(o.phase(), Phase::Terminal);
    assert_eq!(o.session().len(), 1);
}

#[test]
fn events_out_of_phase_are_refused() {
    let o = Orchestrator::start(user_session("x", 5), 1).unwrap();
    assert!(!o.accepts(&Event::ToolsDone(vec![])));
    assert!(o.accepts(&Event::StreamEnd));
}

#[test]
fn start_refuses_bad_sessions() {
    assert_eq!(Orchestrator::start(Session::new(5), 1).err(), Some(SessionError::Empty));
    let mut s = user_session("x", 5);
    s.append(Turn { role: Role::Agent, parts: vec![Part::Text("hi".into())], pending: false });
    assert_eq!(Orchestrator::start(s, 1).err(), Some(SessionError::EndsWithAgentTurn));
    let mut s = user_session("x", 5);
    s.append(Turn { role: Role::Agent, parts: vec![Part::Call(call(1, "a", &[]))], pending: false });
    s.push_user_text("again".to_string());
    assert_eq!(Orchestrator::start(s, 1).err(), Some(SessionError::Inconsistent));
}

#[test]
fn session_evicts_oldest_first() {
    let mut s = Session::new(2);
    s.push_user_text("one".into());
    s.push_user_text("two".into());
    s.push_user_text("three".into());
    assert_eq!(s.len(), 2);
    match &s.turns()[0].parts[0] {
        Part::Text(t) => assert_eq!(t, "two"),
        _ => panic!("expected text"),
    }
    let mut z = Session::new(0);
    z.push_user_text("gone".into());
    assert_eq!(z.len(), 0);
}

#[test]
fn session_consistency() {
    let mut s = user_session("x", 10);
    s.append(Turn { role: Role::Agent, parts: vec![Part::Call(call(4, "a", &[]))], pending: false });
    assert!(s.is_consistent());
    s.append(Turn { role: Role::Tool, parts: vec![Part::Result(ok(5, "wrong id"))], pending: false });
    assert!(!s.is_consistent());
    let mut t = user_session("x", 10);
    t.append(Turn { role: Role::Agent, parts: vec![Part::Call(call(4, "a", &[]))], pending: false });
    t.append(Turn { role: Role::Tool, parts: vec![Part::Result(ok(4, "fine"))], pending: false });
    assert!(t.is_consistent());
}

#[test]
fn registry_dispatch() {
    let r = Registry::standard();
    assert_eq!(
        r.resolve(&call(1, "book_flight", &[])),
        Err("unknown tool: book_flight".to_string())
    );
    assert_eq!(
        r.resolve(&call(1, "train_details", &[])),
        Err("arguments do not match the schema of train_details".to_string())
    );
    assert_eq!(
        r.resolve(&call(1, "train_details", &[("train_number", "\"12002\""), ("x", "1")])),
        Err("arguments do not match the schema of train_details".to_string())
    );
    assert_eq!(
        r.resolve(&call(1, "train_details", &[("train_number", "\"12002\"")])),
        Ok(ToolKind::TrainDetails)
    );
    assert_eq!(
        r.resolve(&call(1, "get_site_seeing", &[("location", "\"kashmir\"")])),
        Ok(ToolKind::SiteSeeing)
    );
}
