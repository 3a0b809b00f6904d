use jinji::guard::DecodeError;
use jinji::resolver::{prepare, Request, ResolveError, Resolver, Stage, DEFAULT_MAX_ROUNDS};
use jinji::value::{Entry, Value};

fn text(s: &str) -> Value {
    Value::Text(s.to_string())
}

fn mapping(entries: Vec<(&str, Value)>) -> Value {
    Value::Mapping(entries.into_iter().map(|(k, v)| Entry { key: k.to_string(), value: v }).collect())
}

fn key(s: &str) -> String {
    s.to_string()
}

#[test]
fn no_header_is_resolved_at_once() {
    let r = Resolver::start(None, DEFAULT_MAX_ROUNDS);
    assert!(r.is_resolved());
    assert_eq!(r.rounds, 0);
    assert!(r.context.is_empty());
    assert_eq!(r.request(), Request::Finished);
}

#[test]
fn prepare_without_delimiters_keeps_everything_as_body() {
    let lines = vec!["Hello".to_string(), "{{ 1 + 1 }}".to_string()];
    let p = prepare(&lines, DEFAULT_MAX_ROUNDS);
    assert_eq!(p.body, "Hello\n{{ 1 + 1 }}");
    assert!(p.resolver.is_resolved());
    assert!(p.resolver.context.is_empty());
    assert_eq!(p.resolver.rounds, 0);
}

#[test]
fn prepare_with_front_matter_asks_for_parsing() {
    let lines: Vec<String> =
        ["---", "name: Ann", "greeting: \"{{ name }}!\"", "---", "Hello, {{ greeting }}"]
            .iter()
            .map(|l| l.to_string())
            .collect();
    let p = prepare(&lines, 8);
    assert_eq!(p.body, "Hello, {{ greeting }}");
    assert_eq!(p.resolver.header, "name: Ann\ngreeting: \"{{ name }}!\"");
    assert_eq!(p.resolver.stage, Stage::Parsing);
    assert_eq!(
        p.resolver.request(),
        Request::Parse(
            "name: Ann\ngreeting: \"_JINJI_ENC_BEGIN_MARK_e3sgbmFtZSB9fQ_JINJI_ENC_END_MARK_!\""
                .to_string()
        )
    );
}

#[test]
fn header_without_expressions_takes_one_round() {
    let mut r = Resolver::start(Some(key("name: Ann")), DEFAULT_MAX_ROUNDS);
    assert_eq!(r.request(), Request::Parse(key("name: Ann")));
    r.parsed(Ok(mapping(vec![("name", text("Ann"))])));
    assert_eq!(r.request(), Request::Render(key("name: Ann")));
    r.rendered(Ok(key("name: Ann")));
    assert!(r.is_resolved());
    assert_eq!(r.rounds, 1);
    assert_eq!(r.context.get(&key("name")), Some(&text("Ann")));
    assert_eq!(r.request(), Request::Finished);
}

#[test]
fn dependent_value_resolves_in_two_rounds() {
    let first = "name: Ann\ngreeting: \"{{ name }}!\"";
    let second = "name: Ann\ngreeting: \"Ann!\"";
    let mut r = Resolver::start(Some(key(first)), DEFAULT_MAX_ROUNDS);
    r.parsed(Ok(mapping(vec![
        ("name", text("Ann")),
        ("greeting", text("_JINJI_ENC_BEGIN_MARK_e3sgbmFtZSB9fQ_JINJI_ENC_END_MARK_!")),
    ])));
    assert_eq!(r.context.get(&key("greeting")), Some(&text("{{ name }}!")));
    assert_eq!(r.request(), Request::Render(key(first)));
    r.rendered(Ok(key(second)));
    assert_eq!(r.stage, Stage::Parsing);
    assert_eq!(r.header, second);
    assert_eq!(r.request(), Request::Parse(key(second)));
    r.parsed(Ok(mapping(vec![("name", text("Ann")), ("greeting", text("Ann!"))])));
    r.rendered(Ok(key(second)));
    assert!(r.is_resolved());
    assert_eq!(r.rounds, 2);
    assert_eq!(r.context.get(&key("greeting")), Some(&text("Ann!")));
    assert_eq!(r.context.get(&key("name")), Some(&text("Ann")));
}

#[test]
fn header_that_never_settles_hits_the_limit() {
    let mut r = Resolver::start(Some(key("x: 0")), 5);
    let mut rounds = 0;
    while let Request::Parse(_) = r.request() {
        r.parsed(Ok(mapping(vec![("x", Value::Integer(rounds))])));
        let next = format!("{}0", r.header);
        r.rendered(Ok(next));
        rounds += 1;
        assert!(rounds <= 5);
    }
    assert_eq!(rounds, 5);
    assert_eq!(r.rounds, 5);
    assert_eq!(r.stage, Stage::Failed(ResolveError::DidNotConverge));
    assert_eq!(r.request(), Request::Finished);
}

#[test]
fn limit_of_one_allows_one_round() {
    let mut r = Resolver::start(Some(key("a: 1")), 1);
    r.parsed(Ok(mapping(vec![("a", Value::Integer(1))])));
    r.rendered(Ok(key("a: 2")));
    assert_eq!(r.stage, Stage::Failed(ResolveError::DidNotConverge));
    let mut ok = Resolver::start(Some(key("a: 1")), 1);
    ok.parsed(Ok(mapping(vec![("a", Value::Integer(1))])));
    ok.rendered(Ok(key("a: 1")));
    assert!(ok.is_resolved());
}

#[test]
fn limit_of_zero_fails_at_once() {
    let r = Resolver::start(Some(key("a: 1")), 0);
    assert_eq!(r.stage, Stage::Failed(ResolveError::DidNotConverge));
    assert!(Resolver::start(None, 0).is_resolved());
}

#[test]
fn scalar_root_is_a_parse_error() {
    let mut r = Resolver::start(Some(key("just text")), 4);
    r.parsed(Ok(text("just text")));
    assert_eq!(
        r.stage,
        Stage::Failed(ResolveError::YamlParse(key("front matter is not a mapping")))
    );
    assert!(r.context.is_empty());
}

#[test]
fn sequence_root_is_a_parse_error() {
    let mut r = Resolver::start(Some(key("- a\n- b")), 4);
    r.parsed(Ok(Value::Sequence(vec![text("a"), text("b")])));
    assert_eq!(
        r.stage,
        Stage::Failed(ResolveError::YamlParse(key("front matter is not a mapping")))
    );
}

#[test]
fn null_root_is_a_parse_error() {
    let mut r = Resolver::start(Some(key("")), 4);
    r.parsed(Ok(Value::Null));
    assert!(matches!(r.stage, Stage::Failed(ResolveError::YamlParse(_))));
}

#[test]
fn parser_error_is_kept() {
    let mut r = Resolver::start(Some(key("a: [")), 4);
    r.parsed(Err(key("unexpected end")));
    assert_eq!(r.stage, Stage::Failed(ResolveError::YamlParse(key("unexpected end"))));
    assert_eq!(r.request(), Request::Finished);
}

#[test]
fn malformed_payload_is_a_decode_error() {
    let mut r = Resolver::start(Some(key("a: b")), 4);
    r.parsed(Ok(mapping(vec![
        ("fine", text("x")),
        ("a", text("_JINJI_ENC_BEGIN_MARK_***_JINJI_ENC_END_MARK_")),
    ])));
    assert_eq!(r.stage, Stage::Failed(ResolveError::Decode(DecodeError::Payload)));
    assert!(r.context.is_empty());
}

#[test]
fn engine_error_is_kept() {
    let mut r = Resolver::start(Some(key("a: {{ b | nope }}")), 4);
    r.parsed(Ok(mapping(vec![("a", text("x"))])));
    r.rendered(Err(key("filter not found")));
    assert_eq!(r.stage, Stage::Failed(ResolveError::EngineRender(key("filter not found"))));
    assert_eq!(r.rounds, 0);
}

#[test]
fn events_out_of_turn_change_nothing() {
    let mut r = Resolver::start(Some(key("a: 1")), 4);
    r.rendered(Ok(key("other")));
    assert_eq!(r.stage, Stage::Parsing);
    assert_eq!(r.header, "a: 1");
    assert_eq!(r.rounds, 0);
    r.parsed(Ok(mapping(vec![("a", Value::Integer(1))])));
    r.parsed(Ok(mapping(vec![("b", Value::Integer(2))])));
    assert_eq!(r.stage, Stage::Rendering);
    assert_eq!(r.context.get(&key("b")), None);
}

#[test]
fn later_round_overwrites_earlier_value() {
    let mut r = Resolver::start(Some(key("a: {{ 1 }}")), 4);
    r.parsed(Ok(mapping(vec![("a", text("old"))])));
    r.rendered(Ok(key("a: 1")));
    r.parsed(Ok(mapping(vec![("a", Value::Integer(1))])));
    r.rendered(Ok(key("a: 1")));
    assert!(r.is_resolved());
    assert_eq!(r.context.get(&key("a")), Some(&Value::Integer(1)));
}

#[test]
fn run_ends_within_the_limit_whatever_the_engine_returns() {
    let calls = std::cell::Cell::new(0usize);
    let parse = |_encoded: String| Ok(mapping(vec![("x", Value::Integer(1))]));
    let render = |text: String, _context: &jinji::context::Context| {
        calls.set(calls.get() + 1);
        Ok(format!("{text}!"))
    };
    let done = Resolver::start(Some(key("x: 1")), 7).run(&parse, &render);
    assert_eq!(done.stage, Stage::Failed(ResolveError::DidNotConverge));
    assert_eq!(done.rounds, 7);
    assert_eq!(calls.get(), 7);
    assert_eq!(done.header, "x: 1!!!!!!");
}

#[test]
fn run_stops_at_the_first_stable_rendering() {
    let parse = |_encoded: String| Ok(mapping(vec![("x", Value::Integer(1))]));
    let render = |text: String, _context: &jinji::context::Context| {
        Ok(if text.len() < 6 { format!("{text}!") } else { text })
    };
    let done = Resolver::start(Some(key("x: 1")), 7).run(&parse, &render);
    assert!(done.is_resolved());
    assert_eq!(done.rounds, 3);
    assert_eq!(done.header, "x: 1!!");
}

#[test]
fn run_hands_the_encoded_header_to_the_parser() {
    let seen = std::cell::RefCell::new(Vec::new());
    let parse = |encoded: String| {
        seen.borrow_mut().push(encoded);
        Err(key("stop"))
    };
    let render = |text: String, _context: &jinji::context::Context| Ok(text);
    let done = Resolver::start(Some(key("a: {{ x }}")), 3).run(&parse, &render);
    assert_eq!(done.stage, Stage::Failed(ResolveError::YamlParse(key("stop"))));
    assert_eq!(
        *seen.borrow(),
        vec![key("a: _JINJI_ENC_BEGIN_MARK_e3sgeCB9fQ_JINJI_ENC_END_MARK_")]
    );
}

#[test]
fn run_leaves_a_finished_resolver_alone() {
    let parse = |_encoded: String| -> Result<Value, String> { panic!("parser called") };
    let render = |_text: String, _context: &jinji::context::Context| -> Result<String, String> {
        panic!("engine called")
    };
    let done = Resolver::start(None, 3).run(&parse, &render);
    assert!(done.is_resolved());
    assert_eq!(done.rounds, 0);
    assert!(done.context.is_empty());
}
