use indexmap::IndexMap;
use laya_candle::checkpoint::Checkpoint;
use laya_candle::config::temp_bucket;
use laya_candle::json::{FloatRepr, JsonNumber, JsonValue};
use laya_candle::lang::{analyse, detect_script};
use laya_candle::pyjson::{dumps, write_float};
use laya_candle::question::{ChoiceCriteria, Instructions, Kind, NoulCriteria, Question, Questions};
use laya_candle::router::{match_typed_decisions_workflow, RouteOverrides, Router};
use laya_candle::state::State;

/// The shortest round-trip digits and exponent of `f`, as `{:e}` prints them.
fn repr_of(f: f64) -> FloatRepr {
    if f.is_nan() {
        return FloatRepr::nan();
    }
    if f.is_infinite() {
        return FloatRepr::infinity(f < 0.0);
    }
    let text = format!("{:e}", f.abs());
    let (mantissa, exponent) = text.split_once('e').unwrap();
    let digits: Vec<char> = mantissa.chars().filter(|c| *c != '.').collect();
    FloatRepr::finite(f.is_sign_negative(), digits, exponent.parse().unwrap()).unwrap()
}

fn float(f: f64) -> String {
    let mut s = String::new();
    write_float(&mut s, &repr_of(f));
    s
}

fn text(s: &str) -> JsonValue {
    JsonValue::String(s.to_string())
}

fn num(n: u64) -> JsonValue {
    JsonValue::Number(JsonNumber::PosInt(n))
}

fn object(members: Vec<(&str, JsonValue)>) -> JsonValue {
    JsonValue::Object(members.into_iter().map(|(k, v)| (k.to_string(), v)).collect())
}

fn instructions(s: &str) -> Instructions {
    Instructions::Text(s.to_string())
}

fn questions(ids: &[&str]) -> Questions {
    ids.iter()
        .map(|id| (id.to_string(), Question::noul(instructions("x"))))
        .collect()
}

#[test]
fn aliases() {
    assert_eq!(Checkpoint::parse(" EN "), Some(Checkpoint::English));
    assert_eq!(Checkpoint::parse("ml"), Some(Checkpoint::Multilingual));
    assert_eq!(
        Checkpoint::parse("typed_decisions"),
        Some(Checkpoint::TypedDecisions)
    );
    assert_eq!(Checkpoint::parse("nope"), None);
    assert_eq!(
        Checkpoint::TypedDecisions.repo(),
        "convaiinnovations/laya/typed-decisions"
    );
    assert_eq!(
        dumps(&text(Checkpoint::TypedDecisions.name()), false),
        "\"typed-decisions\""
    );
}

#[test]
fn temperature_buckets() {
    assert_eq!(temp_bucket(Kind::Noul, 2), "noul:2");
    assert_eq!(temp_bucket(Kind::Choice, 4), "choice:3-5");
    assert_eq!(temp_bucket(Kind::Choice, 10), "choice:6-10");
    assert_eq!(temp_bucket(Kind::Score, 11), "score:11+");
}

#[test]
fn scripts() {
    assert_eq!(detect_script("Hello there"), "latin");
    assert_eq!(detect_script("मुझसे दो बार"), "devanagari");
    assert_eq!(detect_script("1234 !!"), "unknown");
    assert_eq!(detect_script("日本語のテキスト"), "kana");
    assert_eq!(detect_script("请退款给我们"), "han");
}

#[test]
fn english_is_not_misrouted() {
    let d = analyse(&State::text(
        "The invoice is wrong and we were billed twice, please refund it.",
    ));
    assert_eq!(d.language.as_deref(), Some("en"));
    assert!(d.is_english);
    let d = analyse(&State::text(
        "Mein Konto wurde zweimal belastet und ich möchte das Geld zurück.",
    ));
    assert_eq!(d.language.as_deref(), Some("de"));
    assert!(!d.is_english);
    assert!(analyse(&State::Json(object(vec![("n", num(3))]))).is_english);
}

#[test]
fn floats_match_python_repr() {
    assert_eq!(float(1.0), "1.0");
    assert_eq!(float(0.1), "0.1");
    assert_eq!(float(-0.0), "-0.0");
    assert_eq!(float(0.0), "0.0");
    assert_eq!(float(100.0), "100.0");
    assert_eq!(float(1e15), "1000000000000000.0");
    assert_eq!(float(1e16), "1e+16");
    assert_eq!(float(1.5e300), "1.5e+300");
    assert_eq!(float(0.0001), "0.0001");
    assert_eq!(float(0.00001), "1e-05");
    assert_eq!(float(1.2345e-7), "1.2345e-07");
    assert_eq!(float(123456789012345678.0), "1.2345678901234568e+17");
    assert_eq!(float(std::f64::consts::PI), "3.141592653589793");
    assert_eq!(float(2.5), "2.5");
}

#[test]
fn separators_order_and_escapes() {
    let v = object(vec![
        (
            "b",
            JsonValue::Array(vec![
                num(1),
                JsonValue::Number(JsonNumber::Float(repr_of(2.0))),
                JsonValue::Bool(true),
                JsonValue::Null,
            ]),
        ),
        ("a", object(vec![("x", text("q\"\\\n\u{1}é"))])),
    ]);
    assert_eq!(
        dumps(&v, false),
        "{\"b\": [1, 2.0, true, null], \"a\": {\"x\": \"q\\\"\\\\\\n\\u0001é\"}}"
    );
    assert_eq!(dumps(&text("é😀"), true), "\"\\u00e9\\ud83d\\ude00\"");
    assert_eq!(dumps(&JsonValue::Array(vec![]), false), "[]");
    assert_eq!(dumps(&JsonValue::Object(vec![]), false), "{}");
}

#[test]
fn choice_options_render_like_python() {
    let mut criteria = IndexMap::new();
    criteria.insert("billing".to_string(), text("invoices"));
    criteria.insert("other".to_string(), JsonValue::Null);
    criteria.insert("blank".to_string(), text(""));
    criteria.insert("zero".to_string(), num(0));
    let q = Question::choice(instructions("Which department?"), ChoiceCriteria(criteria));
    assert_eq!(
        q.render_options(),
        ["billing: invoices", "other", "blank", "zero: 0"]
    );
}

#[test]
fn score_and_noul_options() {
    let q = Question::score(instructions("How urgent?"), vec![text("low"), text("high")]);
    assert_eq!(q.render_options(), ["level 0: low", "level 1: high"]);
    let q = Question::noul(instructions("Refund?"));
    assert_eq!(
        q.render_options(),
        [
            "false: no, the statement does not hold",
            "true: yes, the statement holds"
        ]
    );
    let q = Question::Noul {
        instructions: instructions("x"),
        criteria: Some(NoulCriteria {
            false_desc: JsonValue::Null,
            true_desc: object(vec![("desc", text("yes"))]),
        }),
    };
    assert_eq!(q.render_options()[1], "true: {\"desc\": \"yes\"}");
}

#[test]
fn validation_rejects_degenerate_questions() {
    let mut only = IndexMap::new();
    only.insert("only".to_string(), JsonValue::Null);
    assert!(Question::choice(instructions("x"), ChoiceCriteria(only))
        .validate("q")
        .is_err());
    assert!(Question::score(instructions("x"), Vec::new())
        .validate("q")
        .is_err());
    assert!(Question::noul(instructions("x")).validate("q").is_ok());
}

#[test]
fn workflow_needs_exact_id_set() {
    assert_eq!(
        match_typed_decisions_workflow(&questions(&[
            "urgency",
            "action",
            "needs_review",
            "outcome",
            "risk"
        ])),
        Some("agent_trace_observability")
    );
    assert_eq!(
        match_typed_decisions_workflow(&questions(&["urgency", "action"])),
        None
    );
}

#[test]
fn precedence() {
    let router = Router::new();
    let hindi = State::text("मुझसे दो बार शुल्क लिया गया");
    let q = questions(&["urgency", "action", "needs_review", "outcome", "risk"]);
    let d = router
        .route(&hindi, &q, &RouteOverrides::default())
        .unwrap();
    assert_eq!(d.model, Checkpoint::Multilingual);
    assert_eq!(d.workflow.as_deref(), Some("agent_trace_observability"));
    assert!(d
        .reason
        .starts_with("non-Latin script (devanagari, 100% of letters)"));

    let auto = Router::new().with_auto_task_detection(true);
    assert_eq!(
        auto.route(&hindi, &q, &RouteOverrides::default())
            .unwrap()
            .model,
        Checkpoint::TypedDecisions
    );

    let lang = RouteOverrides {
        lang: Some("en-GB".into()),
        ..Default::default()
    };
    let d = router.route(&hindi, &q, &lang).unwrap();
    assert_eq!(d.model, Checkpoint::English);
    assert_eq!(d.repo, "convaiinnovations/laya");

    let task = RouteOverrides {
        task: Some("typed-decisions".into()),
        ..Default::default()
    };
    assert_eq!(
        router.route(&hindi, &q, &task).unwrap().model,
        Checkpoint::TypedDecisions
    );
    let d = router
        .route(&State::text("12345"), &q, &RouteOverrides::default())
        .unwrap();
    assert_eq!(d.model, Checkpoint::English);
    assert_eq!(
        d.reason,
        "no letters detected in state; using default (english)"
    );
}

#[test]
fn json_state_renders_python_style() {
    let s = State::Json(object(vec![
        ("from", text("a@b.c")),
        ("n", num(2)),
        ("ok", JsonValue::Bool(false)),
    ]));
    assert_eq!(s.render(), "{\"from\": \"a@b.c\", \"n\": 2, \"ok\": false}");
    assert_eq!(State::text("plain").render(), "plain");
}
