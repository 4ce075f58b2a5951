use indexmap::IndexMap;
use laya_candle::agent::{
    budgets, item_slots, pack_batches, prepare_items, request_usage, BatchOptions, PredictOptions,
    Request,
};
use laya_candle::agent::Item;
use laya_candle::batch::{pad_pass, sliding_window};
use laya_candle::checkpoint::Checkpoint;
use laya_candle::config::{layer_type_for, LayerType};
use laya_candle::error::Error;
use laya_candle::json::{FloatRepr, JsonNumber, JsonValue};
use laya_candle::lang::{analyse, detect_script, guess_latin_language, script_profile, state_text};
use laya_candle::pyjson::{dumps, repr_str};
use laya_candle::question::{ChoiceCriteria, Instructions, Kind, Question, Questions};
use laya_candle::router::{group_requests, reindex_error, RouteOverrides, Router, Source};
use laya_candle::sequence::{assemble_sequence, build_sequence, sequence_texts, Budgets, Sequence};
use laya_candle::state::State;
use laya_candle::text::is_whitespace;
use laya_candle::tokenizer::{resolve_special, SpecialTokenNames, Tokenizer};
use tokenizers::models::wordlevel::WordLevel;
use tokenizers::pre_tokenizers::whitespace::Whitespace;

fn instructions(s: &str) -> Instructions {
    Instructions::Text(s.to_string())
}

fn noul_questions(ids: &[&str]) -> Questions {
    ids.iter()
        .map(|id| (id.to_string(), Question::noul(instructions("x"))))
        .collect()
}

fn word_tokenizer(words: &[&str]) -> tokenizers::Tokenizer {
    let vocab = words
        .iter()
        .enumerate()
        .map(|(i, w)| (w.to_string(), i as u32))
        .collect();
    let model = WordLevel::builder()
        .vocab(vocab)
        .unk_token("[UNK]".to_string())
        .build()
        .unwrap();
    let mut tok = tokenizers::Tokenizer::new(model);
    tok.with_pre_tokenizer(Some(Whitespace {}));
    tok
}

fn no_names() -> SpecialTokenNames {
    SpecialTokenNames {
        cls: None,
        sep: None,
        pad: None,
        mask: None,
    }
}

fn test_tokenizer() -> Tokenizer {
    let inner = word_tokenizer(&[
        "[UNK]", "[CLS]", "[SEP]", "[PAD]", "[MASK]", "noul", "question", ":", "refund", "?",
        "false", "true", "no", "yes", ",", "the", "statement", "does", "not", "hold", "holds",
        "please",
    ]);
    Tokenizer::from_parts(inner, &no_names()).unwrap()
}

// ---------------------------------------------------------------------------------------------
// Sequences.
// ---------------------------------------------------------------------------------------------

#[test]
fn assemble_lays_out_markers_and_state() {
    let head = vec![10, 11, 12];
    let opts = vec![vec![20, 21], vec![30]];
    let st = vec![40, 41, 42, 43];
    let budgets = Budgets { max_len: 20, head_max_len: 64 };
    let seq = assemble_sequence(&head, &opts, &st, 1, 2, 3, Kind::Choice, budgets, false, "q").unwrap();
    assert_eq!(seq.ids, vec![1, 10, 11, 12, 2, 3, 20, 21, 3, 30, 2, 40, 41, 42, 43, 2]);
    assert_eq!(seq.markers, vec![5, 8]);
    assert_eq!(seq.kind, Kind::Choice);
    assert_eq!(seq.len(), 16);
    assert!(!seq.is_empty());
}

#[test]
fn assemble_truncates_state_from_either_side() {
    let head = vec![10, 11, 12];
    let opts = vec![vec![20, 21], vec![30]];
    let st = vec![40, 41, 42, 43];
    let budgets = Budgets { max_len: 14, head_max_len: 64 };
    let right = assemble_sequence(&head, &opts, &st, 1, 2, 3, Kind::Choice, budgets, false, "q").unwrap();
    assert_eq!(right.ids, vec![1, 10, 11, 12, 2, 3, 20, 21, 3, 30, 2, 40, 41, 2]);
    let left = assemble_sequence(&head, &opts, &st, 1, 2, 3, Kind::Choice, budgets, true, "q").unwrap();
    assert_eq!(left.ids, vec![1, 10, 11, 12, 2, 3, 20, 21, 3, 30, 2, 42, 43, 2]);
}

#[test]
fn assemble_shrinks_crowded_options() {
    let head = vec![10, 11, 12];
    let opts = vec![(20..30).collect::<Vec<u32>>(), (30..40).collect::<Vec<u32>>()];
    let st = vec![];
    let budgets = Budgets { max_len: 64, head_max_len: 24 };
    let seq = assemble_sequence(&head, &opts, &st, 1, 2, 3, Kind::Score, budgets, false, "q").unwrap();
    assert_eq!(seq.ids, vec![1, 10, 11, 12, 2, 3, 20, 21, 22, 3, 30, 31, 32, 2, 2]);
    assert_eq!(seq.markers, vec![5, 9]);
}

#[test]
fn assemble_caps_options_at_forty_eight_tokens() {
    let head = vec![];
    let opts = vec![(100..200).collect::<Vec<u32>>()];
    let budgets = Budgets { max_len: 512, head_max_len: 4096 };
    let seq = assemble_sequence(&head, &opts, &vec![], 1, 2, 3, Kind::Noul, budgets, false, "q").unwrap();
    // [CLS] [SEP] [MASK] + 48 option tokens + [SEP] [SEP]
    assert_eq!(seq.ids.len(), 2 + 1 + 48 + 2);
    assert_eq!(seq.ids[3..51], (100..148).collect::<Vec<u32>>()[..]);
}

#[test]
fn assemble_rejects_markers_past_the_context_budget() {
    let head = vec![10, 11, 12];
    let opts = vec![vec![20, 21], vec![30]];
    let budgets = Budgets { max_len: 8, head_max_len: 64 };
    match assemble_sequence(&head, &opts, &vec![], 1, 2, 3, Kind::Choice, budgets, false, "dept") {
        Err(Error::OptionsExceedHeadBudget { question_id, head_max_len }) => {
            assert_eq!(question_id, "dept");
            assert_eq!(head_max_len, 64);
        }
        other => panic!("unexpected {other:?}"),
    }
}

#[test]
fn sequence_texts_follow_the_question() {
    let q = Question::noul(instructions("Refund?"));
    let (head, opts) = sequence_texts(&q);
    assert_eq!(head, "noul question: Refund?");
    assert_eq!(
        opts,
        vec![
            " false: no, the statement does not hold".to_string(),
            " true: yes, the statement holds".to_string()
        ]
    );
}

// ---------------------------------------------------------------------------------------------
// Tokenizer.
// ---------------------------------------------------------------------------------------------

#[test]
fn special_tokens_resolve_through_the_vocabulary() {
    let tok = test_tokenizer();
    assert_eq!((tok.cls_id, tok.sep_id, tok.pad_id, tok.mask_id), (1, 2, 3, 4));
    assert_eq!(tok.mask_token, "[MASK]");
    assert_eq!(tok.encode("please refund").unwrap(), vec![21, 8]);
    assert_eq!(tok.encode("please [MASK] refund").unwrap(), vec![21, 8]);
    assert_eq!(tok.scrub("a[MASK]b"), "a b");
}

#[test]
fn missing_special_token_is_a_tokenizer_error() {
    let inner = word_tokenizer(&["[UNK]", "[CLS]", "[SEP]", "[PAD]"]);
    match Tokenizer::from_parts(inner, &no_names()) {
        Err(Error::Tokenizer(msg)) => {
            assert_eq!(msg, "special token \"[MASK]\" is not in the vocabulary")
        }
        other => panic!("unexpected {:?}", other.map(|t| t.mask_id)),
    }
    match resolve_special("<m>", None) {
        Err(Error::Tokenizer(msg)) => assert_eq!(msg, "special token \"<m>\" is not in the vocabulary"),
        other => panic!("unexpected {other:?}"),
    }
    assert_eq!(resolve_special("<m>", Some(7)).unwrap(), (7, "<m>".to_string()));
}

#[test]
fn configured_special_names_are_used() {
    let inner = word_tokenizer(&["<s>", "</s>", "<pad>", "<mask>"]);
    let names = SpecialTokenNames {
        cls: Some("<s>".into()),
        sep: Some("</s>".into()),
        pad: Some("<pad>".into()),
        mask: Some("<mask>".into()),
    };
    let tok = Tokenizer::from_parts(inner, &names).unwrap();
    assert_eq!((tok.cls_id, tok.sep_id, tok.pad_id, tok.mask_id), (0, 1, 2, 3));
    assert_eq!(tok.mask_token, "<mask>");
}

#[test]
fn build_sequence_points_markers_at_mask() {
    let tok = test_tokenizer();
    let q = Question::noul(instructions("refund ?"));
    let state = State::text("please refund");
    let budgets = Budgets { max_len: 64, head_max_len: 32 };
    let seq = build_sequence(&tok, &state, "r", &q, budgets, false).unwrap();
    assert_eq!(seq.markers.len(), 2);
    for &m in &seq.markers {
        assert_eq!(seq.ids[m], tok.mask_id);
    }
    assert_eq!(seq.ids[0], tok.cls_id);
    assert_eq!(&seq.ids[seq.ids.len() - 3..], &[21, 8, tok.sep_id]);
}

// ---------------------------------------------------------------------------------------------
// Agent preparation.
// ---------------------------------------------------------------------------------------------

#[test]
fn budgets_take_overrides_and_check_positions() {
    let b = budgets(&PredictOptions::default(), 512, 192, 8192).unwrap();
    assert_eq!(b, Budgets { max_len: 512, head_max_len: 192 });
    let opts = PredictOptions { max_len: Some(256), head_max_len: Some(64) };
    assert_eq!(budgets(&opts, 512, 192, 8192).unwrap(), Budgets { max_len: 256, head_max_len: 64 });
    let opts = PredictOptions { max_len: Some(600), head_max_len: None };
    match budgets(&opts, 512, 192, 512) {
        Err(Error::ContextBudgetTooLarge { max_len, max_position_embeddings }) => {
            assert_eq!((max_len, max_position_embeddings), (600, 512))
        }
        other => panic!("unexpected {other:?}"),
    }
}

#[test]
fn batch_options_default() {
    let b = BatchOptions::default();
    assert_eq!((b.max_tokens, b.max_seqs), (16384, 256));
}

#[test]
fn prepare_items_keeps_request_order_and_reports_bad_requests() {
    let tok = test_tokenizer();
    let s0 = State::text("please refund");
    let s1 = State::text("refund");
    let q2 = noul_questions(&["a", "b"]);
    let q1 = noul_questions(&["c"]);
    let requests = [
        Request { state: &s0, questions: &q2 },
        Request { state: &s1, questions: &q1 },
    ];
    let budgets = Budgets { max_len: 64, head_max_len: 32 };
    let items = prepare_items(&tok, &requests, budgets).unwrap();
    assert_eq!(items.iter().map(|i| i.request).collect::<Vec<_>>(), vec![0, 0, 1]);

    let mut bad = Questions::new();
    bad.insert("s".to_string(), Question::score(instructions("x"), vec![]));
    let requests = [
        Request { state: &s0, questions: &q2 },
        Request { state: &s1, questions: &bad },
    ];
    match prepare_items(&tok, &requests, budgets) {
        Err(Error::Request { request, source }) => {
            assert_eq!(request, 1);
            assert!(matches!(*source, Error::TooFewOptions { options: 0, .. }));
        }
        other => panic!("unexpected {:?}", other.map(|v| v.len())),
    }
}

#[test]
fn packing_sorts_by_length_and_respects_budgets() {
    let lengths = [5, 3, 5, 1];
    let opts = BatchOptions { max_tokens: 10, max_seqs: 2 };
    assert_eq!(pack_batches(&lengths, &opts), vec![vec![3, 1], vec![0, 2]]);
    let opts = BatchOptions { max_tokens: 4, max_seqs: 8 };
    assert_eq!(pack_batches(&lengths, &opts), vec![vec![3], vec![1], vec![0], vec![2]]);
    let opts = BatchOptions { max_tokens: 100, max_seqs: 8 };
    assert_eq!(pack_batches(&lengths, &opts), vec![vec![3, 1, 0, 2]]);
    assert!(pack_batches(&[], &opts).is_empty());
}

// ---------------------------------------------------------------------------------------------
// Routing.
// ---------------------------------------------------------------------------------------------

#[test]
fn unknown_task_is_a_config_error() {
    let router = Router::new();
    let o = RouteOverrides { task: Some("nope".into()), ..Default::default() };
    match router.route(&State::text("hi"), &noul_questions(&["a"]), &o) {
        Err(Error::Config(msg)) => assert_eq!(msg, "unknown task \"nope\""),
        other => panic!("unexpected {:?}", other.map(|d| d.model)),
    }
    let s = State::text("hi");
    let q = noul_questions(&["a"]);
    let requests = [Request { state: &s, questions: &q }, Request { state: &s, questions: &q }];
    match router.route_all(&requests, &o) {
        Err(Error::Request { request, source }) => {
            assert_eq!(request, 0);
            assert!(matches!(*source, Error::Config(_)));
        }
        other => panic!("unexpected {:?}", other.map(|d| d.len())),
    }
}

#[test]
fn explicit_model_and_language_reasons() {
    let router = Router::new();
    let q = noul_questions(&["a"]);
    let o = RouteOverrides { model: Some(Checkpoint::Multilingual), ..Default::default() };
    let d = router.route(&State::text("hello"), &q, &o).unwrap();
    assert_eq!(d.reason, "explicit model='multilingual'");
    assert_eq!(d.repo, "convaiinnovations/laya/multilingual");
    assert!(d.detection.is_none());
    let o = RouteOverrides { lang: Some("ENG".into()), ..Default::default() };
    let d = router.route(&State::text("hola"), &q, &o).unwrap();
    assert_eq!(d.model, Checkpoint::English);
    assert_eq!(d.reason, "explicit lang='ENG'");
    let o = RouteOverrides { lang: Some("fr-CA".into()), ..Default::default() };
    assert_eq!(router.route(&State::text("hola"), &q, &o).unwrap().model, Checkpoint::Multilingual);
}

#[test]
fn detection_reasons() {
    let router = Router::new();
    let q = noul_questions(&["a"]);
    let none = RouteOverrides::default();
    let d = router.route(&State::text("We were billed twice, please refund it."), &q, &none).unwrap();
    assert_eq!(d.model, Checkpoint::English);
    assert_eq!(d.reason, "English Latin text");
    let det = d.detection.unwrap();
    assert_eq!(det.script, "latin");
    let d = router
        .route(&State::text("Mein Konto wurde zweimal belastet und ich möchte das Geld zurück."), &q, &none)
        .unwrap();
    assert_eq!(d.model, Checkpoint::Multilingual);
    assert_eq!(d.reason, "Latin script but language looks like 'de', not English");
    // Half Devanagari, half Latin letters, Devanagari first.
    let d = router.route(&State::text("मुझसे दो बार abcdef"), &q, &none).unwrap();
    assert_eq!(d.model, Checkpoint::Multilingual);
    assert!(d.reason.starts_with("non-Latin script (devanagari, 50% of letters)"));
}

#[test]
fn auto_detection_reports_the_workflow() {
    let router = Router::new().with_auto_task_detection(true);
    let q = noul_questions(&["urgency", "action", "category", "churn_risk", "needs_human"]);
    let d = router.route(&State::text("hello"), &q, &RouteOverrides::default()).unwrap();
    assert_eq!(d.model, Checkpoint::TypedDecisions);
    assert_eq!(d.workflow.as_deref(), Some("customer_service"));
    assert_eq!(d.reason, "question ids match the 'customer_service' typed-decisions workflow");
    assert_eq!(d.repo, "convaiinnovations/laya/typed-decisions");
}

#[test]
fn sources_describe_themselves() {
    let router = Router::new().with_source(Checkpoint::English, Source::Dir("/models/en".into()));
    assert_eq!(router.source(Checkpoint::English).describe(), "/models/en");
    assert_eq!(
        router.source(Checkpoint::Multilingual).describe(),
        "convaiinnovations/laya/multilingual"
    );
    let d = router
        .route(&State::text("hello there"), &noul_questions(&["a"]), &RouteOverrides::default())
        .unwrap();
    assert_eq!(d.repo, "/models/en");
}

#[test]
fn lru_keeps_the_most_recent() {
    let mut router = Router::new();
    assert_eq!(router.max_loaded(), 1);
    assert!(router.load(Checkpoint::English).is_empty());
    assert_eq!(router.load(Checkpoint::Multilingual), vec![Checkpoint::English]);
    assert_eq!(router.loaded(), vec![Checkpoint::Multilingual]);
    assert!(router.is_loaded(Checkpoint::Multilingual));
    assert!(!router.is_loaded(Checkpoint::English));

    let mut router = Router::new().with_max_loaded(2);
    router.load(Checkpoint::English);
    router.load(Checkpoint::Multilingual);
    assert!(router.load(Checkpoint::English).is_empty());
    assert_eq!(router.loaded(), vec![Checkpoint::Multilingual, Checkpoint::English]);
    assert_eq!(router.load(Checkpoint::TypedDecisions), vec![Checkpoint::Multilingual]);
    assert_eq!(router.loaded(), vec![Checkpoint::English, Checkpoint::TypedDecisions]);

    router.unload(Some(Checkpoint::English));
    assert_eq!(router.loaded(), vec![Checkpoint::TypedDecisions]);
    router.unload(None);
    assert!(router.loaded().is_empty());
    assert_eq!(Router::new().with_max_loaded(0).max_loaded(), 1);
}

#[test]
fn attach_and_preload_raise_the_limit() {
    let mut router = Router::new();
    router.load(Checkpoint::English);
    router.attach(Checkpoint::Multilingual);
    assert_eq!(router.loaded(), vec![Checkpoint::English, Checkpoint::Multilingual]);
    assert_eq!(router.max_loaded(), 2);
    let names = router.preload(&[]);
    assert_eq!(
        names,
        vec![Checkpoint::English, Checkpoint::Multilingual, Checkpoint::TypedDecisions]
    );
    assert_eq!(router.max_loaded(), 3);
    let mut small = Router::new();
    assert_eq!(small.preload(&[Checkpoint::TypedDecisions]), vec![Checkpoint::TypedDecisions]);
    assert_eq!(small.max_loaded(), 1);
}

#[test]
fn grouping_follows_first_use() {
    let (en, ml, td) = (Checkpoint::English, Checkpoint::Multilingual, Checkpoint::TypedDecisions);
    let groups = group_requests(&[en, ml, en, td, ml]);
    assert_eq!(groups, vec![(en, vec![0, 2]), (ml, vec![1, 4]), (td, vec![3])]);
    assert!(group_requests(&[]).is_empty());
}

#[test]
fn reindexing_maps_request_numbers() {
    let e = Error::Request { request: 1, source: Box::new(Error::Config("x".into())) };
    match reindex_error(e, &[4, 7]) {
        Error::Request { request, .. } => assert_eq!(request, 7),
        other => panic!("unexpected {other:?}"),
    }
    assert!(matches!(reindex_error(Error::Tokenizer("t".into()), &[]), Error::Tokenizer(_)));
}

// ---------------------------------------------------------------------------------------------
// Text, language and JSON.
// ---------------------------------------------------------------------------------------------

#[test]
fn language_guess_and_profile() {
    assert_eq!(guess_latin_language("the invoice and the refund"), Some("en"));
    assert_eq!(guess_latin_language("le client et la facture"), Some("fr"));
    assert_eq!(guess_latin_language("xyz"), None);
    assert_eq!(
        script_profile("ab日"),
        vec![("latin".to_string(), 2), ("han".to_string(), 1)]
    );
}

#[test]
fn state_text_ignores_keys() {
    let v = JsonValue::Object(vec![
        ("subject".to_string(), JsonValue::String("Hallo".into())),
        ("n".to_string(), JsonValue::Number(JsonNumber::NegInt(-3))),
        ("body".to_string(), JsonValue::Array(vec![JsonValue::String("Welt".into())])),
    ]);
    assert_eq!(state_text(&State::Json(v)), "Hallo Welt");
}

#[test]
fn repr_quotes_like_python() {
    assert_eq!(repr_str("it's"), "\"it's\"");
    assert_eq!(repr_str("a'b\"c"), "'a\\'b\"c'");
    assert_eq!(repr_str("tab\t"), "'tab\\t'");
    assert_eq!(dumps(&JsonValue::Number(JsonNumber::NegInt(-12)), false), "-12");
}

#[test]
fn layer_types_fall_back_to_every_nth() {
    let explicit = Some(vec![LayerType::SlidingAttention, LayerType::FullAttention]);
    assert_eq!(layer_type_for(&explicit, 3, 1), LayerType::FullAttention);
    assert_eq!(layer_type_for(&None, 3, 0), LayerType::FullAttention);
    assert_eq!(layer_type_for(&None, 3, 2), LayerType::SlidingAttention);
    assert_eq!(layer_type_for(&None, 3, 3), LayerType::FullAttention);
}

#[test]
fn choice_validation_counts_options() {
    let mut two = IndexMap::new();
    two.insert("a".to_string(), JsonValue::Null);
    two.insert("b".to_string(), JsonValue::Null);
    let q = Question::choice(instructions("x"), ChoiceCriteria(two));
    assert!(q.validate("q").is_ok());
    assert_eq!(q.option_count(), 2);
    match Question::score(instructions("x"), vec![JsonValue::Null]).validate("lvl") {
        Err(Error::TooFewOptions { question_id, options }) => {
            assert_eq!((question_id.as_str(), options), ("lvl", 1))
        }
        other => panic!("unexpected {other:?}"),
    }
}

#[test]
fn checkpoint_names_round_trip() {
    for c in Checkpoint::all() {
        assert_eq!(Checkpoint::parse(c.name()), Some(c));
        assert_eq!(c.name().parse::<Checkpoint>(), Ok(c));
    }
    assert_eq!(
        "gpt".parse::<Checkpoint>(),
        Err("unknown checkpoint \"gpt\"; choose one of english, multilingual, typed-decisions".to_string())
    );
    assert_eq!(Checkpoint::parse_named("  Multi "), Ok(Checkpoint::Multilingual));
}

#[test]
fn ascii_dumps_escape_everything_else() {
    let v = JsonValue::Object(vec![
        ("naïve".to_string(), JsonValue::String("日本 😀 \u{7f}".into())),
        ("n".to_string(), JsonValue::Number(JsonNumber::NegInt(-7))),
    ]);
    let out = dumps(&v, true);
    assert!(out.is_ascii());
    assert_eq!(
        out,
        "{\"na\\u00efve\": \"\\u65e5\\u672c \\ud83d\\ude00 \\u007f\", \"n\": -7}"
    );
    assert_eq!(dumps(&v, false), "{\"naïve\": \"日本 😀 \u{7f}\", \"n\": -7}");
}

#[test]
fn english_keeps_its_margin() {
    // Two French stopwords against three English ones stay English.
    assert_eq!(guess_latin_language("the refund and le client la facture for"), Some("en"));
    // A clear French majority is French.
    assert_eq!(guess_latin_language("le client est dans la salle avec nous"), Some("fr"));
}

#[test]
fn usage_counts_tokens_per_request() {
    let tok = test_tokenizer();
    let s0 = State::text("please refund");
    let s1 = State::text("refund");
    let q2 = noul_questions(&["a", "b"]);
    let q1 = noul_questions(&["c"]);
    let requests = [
        Request { state: &s0, questions: &q2 },
        Request { state: &s1, questions: &q1 },
    ];
    let budgets = Budgets { max_len: 64, head_max_len: 32 };
    let items = prepare_items(&tok, &requests, budgets).unwrap();
    let usage = request_usage(&items, 2);
    assert_eq!(usage[0].input_tokens, items[0].seq.len() + items[1].seq.len());
    assert_eq!(usage[1].input_tokens, items[2].seq.len());
    assert_eq!(usage[1].output_tokens, 0);
}

#[test]
fn routing_a_batch_matches_single_routing() {
    let router = Router::new();
    let q = noul_questions(&["a"]);
    let states = [State::text("We were billed twice, please refund it."), State::text("मुझसे दो बार")];
    let requests: Vec<Request> = states.iter().map(|s| Request { state: s, questions: &q }).collect();
    let all = router.route_all(&requests, &RouteOverrides::default()).unwrap();
    for (d, s) in all.iter().zip(&states) {
        let single = router.route(s, &q, &RouteOverrides::default()).unwrap();
        assert_eq!((d.model, &d.reason, &d.repo), (single.model, &single.reason, &single.repo));
    }
    assert_eq!(all[0].model, Checkpoint::English);
    assert_eq!(all[1].model, Checkpoint::Multilingual);
}

#[test]
fn passes_pad_to_rectangles() {
    let items = vec![
        Item { request: 0, seq: Sequence { ids: vec![1, 5, 2], markers: vec![1], kind: Kind::Noul } },
        Item { request: 0, seq: Sequence { ids: vec![1, 6, 7, 8, 2], markers: vec![1, 3], kind: Kind::Score } },
        Item { request: 1, seq: Sequence { ids: vec![9], markers: vec![], kind: Kind::Choice } },
    ];
    let b = pad_pass(&items, &[2, 0], 0);
    assert_eq!((b.rows, b.width, b.options), (2, 3, 1));
    assert_eq!(b.ids, vec![9, 0, 0, 1, 5, 2]);
    assert_eq!(b.attention, vec![1, 0, 0, 1, 1, 1]);
    assert_eq!(b.marker_pos, vec![0, 1]);
    assert_eq!(b.marker_mask, vec![0, 1]);
    assert_eq!(b.kinds, vec![0, 2]);
    let b = pad_pass(&items, &[1, 0], 3);
    assert_eq!(b.ids, vec![1, 6, 7, 8, 2, 1, 5, 2, 3, 3]);
    assert_eq!(b.marker_pos, vec![1, 3, 1, 0]);
    assert_eq!(b.marker_mask, vec![1, 1, 1, 0]);
}

#[test]
fn sliding_window_is_banded() {
    assert_eq!(
        sliding_window(4, 1),
        vec![1, 1, 0, 0, 1, 1, 1, 0, 0, 1, 1, 1, 0, 0, 1, 1]
    );
    assert_eq!(sliding_window(2, 0), vec![1, 0, 0, 1]);
    assert!(sliding_window(0, 3).is_empty());
}

// ---------------------------------------------------------------------------------------------
// Laws on concrete values.
// ---------------------------------------------------------------------------------------------

#[test]
fn repr_escapes_what_python_does_not_print() {
    assert_eq!(repr_str("\u{85}"), "'\\x85'");
    assert_eq!(repr_str("\u{7f}"), "'\\x7f'");
    assert_eq!(repr_str("a\u{a0}b"), "'a\\xa0b'");
    assert_eq!(repr_str("\u{200b}"), "'\\u200b'");
    assert_eq!(repr_str("\u{e000}"), "'\\ue000'");
    assert_eq!(repr_str("\u{f0000}"), "'\\U000f0000'");
    assert_eq!(repr_str("caf\u{e9} \u{65e5}"), "'caf\u{e9} \u{65e5}'");
}

#[test]
fn prepare_items_reports_the_first_invalid_question() {
    let tok = test_tokenizer();
    let s0 = State::text("please refund");
    let budgets = Budgets { max_len: 64, head_max_len: 32 };
    let none: [Request; 0] = [];
    assert!(prepare_items(&tok, &none, budgets).unwrap().is_empty());

    let mut bad = Questions::new();
    bad.insert("s".to_string(), Question::score(instructions("x"), vec![]));
    let fine = noul_questions(&["a"]);
    let requests = [
        Request { state: &s0, questions: &bad },
        Request { state: &s0, questions: &fine },
    ];
    match prepare_items(&tok, &requests, budgets) {
        Err(Error::Request { request, source }) => {
            assert_eq!(request, 0);
            match *source {
                Error::TooFewOptions { question_id, options } => {
                    assert_eq!((question_id.as_str(), options), ("s", 0))
                }
                other => panic!("unexpected {other:?}"),
            }
        }
        other => panic!("unexpected {:?}", other.map(|v| v.len())),
    }
}

#[test]
fn item_slots_follow_questions_in_order() {
    let s0 = State::text("a");
    let q2 = noul_questions(&["a", "b"]);
    let q0 = Questions::new();
    let q1 = noul_questions(&["c"]);
    let requests = [
        Request { state: &s0, questions: &q2 },
        Request { state: &s0, questions: &q0 },
        Request { state: &s0, questions: &q1 },
    ];
    assert_eq!(item_slots(&requests), vec![(0, 0), (0, 1), (2, 0)]);
}

#[test]
fn build_sequence_markers_rise_inside_the_ids() {
    let tok = test_tokenizer();
    let mut criteria = IndexMap::new();
    for key in ["yes", "no", "refund"] {
        criteria.insert(key.to_string(), JsonValue::Null);
    }
    let q = Question::Choice { instructions: instructions("refund ?"), criteria: ChoiceCriteria(criteria) };
    let state = State::text("please refund the statement");
    let budgets = Budgets { max_len: 64, head_max_len: 32 };
    let seq = build_sequence(&tok, &state, "c", &q, budgets, false).unwrap();
    assert_eq!(seq.markers.len(), 3);
    assert!(seq.markers.windows(2).all(|w| w[0] < w[1]));
    assert!(seq.markers.iter().all(|&m| m < seq.ids.len() && seq.ids[m] == tok.mask_id));
    assert!(seq.ids.len() <= 64);
}

#[test]
fn float_digits_must_be_decimal() {
    assert!(FloatRepr::finite(false, vec!['1', 'x'], 0).is_none());
    assert!(FloatRepr::finite(false, vec![], 0).is_none());
    assert!(FloatRepr::finite(false, vec!['1'], 401).is_none());
    let f = FloatRepr::finite(true, vec!['1', '5'], -1).unwrap();
    assert_eq!(dumps(&JsonValue::Number(JsonNumber::Float(f)), true), "-0.15");
}

#[test]
fn resident_list_never_repeats() {
    let (en, ml, td) = (Checkpoint::English, Checkpoint::Multilingual, Checkpoint::TypedDecisions);
    let mut router = Router::new().with_max_loaded(3);
    for c in [en, ml, en, td, ml, ml, en] {
        router.load(c);
        let loaded = router.loaded();
        assert_eq!(loaded.last(), Some(&c));
        for (i, a) in loaded.iter().enumerate() {
            assert!(!loaded[i + 1..].contains(a));
        }
    }
    assert_eq!(router.loaded(), vec![td, ml, en]);
}

#[test]
fn preloaded_names_all_stay_resident() {
    let (en, ml) = (Checkpoint::English, Checkpoint::Multilingual);
    let mut router = Router::new();
    router.load(en);
    let names = router.preload(&[en, ml]);
    assert_eq!(router.max_loaded(), 2);
    for c in names {
        router.load(c);
    }
    assert_eq!(router.loaded(), vec![en, ml]);

    let mut all = Router::new();
    all.load(ml);
    for c in all.preload(&[]) {
        all.load(c);
    }
    assert_eq!(all.loaded().len(), 3);
}

#[test]
fn unknown_script_exactly_without_letters() {
    let d = analyse(&State::text("123 !! ?"));
    assert_eq!(d.script, "unknown");
    assert!(d.script_profile.is_empty());
    assert_eq!((d.letters, d.latin_letters), (0, 0));
    let d = analyse(&State::text("ab \u{65e5}"));
    assert_eq!(d.script, "latin");
    assert!(!d.script_profile.is_empty());
    assert!(d.latin_letters <= d.letters);
    assert_eq!((d.letters, d.latin_letters), (3, 2));
}

#[test]
fn dominant_script_breaks_ties_by_first_use_with_latin_last() {
    assert_eq!(detect_script("a\u{431}"), "cyrillic");
    assert_eq!(detect_script("\u{431}\u{3b1}"), "cyrillic");
    assert_eq!(detect_script("\u{3b1}\u{431}"), "greek");
    assert_eq!(detect_script("\u{3b1}\u{431}\u{431}"), "cyrillic");
    assert_eq!(detect_script("ab\u{431}"), "latin");
    assert_eq!(detect_script("42"), "unknown");
}

#[test]
fn special_ids_come_from_their_own_names() {
    let inner = word_tokenizer(&["[MASK]", "x", "[PAD]", "[SEP]", "y", "[CLS]"]);
    let tok = Tokenizer::from_parts(inner, &no_names()).unwrap();
    assert_eq!((tok.cls_id, tok.sep_id, tok.pad_id, tok.mask_id), (5, 3, 2, 0));

    let inner = word_tokenizer(&["[MASK]", "[CLS]"]);
    match Tokenizer::from_parts(inner, &no_names()) {
        Err(Error::Tokenizer(msg)) => {
            assert_eq!(msg, "special token \"[SEP]\" is not in the vocabulary")
        }
        other => panic!("unexpected {:?}", other.map(|t| t.mask_id)),
    }
}

#[test]
fn whitespace_is_the_unicode_white_space_set() {
    for c in ['\t', '\n', '\u{b}', '\u{c}', '\r', ' ', '\u{85}', '\u{a0}', '\u{1680}', '\u{2000}', '\u{200a}', '\u{2028}', '\u{2029}', '\u{202f}', '\u{205f}', '\u{3000}'] {
        assert!(is_whitespace(c), "{c:?}");
    }
    for c in ['a', '\u{0}', '\u{1f}', '\u{200b}', '\u{180e}', '\u{feff}', '\u{2060}'] {
        assert!(!is_whitespace(c), "{c:?}");
    }
}

#[test]
fn dumped_strings_and_integers_read_back() {
    let texts = ["plain", "quote \" back \\ slash /", "ctl \u{1} \u{1f} \u{7f} \n\r\t\u{8}\u{c}", "caf\u{e9} \u{65e5} \u{1f600}", ""];
    for s in texts {
        for ascii in [false, true] {
            let text = dumps(&JsonValue::String(s.to_string()), ascii);
            assert_eq!(serde_json::from_str::<String>(&text).unwrap(), s);
        }
    }
    for n in [0i64, 7, -7, 1234567890, i64::MIN, i64::MAX] {
        let text = dumps(&JsonValue::Number(JsonNumber::NegInt(n)), true);
        assert_eq!(serde_json::from_str::<i64>(&text).unwrap(), n);
    }
    let text = dumps(&JsonValue::Number(JsonNumber::PosInt(u64::MAX)), true);
    assert_eq!(serde_json::from_str::<u64>(&text).unwrap(), u64::MAX);
}
