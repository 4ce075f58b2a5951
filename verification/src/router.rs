//! Chooses which checkpoint answers a request and keeps track of the loaded ones.
//!
//! Precedence: explicit checkpoint, then explicit task, then a detected typed-decisions workflow
//! (opt-in), then explicit language, then detected script/language, then the default.
//! `typed-decisions` is never chosen automatically unless `auto_task_detection` is on: it is
//! fine-tuned on four specific synthetic workflows and should not be a silent default.

use vstd::prelude::*;
use crate::checkpoint::{parse_spec, Checkpoint};
use crate::collections::{question_at, question_count, question_entries};
use crate::error::{Error, Result};
use crate::lang::{
    analyse, detection_matches, detect_script_spec, guess_code_spec, script_counts_spec,
    state_text_spec, count_sum, lemma_letters_bound, lemma_state_text_len, Detection,
};
use crate::pyjson::{decimal, push_decimal, push_repr, repr_spec};
use crate::agent::Request;
use crate::question::Questions;
use crate::state::State;
use crate::text::{
    chars_eq, chars_eq_str, chars_of, debug_quoted, debug_str, lowercase_spec, push_chars,
    push_str, replace, replace_spec, string_of, to_lowercase,
};

verus! {

// ---------------------------------------------------------------------------------------------
// Typed-decisions workflows.
// ---------------------------------------------------------------------------------------------

/// Number of typed-decisions workflows.
pub const WORKFLOW_COUNT: usize = 4;

/// Name of workflow `w`.
pub open spec fn workflow_name_spec(w: nat) -> Seq<char> {
    if w == 0 {
        "agent_trace_observability"@
    } else if w == 1 {
        "customer_service"@
    } else if w == 2 {
        "invoice_processing"@
    } else {
        "security_incidents"@
    }
}

/// Question-id signature of workflow `w`.
pub open spec fn workflow_ids_spec(w: nat) -> Seq<Seq<char>> {
    if w == 0 {
        seq!["action"@, "needs_review"@, "outcome"@, "risk"@, "urgency"@]
    } else if w == 1 {
        seq!["action"@, "category"@, "churn_risk"@, "needs_human"@, "urgency"@]
    } else if w == 2 {
        seq![
            "discrepancy_severity"@,
            "disposition"@,
            "duplicate"@,
            "matches_order"@,
            "urgency"@,
        ]
    } else {
        seq![
            "credential_compromise"@,
            "disposition"@,
            "severity"@,
            "true_positive"@,
            "urgency"@,
        ]
    }
}

fn workflow_name(w: usize) -> (r: &'static str)
    requires
        w < WORKFLOW_COUNT,
    ensures
        r@ == workflow_name_spec(w as nat),
{
    if w == 0 {
        "agent_trace_observability"
    } else if w == 1 {
        "customer_service"
    } else if w == 2 {
        "invoice_processing"
    } else {
        "security_incidents"
    }
}

fn workflow_ids(w: usize) -> (r: Vec<&'static str>)
    requires
        w < WORKFLOW_COUNT,
    ensures
        r@.map_values(|s: &str| s@) == workflow_ids_spec(w as nat),
{
    let v = if w == 0 {
        vec!["action", "needs_review", "outcome", "risk", "urgency"]
    } else if w == 1 {
        vec!["action", "category", "churn_risk", "needs_human", "urgency"]
    } else if w == 2 {
        vec!["discrepancy_severity", "disposition", "duplicate", "matches_order", "urgency"]
    } else {
        vec!["credential_compromise", "disposition", "severity", "true_positive", "urgency"]
    };
    assert(v@.map_values(|s: &str| s@) =~= workflow_ids_spec(w as nat));
    v
}

/// The set of question ids.
pub open spec fn question_ids(questions: Questions) -> Set<Seq<char>> {
    question_entries(questions).map_values(|e: (String, crate::question::Question)| e.0@).to_set()
}

/// The first workflow (from `w` on) whose id signature is exactly the set of question ids.
pub open spec fn workflow_from(questions: Questions, w: nat) -> Option<nat>
    decreases WORKFLOW_COUNT - w,
{
    if w >= WORKFLOW_COUNT {
        None
    } else if workflow_ids_spec(w).to_set() == question_ids(questions) {
        Some(w)
    } else {
        workflow_from(questions, w + 1)
    }
}

/// Name of the typed-decisions workflow whose question ids these are: an exact id-set match.
pub open spec fn workflow_spec(questions: Questions) -> Option<Seq<char>> {
    match workflow_from(questions, 0) {
        Some(w) => Some(workflow_name_spec(w)),
        None => None,
    }
}

/// The four id signatures differ pairwise.
proof fn lemma_signatures_differ(a: nat, b: nat)
    requires
        a < b < 4,
    ensures
        workflow_ids_spec(a).to_set() != workflow_ids_spec(b).to_set(),
{
    reveal_strlit("action");
    reveal_strlit("needs_review");
    reveal_strlit("category");
    reveal_strlit("churn_risk");
    reveal_strlit("needs_human");
    reveal_strlit("urgency");
    reveal_strlit("outcome");
    reveal_strlit("risk");
    reveal_strlit("discrepancy_severity");
    reveal_strlit("disposition");
    reveal_strlit("duplicate");
    reveal_strlit("matches_order");
    reveal_strlit("credential_compromise");
    reveal_strlit("severity");
    reveal_strlit("true_positive");
    let x: Seq<char> = if a == 0 {
        "needs_review"@
    } else if a == 1 {
        "action"@
    } else {
        "duplicate"@
    };
    let sa = workflow_ids_spec(a);
    let sb = workflow_ids_spec(b);
    let i: int = if a == 2 { 2 } else if a == 1 { 0 } else { 1 };
    assert(sa[i] == x);
    assert(sa.to_set().contains(x));
    assert(!sb.contains(x)) by {
        if sb.contains(x) {
            let j = choose|j: int| 0 <= j < sb.len() && sb[j] == x;
            assert(sb[j].len() == x.len());
            assert(sb[j][6] == x[6]);
            assert(false);
        }
    }
}

/// A question set is matched to a typed-decisions workflow exactly when its ids are that
/// workflow's signature: `agent_trace_observability` for action, needs_review, outcome, risk,
/// urgency; `customer_service` for action, category, churn_risk, needs_human, urgency;
/// `invoice_processing` for discrepancy_severity, disposition, duplicate, matches_order,
/// urgency; `security_incidents` for credential_compromise, disposition, severity,
/// true_positive, urgency; and to none otherwise.
pub proof fn lemma_workflow_by_signature(questions: Questions)
    ensures
        workflow_spec(questions) == Some("agent_trace_observability"@) <==> question_ids(questions)
            == seq!["action"@, "needs_review"@, "outcome"@, "risk"@, "urgency"@].to_set(),
        workflow_spec(questions) == Some("customer_service"@) <==> question_ids(questions)
            == seq!["action"@, "category"@, "churn_risk"@, "needs_human"@, "urgency"@].to_set(),
        workflow_spec(questions) == Some("invoice_processing"@) <==> question_ids(questions)
            == seq![
            "discrepancy_severity"@,
            "disposition"@,
            "duplicate"@,
            "matches_order"@,
            "urgency"@,
        ].to_set(),
        workflow_spec(questions) == Some("security_incidents"@) <==> question_ids(questions)
            == seq![
            "credential_compromise"@,
            "disposition"@,
            "severity"@,
            "true_positive"@,
            "urgency"@,
        ].to_set(),
        workflow_spec(questions) is None <==> (forall|w: nat|
            w < 4 ==> #[trigger] workflow_ids_spec(w).to_set() != question_ids(questions)),
{
    reveal_strlit("agent_trace_observability");
    reveal_strlit("customer_service");
    reveal_strlit("invoice_processing");
    reveal_strlit("security_incidents");
    lemma_signatures_differ(0, 1);
    lemma_signatures_differ(0, 2);
    lemma_signatures_differ(0, 3);
    lemma_signatures_differ(1, 2);
    lemma_signatures_differ(1, 3);
    lemma_signatures_differ(2, 3);
    let ids = question_ids(questions);
    reveal_with_fuel(workflow_from, 5);
    assert("agent_trace_observability"@.len() != "customer_service"@.len());
    assert("agent_trace_observability"@.len() != "invoice_processing"@.len());
    assert("agent_trace_observability"@.len() != "security_incidents"@.len());
    assert("customer_service"@.len() != "invoice_processing"@.len());
    assert("customer_service"@.len() != "security_incidents"@.len());
    assert("invoice_processing"@[0] != "security_incidents"@[0]);
    if workflow_spec(questions) is None {
        assert forall|w: nat| w < 4 implies #[trigger] workflow_ids_spec(w).to_set() != ids by {
            assert(w == 0 || w == 1 || w == 2 || w == 3);
        }
    }
}

/// Whether `k` spells one of `set`.
fn in_list(k: &Vec<char>, set: &Vec<&'static str>) -> (r: bool)
    ensures
        r == set@.map_values(|s: &str| s@).contains(k@),
{
    let ghost views = set@.map_values(|s: &str| s@);
    let mut i: usize = 0;
    while i < set.len()
        invariant
            i <= set.len(),
            views == set@.map_values(|s: &str| s@),
            forall|j: int| 0 <= j < i ==> views[j] != k@,
        decreases set.len() - i,
    {
        if chars_eq_str(k.as_slice(), set[i]) {
            assert(views[i as int] == k@);
            return true;
        }
        i += 1;
    }
    false
}

/// The question ids, as characters.
fn id_chars(questions: &Questions) -> (r: Vec<Vec<char>>)
    ensures
        r@.map_values(|v: Vec<char>| v@) == question_entries(*questions).map_values(
            |e: (String, crate::question::Question)| e.0@,
        ),
{
    let n = question_count(questions);
    let ghost entries = question_entries(*questions);
    let mut out: Vec<Vec<char>> = Vec::new();
    let mut i: usize = 0;
    while i < n
        invariant
            n == entries.len(),
            entries == question_entries(*questions),
            i <= n,
            out@.map_values(|v: Vec<char>| v@) == entries.subrange(0, i as int).map_values(
                |e: (String, crate::question::Question)| e.0@,
            ),
        decreases n - i,
    {
        let ghost prev = out@.map_values(|v: Vec<char>| v@);
        match question_at(questions, i) {
            Some((k, _)) => {
                let cs = chars_of(k.as_str());
                assert(cs@ == entries[i as int].0@);
                out.push(cs);
            },
            None => {},
        }
        assert(out@.map_values(|v: Vec<char>| v@) =~= prev.push(entries[i as int].0@));
        i += 1;
        assert(out@.map_values(|v: Vec<char>| v@) =~= entries.subrange(0, i as int).map_values(
            |e: (String, crate::question::Question)| e.0@,
        ));
    }
    assert(entries.subrange(0, n as int) =~= entries);
    out
}

/// Whether the ids are exactly the signature, as sets.
fn same_id_set(ids: &Vec<Vec<char>>, sig: &Vec<&'static str>) -> (r: bool)
    ensures
        r == (ids@.map_values(|v: Vec<char>| v@).to_set() == sig@.map_values(|s: &str| s@).to_set()),
{
    let ghost a = ids@.map_values(|v: Vec<char>| v@);
    let ghost b = sig@.map_values(|s: &str| s@);
    let mut i: usize = 0;
    while i < ids.len()
        invariant
            i <= ids.len(),
            a == ids@.map_values(|v: Vec<char>| v@),
            b == sig@.map_values(|s: &str| s@),
            forall|j: int| 0 <= j < i ==> b.contains(#[trigger] a[j]),
        decreases ids.len() - i,
    {
        if !in_list(&ids[i], sig) {
            assert(a.to_set().contains(a[i as int]));
            assert(!b.to_set().contains(a[i as int]));
            return false;
        }
        i += 1;
    }
    let mut j: usize = 0;
    while j < sig.len()
        invariant
            j <= sig.len(),
            a == ids@.map_values(|v: Vec<char>| v@),
            b == sig@.map_values(|s: &str| s@),
            forall|k: int| 0 <= k < ids.len() ==> b.contains(#[trigger] a[k]),
            forall|k: int| 0 <= k < j ==> a.contains(#[trigger] b[k]),
        decreases sig.len() - j,
    {
        let target = chars_of(sig[j]);
        let mut found = false;
        let mut i: usize = 0;
        while i < ids.len()
            invariant
                i <= ids.len(),
                a == ids@.map_values(|v: Vec<char>| v@),
                target@ == b[j as int],
                j < sig.len(),
                b == sig@.map_values(|s: &str| s@),
                found ==> a.contains(b[j as int]),
                !found ==> forall|k: int| 0 <= k < i ==> a[k] != b[j as int],
            decreases ids.len() - i,
        {
            if !found && chars_eq(ids[i].as_slice(), target.as_slice()) {
                found = true;
                assert(a[i as int] == b[j as int]);
            }
            i += 1;
        }
        if !found {
            assert(b.to_set().contains(b[j as int]));
            assert(!a.to_set().contains(b[j as int]));
            return false;
        }
        j += 1;
    }
    assert(a.to_set() =~= b.to_set());
    true
}

/// Name of the typed-decisions workflow whose question ids these are, if any. Requires an exact
/// id-set match, so an unrelated schema that happens to contain `urgency` is never captured.
pub fn match_typed_decisions_workflow(questions: &Questions) -> (r: Option<&'static str>)
    ensures
        r.is_some() == workflow_spec(*questions).is_some(),
        r matches Some(name) ==> workflow_spec(*questions) == Some(name@),
{
    let ids = id_chars(questions);
    let mut w: usize = 0;
    while w < WORKFLOW_COUNT
        invariant
            w <= WORKFLOW_COUNT,
            ids@.map_values(|v: Vec<char>| v@).to_set() == question_ids(*questions),
            workflow_from(*questions, 0) == workflow_from(*questions, w as nat),
        decreases WORKFLOW_COUNT - w,
    {
        let sig = workflow_ids(w);
        if same_id_set(&ids, &sig) {
            return Some(workflow_name(w));
        }
        w += 1;
    }
    None
}

// ---------------------------------------------------------------------------------------------
// Sources, overrides and decisions.
// ---------------------------------------------------------------------------------------------

/// Where a checkpoint's files come from.
#[derive(Debug, Clone)]
pub enum Source {
    /// A Hub repo and optional subfolder.
    Hub { repo: String, subfolder: Option<String> },
    /// A local checkpoint directory (its path).
    Dir(String),
}

impl Source {
    /// `repo/subfolder` or the directory path, as reported in routing metadata.
    pub open spec fn describe_spec(self) -> Seq<char> {
        match self {
            Source::Hub { repo, subfolder } => match subfolder {
                Some(sub) => repo@ + seq!['/'] + sub@,
                None => repo@,
            },
            Source::Dir(path) => path@,
        }
    }

    pub fn describe(&self) -> (r: String)
        ensures
            r@ == self.describe_spec(),
    {
        match self {
            Source::Hub { repo, subfolder } => match subfolder {
                Some(sub) => {
                    let mut out = chars_of(repo.as_str());
                    out.push('/');
                    push_str(&mut out, sub.as_str());
                    string_of(&out)
                },
                None => repo.clone(),
            },
            Source::Dir(path) => path.clone(),
        }
    }

    /// The bundle repo's source for a checkpoint.
    pub fn bundle(checkpoint: Checkpoint) -> (r: Source)
        ensures
            r.describe_spec() == checkpoint.repo_spec(),
    {
        let repo = crate::checkpoint::BUNDLE_REPO.to_owned();
        match checkpoint.subfolder() {
            Some(sub) => Source::Hub { repo, subfolder: Some(sub.to_owned()) },
            None => Source::Hub { repo, subfolder: None },
        }
    }
}

/// Caller overrides for one request.
#[derive(Debug, Clone)]
pub struct RouteOverrides {
    /// Use exactly this checkpoint.
    pub model: Option<Checkpoint>,
    /// A task name (`typed_decisions` / `typed-decisions` or any checkpoint alias).
    pub task: Option<String>,
    /// A language tag; `en`/`eng`/`english` (any region) routes to English, anything else to
    /// multilingual.
    pub lang: Option<String>,
}

impl RouteOverrides {
    /// No overrides.
    pub fn none() -> (r: RouteOverrides)
        ensures
            r.model is None && r.task is None && r.lang is None,
    {
        RouteOverrides { model: None, task: None, lang: None }
    }
}

impl Default for RouteOverrides {
    fn default() -> (r: RouteOverrides)
        ensures
            r.model is None && r.task is None && r.lang is None,
    {
        RouteOverrides::none()
    }
}

/// The routing outcome: which checkpoint, why, and what was detected.
#[derive(Debug, Clone)]
pub struct RouteDecision {
    pub model: Checkpoint,
    pub repo: String,
    pub reason: String,
    pub detection: Option<Detection>,
    pub workflow: Option<String>,
}

// ---------------------------------------------------------------------------------------------
// The decision rules.
// ---------------------------------------------------------------------------------------------

/// The checkpoint an explicit task names: `typed_decisions` (any case, `-` or `_`), else a
/// checkpoint alias.
pub open spec fn task_checkpoint_spec(task: Seq<char>) -> Option<Checkpoint> {
    if replace_spec(lowercase_spec(task), seq!['-'], seq!['_']) == "typed_decisions"@ {
        Some(Checkpoint::TypedDecisions)
    } else {
        parse_spec(task)
    }
}

/// The characters of `s` before its first `-`.
pub open spec fn before_dash(s: Seq<char>) -> Seq<char>
    decreases s.len(),
{
    if s.len() == 0 {
        s
    } else if s[0] == '-' {
        Seq::empty()
    } else {
        seq![s[0]] + before_dash(s.drop_first())
    }
}

/// The checkpoint an explicit language selects: English for `en`/`eng`/`english` in any case
/// and with any region, multilingual otherwise.
pub open spec fn lang_checkpoint_spec(lang: Seq<char>) -> Checkpoint {
    let primary = before_dash(lowercase_spec(lang));
    if primary == "en"@ || primary == "eng"@ || primary == "english"@ {
        Checkpoint::English
    } else {
        Checkpoint::Multilingual
    }
}

/// `num / den` rounded to the nearest integer, halves to even.
pub open spec fn round_half_even(num: nat, den: nat) -> nat {
    let q = num / den;
    let r = num % den;
    if 2 * r > den || (2 * r == den && q % 2 == 1) {
        q + 1
    } else {
        q
    }
}

/// The non-Latin share of the letters as the reason prints it: the fraction rounded to four
/// decimals, then shown as a whole percentage the way the binary double `100·x` rounds (halves go
/// to even, except that 54.5 shows as 55 and 57.5 as 57, whose doubles fall just above and just
/// below the half).
pub open spec fn non_latin_percent(latin: nat, letters: nat) -> nat {
    let basis = round_half_even(((letters - latin) * 10000) as nat, letters);
    let p = basis / 100;
    let rem = basis % 100;
    if rem > 50 || (rem == 50 && ((p % 2 == 1 && p != 57) || p == 54)) {
        p + 1
    } else {
        p
    }
}

/// The reason given for an explicit checkpoint.
pub open spec fn model_reason(c: Checkpoint) -> Seq<char> {
    "explicit model="@ + repr_spec(c.name_spec())
}

pub open spec fn task_reason(task: Seq<char>) -> Seq<char> {
    "explicit task="@ + repr_spec(task)
}

pub open spec fn workflow_reason(wf: Seq<char>) -> Seq<char> {
    "question ids match the "@ + repr_spec(wf) + " typed-decisions workflow"@
}

pub open spec fn lang_reason(lang: Seq<char>) -> Seq<char> {
    "explicit lang="@ + repr_spec(lang)
}

pub open spec fn default_reason(default: Checkpoint) -> Seq<char> {
    "no letters detected in state; using default ("@ + default.name_spec() + ")"@
}

pub open spec fn non_latin_reason(script: Seq<char>, percent: nat) -> Seq<char> {
    "non-Latin script ("@ + script + ", "@ + decimal(percent)
        + "% of letters); the English checkpoint cannot read it"@
}

pub open spec fn not_english_reason(language: Option<Seq<char>>) -> Seq<char> {
    "Latin script but language looks like "@ + repr_spec(
        match language {
            Some(l) => l,
            None => Seq::empty(),
        },
    ) + ", not English"@
}

pub open spec fn english_reason() -> Seq<char> {
    "English Latin text"@
}

/// Caller overrides as plain values.
pub open spec fn overrides_view(o: RouteOverrides) -> (Option<Checkpoint>, Option<Seq<char>>, Option<
    Seq<char>,
>) {
    (
        o.model,
        match o.task {
            Some(t) => Some(t@),
            None => None,
        },
        match o.lang {
            Some(l) => Some(l@),
            None => None,
        },
    )
}

/// The routing rule: `Some((checkpoint, reason, detected, workflow))`, or `None` for an unknown
/// task. `detected` says whether the decision rests on detection.
pub open spec fn route_spec(
    default: Checkpoint,
    auto_task_detection: bool,
    state: State,
    questions: Questions,
    overrides: (Option<Checkpoint>, Option<Seq<char>>, Option<Seq<char>>),
) -> Option<(Checkpoint, Seq<char>, bool, Option<Seq<char>>)> {
    let (model, task, lang) = overrides;
    let workflow = workflow_spec(questions);
    if model is Some {
        Some((model->0, model_reason(model->0), false, None))
    } else if task is Some {
        match task_checkpoint_spec(task->0) {
            Some(c) => Some((c, task_reason(task->0), false, None)),
            None => None,
        }
    } else if workflow is Some && auto_task_detection {
        Some((Checkpoint::TypedDecisions, workflow_reason(workflow->0), false, workflow))
    } else if lang is Some {
        Some((lang_checkpoint_spec(lang->0), lang_reason(lang->0), false, workflow))
    } else {
        let text = state_text_spec(state);
        let script = detect_script_spec(text);
        let (es, latin) = script_counts_spec(text);
        let letters = count_sum(es) + latin;
        if script == "unknown"@ {
            Some((default, default_reason(default), true, workflow))
        } else if script != "latin"@ {
            Some(
                (
                    Checkpoint::Multilingual,
                    non_latin_reason(script, non_latin_percent(latin, letters)),
                    true,
                    workflow,
                ),
            )
        } else if !crate::lang::english_spec(text) {
            Some(
                (
                    Checkpoint::Multilingual,
                    not_english_reason(guess_code_spec(text)),
                    true,
                    workflow,
                ),
            )
        } else {
            Some((Checkpoint::English, english_reason(), true, workflow))
        }
    }
}

/// The precedence of the routing rules. An explicit checkpoint always wins; otherwise a task
/// that names a checkpoint wins; otherwise, with automatic task detection on, questions that
/// exactly match a workflow go to typed-decisions; otherwise an explicit language chooses
/// between English and multilingual. Typed-decisions is never chosen silently: with neither an
/// explicit checkpoint nor a task and with automatic detection off, it is chosen only when it
/// is the default.
pub proof fn lemma_route_precedence(
    default: Checkpoint,
    auto_task_detection: bool,
    state: State,
    questions: Questions,
    overrides: (Option<Checkpoint>, Option<Seq<char>>, Option<Seq<char>>),
)
    ensures
        overrides.0 is Some ==> chosen(default, auto_task_detection, state, questions, overrides)
            == Some(overrides.0->0),
        overrides.0 is None && overrides.1 is Some ==> chosen(
            default,
            auto_task_detection,
            state,
            questions,
            overrides,
        ) == task_checkpoint_spec(overrides.1->0),
        overrides.0 is None && overrides.1 is None && auto_task_detection && workflow_spec(
            questions,
        ) is Some ==> chosen(default, auto_task_detection, state, questions, overrides) == Some(
            Checkpoint::TypedDecisions,
        ),
        overrides.0 is None && overrides.1 is None && !(auto_task_detection && workflow_spec(
            questions,
        ) is Some) && overrides.2 is Some ==> chosen(
            default,
            auto_task_detection,
            state,
            questions,
            overrides,
        ) == Some(lang_checkpoint_spec(overrides.2->0)),
        overrides.0 is None && overrides.1 is None && !auto_task_detection && default
            != Checkpoint::TypedDecisions ==> chosen(
            default,
            auto_task_detection,
            state,
            questions,
            overrides,
        ) is Some && chosen(default, auto_task_detection, state, questions, overrides)
            != Some(Checkpoint::TypedDecisions),
{
}

/// The checkpoint that routing chooses, if any.
pub open spec fn chosen(
    default: Checkpoint,
    auto_task_detection: bool,
    state: State,
    questions: Questions,
    overrides: (Option<Checkpoint>, Option<Seq<char>>, Option<Seq<char>>),
) -> Option<Checkpoint> {
    match route_spec(default, auto_task_detection, state, questions, overrides) {
        Some(d) => Some(d.0),
        None => None,
    }
}

/// `s` with `-` replaced by `_`.
fn dash_to_underscore(s: &[char]) -> (r: Vec<char>)
    ensures
        r@ == replace_spec(s@, seq!['-'], seq!['_']),
{
    let pat = vec!['-'];
    let rep = vec!['_'];
    proof {
        assert(pat@ =~= seq!['-']);
        assert(rep@ =~= seq!['_']);
    }
    replace(s, &pat, &rep)
}

/// The characters before the first `-`.
fn primary_subtag(s: &[char]) -> (r: Vec<char>)
    ensures
        r@ == before_dash(s@),
{
    let mut i: usize = 0;
    while i < s.len() && s[i] != '-'
        invariant
            i <= s.len(),
            forall|j: int| 0 <= j < i ==> s@[j] != '-',
        decreases s.len() - i,
    {
        i += 1;
    }
    let mut out: Vec<char> = Vec::new();
    crate::text::push_range(&mut out, s, 0, i);
    proof {
        lemma_before_dash(s@, i as int);
    }
    out
}

proof fn lemma_before_dash(s: Seq<char>, i: int)
    requires
        0 <= i <= s.len(),
        forall|j: int| 0 <= j < i ==> s[j] != '-',
        i == s.len() || s[i] == '-',
    ensures
        before_dash(s) == s.subrange(0, i),
    decreases s.len(),
{
    if s.len() > 0 && i > 0 {
        lemma_before_dash(s.drop_first(), i - 1);
        assert(seq![s[0]] + s.drop_first().subrange(0, i - 1) =~= s.subrange(0, i));
    } else {
        assert(s.subrange(0, i) =~= Seq::<char>::empty());
    }
}

fn lowercase_chars(s: &str) -> (r: Vec<char>)
    ensures
        r@ == lowercase_spec(s@),
{
    let l = to_lowercase(s);
    chars_of(l.as_str())
}

/// `lit` followed by `repr(s)`.
fn text_with_repr(lit: &str, s: &[char]) -> (r: Vec<char>)
    ensures
        r@ == lit@ + repr_spec(s@),
{
    let mut out = chars_of(lit);
    push_repr(&mut out, s);
    out
}

fn same(a: &str, b: &str) -> (r: bool)
    ensures
        r == (a@ == b@),
{
    let ac = chars_of(a);
    chars_eq_str(&ac, b)
}

/// The non-Latin percentage (see [`non_latin_percent`]).
fn percent(latin: usize, letters: usize) -> (r: u64)
    requires
        latin <= letters,
        0 < letters <= MAX_LETTERS,
    ensures
        r == non_latin_percent(latin as nat, letters as nat),
{
    let num: u64 = ((letters - latin) as u64) * 10000;
    let den: u64 = letters as u64;
    let q = num / den;
    let rem = num % den;
    let basis = if 2 * rem > den || (2 * rem == den && q % 2 == 1) { q + 1 } else { q };
    let p = basis / 100;
    let r2 = basis % 100;
    if r2 > 50 || (r2 == 50 && ((p % 2 == 1 && p != 57) || p == 54)) {
        p + 1
    } else {
        p
    }
}

/// Detection texts are at most 4000 characters, so they hold at most this many letters.
pub const MAX_LETTERS: usize = 4000;


/// `order[lo..hi]`.
fn copy_range(order: &Vec<Checkpoint>, lo: usize, hi: usize) -> (r: Vec<Checkpoint>)
    requires
        lo <= hi <= order.len(),
    ensures
        r@ == order@.subrange(lo as int, hi as int),
{
    let mut out: Vec<Checkpoint> = Vec::new();
    let mut i: usize = lo;
    while i < hi
        invariant
            lo <= i <= hi <= order.len(),
            out@ == order@.subrange(lo as int, i as int),
        decreases hi - i,
    {
        out.push(order[i]);
        i += 1;
        assert(out@ =~= order@.subrange(lo as int, i as int));
    }
    out
}

/// `order` without `c`.
fn without_exec(order: &Vec<Checkpoint>, c: Checkpoint) -> (r: Vec<Checkpoint>)
    ensures
        r@ == without(order@, c),
{
    let mut out: Vec<Checkpoint> = Vec::new();
    let mut i: usize = 0;
    while i < order.len()
        invariant
            i <= order.len(),
            out@ == without(order@.subrange(0, i as int), c),
        decreases order.len() - i,
    {
        let x = order[i];
        assert(order@.subrange(0, i + 1).drop_last() =~= order@.subrange(0, i as int));
        if x != c {
            out.push(x);
        }
        i += 1;
    }
    assert(order@.subrange(0, order.len() as int) =~= order@);
    out
}

/// Whether `order` holds `c`.
fn holds(order: &Vec<Checkpoint>, c: Checkpoint) -> (r: bool)
    ensures
        r == order@.contains(c),
{
    let mut i: usize = 0;
    while i < order.len()
        invariant
            i <= order.len(),
            forall|j: int| 0 <= j < i ==> order@[j] != c,
        decreases order.len() - i,
    {
        if order[i] == c {
            assert(order@[i as int] == c);
            return true;
        }
        i += 1;
    }
    false
}

/// Whether routing fails for every request: no explicit checkpoint, and a task that names none.
pub open spec fn rejects_task(o: RouteOverrides) -> bool {
    o.model is None && o.task is Some && task_checkpoint_spec(o.task->0@) is None
}

/// Request indices grouped by checkpoint: groups in the order their checkpoint first occurs,
/// indices ascending within a group.
pub open spec fn groups_spec(models: Seq<Checkpoint>) -> Seq<(Checkpoint, Seq<usize>)>
    decreases models.len(),
{
    if models.len() == 0 {
        Seq::empty()
    } else {
        let g = groups_spec(models.drop_last());
        let c = models.last();
        let i = (models.len() - 1) as usize;
        match group_index(g, c) {
            Some(j) => g.update(j, (c, g[j].1.push(i))),
            None => g.push((c, seq![i])),
        }
    }
}

/// The position of the group for `c`, if there is one.
pub open spec fn group_index(g: Seq<(Checkpoint, Seq<usize>)>, c: Checkpoint) -> Option<int> {
    if exists|j: int| 0 <= j < g.len() && g[j].0 == c {
        Some(choose|j: int| 0 <= j < g.len() && g[j].0 == c)
    } else {
        None
    }
}

/// Where request `i` lands: its group and its place in that group.
pub open spec fn slot_of(models: Seq<Checkpoint>, i: int) -> (int, int)
    decreases models.len(),
{
    if models.len() == 0 {
        (0, 0)
    } else if i == models.len() - 1 {
        let g = groups_spec(models.drop_last());
        match group_index(g, models.last()) {
            Some(k) => (k, g[k].1.len() as int),
            None => (g.len() as int, 0),
        }
    } else {
        slot_of(models.drop_last(), i)
    }
}

/// Whether no two groups share a checkpoint.
pub open spec fn distinct_groups(g: Seq<(Checkpoint, Seq<usize>)>) -> bool {
    forall|a: int, b: int| 0 <= a < b < g.len() ==> #[trigger] g[a].0 != #[trigger] g[b].0
}

/// Grouping sends every request to exactly one group, the one of its checkpoint: the groups'
/// checkpoints differ, each group lists ascending indices of requests routed to its checkpoint,
/// and every request index occurs in its checkpoint's group.
pub proof fn lemma_groups(models: Seq<Checkpoint>)
    requires
        models.len() <= usize::MAX,
    ensures
        distinct_groups(groups_spec(models)),
        forall|j: int, t: int|
            0 <= j < groups_spec(models).len() && 0 <= t < groups_spec(models)[j].1.len()
                ==> #[trigger] groups_spec(models)[j].1[t] < models.len() && models[groups_spec(
                models,
            )[j].1[t] as int] == groups_spec(models)[j].0,
        forall|j: int, t: int, u: int|
            0 <= j < groups_spec(models).len() && 0 <= t < u < groups_spec(models)[j].1.len()
                ==> #[trigger] groups_spec(models)[j].1[t] < #[trigger] groups_spec(models)[j].1[u],
        forall|i: int|
            0 <= i < models.len() ==> {
                let (j, t) = #[trigger] slot_of(models, i);
                &&& 0 <= j < groups_spec(models).len()
                &&& 0 <= t < groups_spec(models)[j].1.len()
                &&& groups_spec(models)[j].1[t] == i
            },
    decreases models.len(),
{
    if models.len() > 0 {
        let init = models.drop_last();
        lemma_groups(init);
        let g = groups_spec(init);
        let c = models.last();
        let n = (models.len() - 1) as usize;
        let h = groups_spec(models);
        assert forall|j: int, t: int| 0 <= j < g.len() && 0 <= t < g[j].1.len() implies
            #[trigger] g[j].1[t] < n && models[g[j].1[t] as int] == g[j].0 by {
            assert(init[g[j].1[t] as int] == g[j].0);
        }
        if exists|j: int| 0 <= j < g.len() && g[j].0 == c {
            let k = choose|j: int| 0 <= j < g.len() && g[j].0 == c;
            assert(h == g.update(k, (c, g[k].1.push(n))));
            assert forall|a: int, b: int| 0 <= a < b < h.len() implies #[trigger] h[a].0 != #[trigger] h[b].0 by {
                assert(h[a].0 == g[a].0 && h[b].0 == g[b].0);
            }
            assert forall|j: int, t: int|
                0 <= j < h.len() && 0 <= t < h[j].1.len() implies #[trigger] h[j].1[t]
                    < models.len() && models[h[j].1[t] as int] == h[j].0 by {
                if j == k && t == g[k].1.len() {
                } else {
                    assert(h[j].1[t] == g[j].1[t]);
                }
            }
            assert forall|j: int, t: int, u: int|
                0 <= j < h.len() && 0 <= t < u < h[j].1.len() implies #[trigger] h[j].1[t]
                    < #[trigger] h[j].1[u] by {
                if j == k && u == g[k].1.len() {
                    assert(h[j].1[t] == g[j].1[t]);
                } else {
                    assert(h[j].1[t] == g[j].1[t] && h[j].1[u] == g[j].1[u]);
                }
            }
            assert forall|i: int| 0 <= i < models.len() implies {
                let (j, t) = #[trigger] slot_of(models, i);
                &&& 0 <= j < h.len()
                &&& 0 <= t < h[j].1.len()
                &&& h[j].1[t] == i
            } by {
                if i == n {
                    assert(slot_of(models, i) == (k, g[k].1.len() as int));
                } else {
                    let (j, t) = slot_of(init, i);
                    assert(slot_of(models, i) == slot_of(init, i));
                    assert(h[j].1[t] == g[j].1[t]);
                }
            }
        } else {
            assert(h == g.push((c, seq![n])));
            assert forall|a: int, b: int| 0 <= a < b < h.len() implies #[trigger] h[a].0 != #[trigger] h[b].0 by {
                if b == g.len() {
                    assert(h[a] == g[a]);
                } else {
                    assert(h[a] == g[a] && h[b] == g[b]);
                }
            }
            assert forall|j: int, t: int|
                0 <= j < h.len() && 0 <= t < h[j].1.len() implies #[trigger] h[j].1[t]
                    < models.len() && models[h[j].1[t] as int] == h[j].0 by {
                if j < g.len() {
                    assert(h[j] == g[j]);
                }
            }
            assert forall|j: int, t: int, u: int|
                0 <= j < h.len() && 0 <= t < u < h[j].1.len() implies #[trigger] h[j].1[t]
                    < #[trigger] h[j].1[u] by {
                assert(j < g.len());
                assert(h[j] == g[j]);
            }
            assert forall|i: int| 0 <= i < models.len() implies {
                let (j, t) = #[trigger] slot_of(models, i);
                &&& 0 <= j < h.len()
                &&& 0 <= t < h[j].1.len()
                &&& h[j].1[t] == i
            } by {
                if i == n {
                    assert(slot_of(models, i) == (g.len() as int, 0int));
                } else {
                    let (j, t) = slot_of(init, i);
                    assert(slot_of(models, i) == slot_of(init, i));
                    assert(h[j] == g[j]);
                }
            }
        }
    }
}

/// The position of the group for `c`.
fn find_group(groups: &Vec<(Checkpoint, Vec<usize>)>, c: Checkpoint) -> (r: Option<usize>)
    ensures
        r matches Some(j) ==> j < groups@.len() && groups@[j as int].0 == c,
        r is None ==> forall|k: int| 0 <= k < groups@.len() ==> groups@[k].0 != c,
{
    let mut j: usize = 0;
    while j < groups.len()
        invariant
            j <= groups.len(),
            forall|k: int| 0 <= k < j ==> groups@[k].0 != c,
        decreases groups.len() - j,
    {
        if groups[j].0 == c {
            return Some(j);
        }
        j += 1;
    }
    None
}

/// Adds request `i` to the group of `c`, opening one if needed.
fn add_to_group(groups: &mut Vec<(Checkpoint, Vec<usize>)>, c: Checkpoint, i: usize)
    requires
        distinct_groups(old(groups)@.map_values(|g: (Checkpoint, Vec<usize>)| (g.0, g.1@))),
    ensures
        final(groups)@.map_values(|g: (Checkpoint, Vec<usize>)| (g.0, g.1@)) == ({
            let gv = old(groups)@.map_values(|g: (Checkpoint, Vec<usize>)| (g.0, g.1@));
            match group_index(gv, c) {
                Some(j) => gv.update(j, (c, gv[j].1.push(i))),
                None => gv.push((c, seq![i])),
            }
        }),
{
    let ghost gv = groups@.map_values(|g: (Checkpoint, Vec<usize>)| (g.0, g.1@));
    match find_group(groups, c) {
        Some(j) => {
            proof {
                assert(gv[j as int].0 == c);
                let k = choose|k: int| 0 <= k < gv.len() && gv[k].0 == c;
                if k != j {
                    if k < j {
                        assert(gv[k].0 != gv[j as int].0);
                    } else {
                        assert(gv[j as int].0 != gv[k].0);
                    }
                }
            }
            let mut g = groups.remove(j);
            g.1.push(i);
            groups.insert(j, g);
            assert(groups@.map_values(|g: (Checkpoint, Vec<usize>)| (g.0, g.1@)) =~= gv.update(
                j as int,
                (c, gv[j as int].1.push(i)),
            ));
        },
        None => {
            proof {
                assert forall|k: int| 0 <= k < gv.len() implies gv[k].0 != c by {
                    assert(gv[k].0 == groups@[k].0);
                }
            }
            let v = vec![i];
            assert(v@ =~= seq![i]);
            let ghost before = groups@;
            groups.push((c, v));
            assert(groups@ == before.push((c, v)));
            assert(groups@.map_values(|g: (Checkpoint, Vec<usize>)| (g.0, g.1@)) =~= gv.push(
                (c, seq![i]),
            ));
        },
    }
}

/// Groups request indices by the checkpoint each was routed to, so that a batch reloads each
/// checkpoint once: groups in the order their checkpoint first occurs, indices ascending.
pub fn group_requests(models: &[Checkpoint]) -> (r: Vec<(Checkpoint, Vec<usize>)>)
    ensures
        r@.map_values(|g: (Checkpoint, Vec<usize>)| (g.0, g.1@)) == groups_spec(models@),
{
    let mut groups: Vec<(Checkpoint, Vec<usize>)> = Vec::new();
    let mut i: usize = 0;
    while i < models.len()
        invariant
            i <= models.len(),
            groups@.map_values(|g: (Checkpoint, Vec<usize>)| (g.0, g.1@)) == groups_spec(
                models@.take(i as int),
            ),
        decreases models.len() - i,
    {
        proof {
            lemma_groups(models@.take(i as int));
            assert(models@.take(i as int).len() <= usize::MAX);
            assert(models@.take(i + 1).drop_last() =~= models@.take(i as int));
            assert(models@.take(i + 1).last() == models@[i as int]);
        }
        add_to_group(&mut groups, models[i], i);
        i += 1;
    }
    assert(models@.take(models.len() as int) =~= models@);
    groups
}

/// Renumbers a failure inside a checkpoint's group to the batch's numbering: a request error's
/// index `i` becomes `idx[i]`; other errors pass through.
pub fn reindex_error(e: Error, idx: &[usize]) -> (r: Error)
    requires
        e matches Error::Request { request, .. } ==> request < idx@.len(),
    ensures
        match e {
            Error::Request { request, source } => r == (Error::Request {
                request: idx@[request as int],
                source,
            }),
            _ => r == e,
        },
{
    match e {
        Error::Request { request, source } => Error::Request { request: idx[request], source },
        e => e,
    }
}

// ---------------------------------------------------------------------------------------------
// The router.
// ---------------------------------------------------------------------------------------------

/// Routes requests to checkpoints and tracks which ones are resident, keeping at most
/// `max_loaded` (least-recently-used eviction). The agents themselves live with the caller.
#[derive(Debug)]
pub struct Router {
    english: Source,
    multilingual: Source,
    typed_decisions: Source,
    max_loaded: usize,
    default: Checkpoint,
    auto_task_detection: bool,
    /// Least-recently-used first.
    loaded: Vec<Checkpoint>,
}

/// The largest of three numbers.
pub open spec fn max3(a: nat, b: nat, c: nat) -> nat {
    if a >= b && a >= c {
        a
    } else if b >= c {
        b
    } else {
        c
    }
}

/// `order` without `c`.
pub open spec fn without(order: Seq<Checkpoint>, c: Checkpoint) -> Seq<Checkpoint>
    decreases order.len(),
{
    if order.len() == 0 {
        order
    } else {
        let rest = without(order.drop_last(), c);
        if order.last() == c {
            rest
        } else {
            rest.push(order.last())
        }
    }
}

/// `order` with `c` moved (or added) to the end: its most recent use.
pub open spec fn touch_spec(order: Seq<Checkpoint>, c: Checkpoint) -> Seq<Checkpoint> {
    without(order, c).push(c)
}

/// How many of the oldest entries of `order` go when at most `max` may stay.
pub open spec fn excess(order: Seq<Checkpoint>, max: nat) -> nat {
    if order.len() > max {
        (order.len() - max) as nat
    } else {
        0
    }
}

/// `order` after a cold load of `c`: `c` is added last and the least-recently-used entries
/// beyond `max` are evicted.
pub open spec fn admit_spec(order: Seq<Checkpoint>, c: Checkpoint, max: nat) -> Seq<Checkpoint> {
    order.push(c).skip(excess(order.push(c), max) as int)
}

/// The entries that a cold load of `c` evicts, oldest first.
pub open spec fn evicted_spec(order: Seq<Checkpoint>, c: Checkpoint, max: nat) -> Seq<Checkpoint> {
    order.push(c).take(excess(order.push(c), max) as int)
}

/// The resident list after a use of `c`: a resident checkpoint only becomes the most recent, a
/// new one is admitted.
pub open spec fn load_spec(order: Seq<Checkpoint>, c: Checkpoint, max: nat) -> Seq<Checkpoint> {
    if order.contains(c) {
        touch_spec(order, c)
    } else {
        admit_spec(order, c, max)
    }
}

proof fn lemma_without(order: Seq<Checkpoint>, c: Checkpoint)
    ensures
        forall|x: Checkpoint| #[trigger] without(order, c).contains(x) <==> (order.contains(x) && x != c),
        order.no_duplicates() ==> without(order, c).no_duplicates(),
        without(order, c).len() <= order.len(),
        order.contains(c) ==> without(order, c).len() < order.len(),
        !order.contains(c) ==> without(order, c) == order,
    decreases order.len(),
{
    if order.len() > 0 {
        let init = order.drop_last();
        lemma_without(init, c);
        assert(order == init.push(order.last()));
        assert forall|x: Checkpoint| #[trigger] order.contains(x) <==> (init.contains(x) || x == order.last()) by {
            if order.contains(x) {
                let i = choose|i: int| 0 <= i < order.len() && order[i] == x;
                if i < order.len() - 1 {
                    assert(init[i] == x);
                }
            }
            if init.contains(x) {
                let i = choose|i: int| 0 <= i < init.len() && init[i] == x;
                assert(order[i] == x);
            }
            if x == order.last() {
                assert(order[order.len() - 1] == x);
            }
        }
        let rest = without(init, c);
        if order.last() != c {
            assert forall|x: Checkpoint| #[trigger] rest.push(order.last()).contains(x) <==> (rest.contains(x) || x == order.last()) by {
                if rest.push(order.last()).contains(x) {
                    let i = choose|i: int| 0 <= i < rest.len() + 1 && rest.push(order.last())[i] == x;
                    if i < rest.len() {
                        assert(rest[i] == x);
                    }
                }
                if rest.contains(x) {
                    let i = choose|i: int| 0 <= i < rest.len() && rest[i] == x;
                    assert(rest.push(order.last())[i] == x);
                }
                if x == order.last() {
                    assert(rest.push(order.last())[rest.len() as int] == x);
                }
            }
            if order.no_duplicates() {
                assert(init.no_duplicates()) by {
                    assert forall|i: int, j: int| 0 <= i < init.len() && 0 <= j < init.len() && i != j implies init[i] != init[j] by {
                        assert(order[i] == init[i] && order[j] == init[j]);
                    }
                }
                assert(!init.contains(order.last())) by {
                    if init.contains(order.last()) {
                        let i = choose|i: int| 0 <= i < init.len() && init[i] == order.last();
                        assert(order[i] == order[order.len() - 1]);
                    }
                }
                assert(!rest.contains(order.last()));
                assert(rest.push(order.last()).no_duplicates()) by {
                    let t = rest.push(order.last());
                    assert forall|i: int, j: int| 0 <= i < t.len() && 0 <= j < t.len() && i != j implies t[i] != t[j] by {
                        if i < rest.len() && j < rest.len() {
                            assert(t[i] == rest[i] && t[j] == rest[j]);
                        } else if i < rest.len() {
                            assert(rest.contains(t[i]));
                        } else if j < rest.len() {
                            assert(rest.contains(t[j]));
                        }
                    }
                }
            }
        } else {
            if order.no_duplicates() {
                assert(init.no_duplicates()) by {
                    assert forall|i: int, j: int| 0 <= i < init.len() && 0 <= j < init.len() && i != j implies init[i] != init[j] by {
                        assert(order[i] == init[i] && order[j] == init[j]);
                    }
                }
            }
        }
        if !order.contains(c) {
            assert(!init.contains(c));
            assert(order.last() != c);
        }
    }
}

/// A use of `c` keeps the resident list free of repeats, puts `c` last, and (when the list held
/// at most `max` before) keeps at most `max` resident; a cold load also evicts exactly the
/// entries that leave, oldest first.
pub proof fn lemma_load_keeps_lru(order: Seq<Checkpoint>, c: Checkpoint, max: nat)
    requires
        order.no_duplicates(),
        max >= 1,
    ensures
        load_spec(order, c, max).no_duplicates(),
        load_spec(order, c, max).last() == c,
        load_spec(order, c, max).len() >= 1,
        order.len() <= max ==> load_spec(order, c, max).len() <= max,
        forall|x: Checkpoint| #[trigger] load_spec(order, c, max).contains(x) ==> x == c
            || order.contains(x),
        !order.contains(c) ==> evicted_spec(order, c, max) + admit_spec(order, c, max)
            == order.push(c),
{
    lemma_without(order, c);
    let t = touch_spec(order, c);
    let w = without(order, c);
    assert(t.last() == c);
    assert forall|i: int, j: int| 0 <= i < t.len() && 0 <= j < t.len() && i != j implies t[i] != t[j] by {
        if i < w.len() && j < w.len() {
            assert(t[i] == w[i] && t[j] == w[j]);
        } else if i < w.len() {
            assert(w.contains(t[i]));
        } else if j < w.len() {
            assert(w.contains(t[j]));
        }
    }
    assert forall|x: Checkpoint| #[trigger] t.contains(x) implies x == c || order.contains(x) by {
        let i = choose|i: int| 0 <= i < t.len() && t[i] == x;
        if i < w.len() {
            assert(w.contains(t[i]));
        }
    }
    if !order.contains(c) {
        let p = order.push(c);
        let k = excess(p, max) as int;
        let a = admit_spec(order, c, max);
        assert(p.no_duplicates()) by {
            assert forall|i: int, j: int| 0 <= i < p.len() && 0 <= j < p.len() && i != j implies p[i] != p[j] by {
                if i < order.len() && j < order.len() {
                    assert(p[i] == order[i] && p[j] == order[j]);
                } else if i < order.len() {
                    assert(order.contains(p[i]));
                } else if j < order.len() {
                    assert(order.contains(p[j]));
                }
            }
        }
        assert forall|i: int, j: int| 0 <= i < a.len() && 0 <= j < a.len() && i != j implies a[i] != a[j] by {
            assert(a[i] == p[i + k] && a[j] == p[j + k]);
        }
        assert(a.last() == c);
        assert forall|x: Checkpoint| #[trigger] a.contains(x) implies x == c || order.contains(x) by {
            let i = choose|i: int| 0 <= i < a.len() && a[i] == x;
            assert(a[i] == p[i + k]);
            if i + k < order.len() {
                assert(order[i + k] == x);
            }
        }
        assert(evicted_spec(order, c, max) + a =~= p);
    }
}

/// The resident list after a use of each of `names` in turn, starting from `order`.
pub open spec fn load_all(order: Seq<Checkpoint>, names: Seq<Checkpoint>, max: nat) -> Seq<
    Checkpoint,
>
    decreases names.len(),
{
    if names.len() == 0 {
        order
    } else {
        load_spec(load_all(order, names.drop_last(), max), names.last(), max)
    }
}

/// Removing a resident checkpoint closes the gap it leaves.
proof fn lemma_without_at(order: Seq<Checkpoint>, c: Checkpoint, p: int)
    requires
        order.no_duplicates(),
        0 <= p < order.len(),
        order[p] == c,
    ensures
        without(order, c) == order.subrange(0, p) + order.subrange(p + 1, order.len() as int),
    decreases order.len(),
{
    let init = order.drop_last();
    assert(init.no_duplicates()) by {
        assert forall|i: int, j: int|
            0 <= i < init.len() && 0 <= j < init.len() && i != j implies init[i] != init[j] by {
            assert(order[i] == init[i] && order[j] == init[j]);
        }
    }
    if p == order.len() - 1 {
        lemma_without(init, c);
        assert(!init.contains(c)) by {
            if init.contains(c) {
                let i = choose|i: int| 0 <= i < init.len() && init[i] == c;
                assert(order[i] == order[p]);
            }
        }
        assert(order.subrange(p + 1, order.len() as int) =~= Seq::<Checkpoint>::empty());
        assert(order.subrange(0, p) =~= init);
        assert(without(order, c) == without(init, c));
        assert(order.subrange(0, p) + order.subrange(p + 1, order.len() as int) =~= init);
    } else {
        assert(init[p] == c);
        lemma_without_at(init, c, p);
        assert(order.last() != c) by {
            assert(order[order.len() - 1] != order[p]);
        }
        assert(without(order, c) == without(init, c).push(order.last()));
        assert(init.subrange(0, p) + init.subrange(p + 1, init.len() as int) + seq![order.last()]
            =~= order.subrange(0, p) + order.subrange(p + 1, order.len() as int));
    }
}

/// Loading `names` in turn under a limit of at least `names.len()` keeps the resident list free
/// of repeats and within the limit, and leaves each of `names` among its last `names.len()`
/// entries.
proof fn lemma_load_all_suffix(order: Seq<Checkpoint>, names: Seq<Checkpoint>, max: nat)
    requires
        order.no_duplicates(),
        order.len() <= max,
        names.len() <= max,
        max >= 1,
    ensures
        load_all(order, names, max).no_duplicates(),
        load_all(order, names, max).len() <= max,
        forall|x: Checkpoint|
            #![trigger names.contains(x)]
            names.contains(x) ==> exists|i: int|
                #![trigger load_all(order, names, max)[i]]
                load_all(order, names, max).len() - names.len() <= i < load_all(
                    order,
                    names,
                    max,
                ).len() && 0 <= i && load_all(order, names, max)[i] == x,
    decreases names.len(),
{
    if names.len() > 0 {
        let init = names.drop_last();
        let c = names.last();
        let d = init.len();
        lemma_load_all_suffix(order, init, max);
        let l0 = load_all(order, init, max);
        let l1 = load_all(order, names, max);
        assert(l1 == load_spec(l0, c, max));
        lemma_load_keeps_lru(l0, c, max);
        assert forall|x: Checkpoint| #![trigger names.contains(x)] names.contains(x) implies exists|i: int|
            #![trigger l1[i]]
            l1.len() - names.len() <= i < l1.len() && 0 <= i && l1[i] == x by {
            if x == c {
                assert(l1[l1.len() - 1] == x);
            } else {
                let j = choose|j: int| 0 <= j < names.len() && names[j] == x;
                assert(j < d);
                assert(init[j] == x);
                assert(init.contains(x));
                let i = choose|i: int|
                    #![trigger l0[i]]
                    l0.len() - d <= i < l0.len() && 0 <= i && l0[i] == x;
                if l0.contains(c) {
                    let p = choose|p: int| 0 <= p < l0.len() && l0[p] == c;
                    lemma_without_at(l0, c, p);
                    let w = without(l0, c);
                    assert(l1 == w.push(c));
                    if i < p {
                        assert(w[i] == l0[i]);
                        assert(l1[i] == x);
                    } else {
                        assert(i != p);
                        assert(w[i - 1] == l0[i]);
                        assert(l1[i - 1] == x);
                    }
                } else {
                    let pc = l0.push(c);
                    let k = excess(pc, max) as int;
                    assert(l1 == pc.skip(k));
                    assert(i >= k);
                    assert(l1[i - k] == pc[i]);
                    assert(pc[i] == l0[i]);
                }
            }
        }
    }
}

/// Loading each checkpoint that `preload` names, in turn, leaves every one of them resident:
/// the limit it raised to at least their number, and to what was already resident, evicts none
/// of them.
pub proof fn lemma_preload_keeps_all(order: Seq<Checkpoint>, names: Seq<Checkpoint>, max: nat)
    requires
        order.no_duplicates(),
        max >= 1,
    ensures
        forall|x: Checkpoint|
            #![trigger names.contains(x)]
            names.contains(x) ==> load_all(order, names, max3(max, names.len(), order.len()))
                .contains(x),
        load_all(order, names, max3(max, names.len(), order.len())).len() <= max3(
            max,
            names.len(),
            order.len(),
        ),
{
    let m = max3(max, names.len(), order.len());
    lemma_load_all_suffix(order, names, m);
    assert forall|x: Checkpoint| #![trigger names.contains(x)] names.contains(x) implies load_all(
        order,
        names,
        m,
    ).contains(x) by {
        let l = load_all(order, names, m);
        let i = choose|i: int|
            #![trigger l[i]]
            l.len() - names.len() <= i < l.len() && 0 <= i && l[i] == x;
        assert(l[i] == x);
    }
}

impl Router {
    /// The resident list never repeats a checkpoint, and at least one may stay resident.
    #[verifier::type_invariant]
    spec fn wf(self) -> bool {
        self.loaded@.no_duplicates() && self.max_loaded >= 1
    }

    pub closed spec fn source_spec(self, c: Checkpoint) -> Source {
        match c {
            Checkpoint::English => self.english,
            Checkpoint::Multilingual => self.multilingual,
            Checkpoint::TypedDecisions => self.typed_decisions,
        }
    }

    pub closed spec fn max_loaded_spec(self) -> nat {
        self.max_loaded as nat
    }

    pub closed spec fn default_spec(self) -> Checkpoint {
        self.default
    }

    pub closed spec fn auto_spec(self) -> bool {
        self.auto_task_detection
    }

    /// Resident checkpoints, least-recently-used first.
    pub closed spec fn loaded_spec(self) -> Seq<Checkpoint> {
        self.loaded@
    }

    /// A router over the official bundle repo: default English, one resident checkpoint, no
    /// automatic task detection.
    pub fn new() -> (r: Router)
        ensures
            forall|c: Checkpoint| (#[trigger] r.source_spec(c)).describe_spec() == c.repo_spec(),
            r.max_loaded_spec() == 1,
            r.default_spec() == Checkpoint::English,
            !r.auto_spec(),
            r.loaded_spec() == Seq::<Checkpoint>::empty(),
    {
        Router {
            english: Source::bundle(Checkpoint::English),
            multilingual: Source::bundle(Checkpoint::Multilingual),
            typed_decisions: Source::bundle(Checkpoint::TypedDecisions),
            max_loaded: 1,
            default: Checkpoint::English,
            auto_task_detection: false,
            loaded: Vec::new(),
        }
    }

    /// Override where one checkpoint is loaded from.
    pub fn with_source(self, checkpoint: Checkpoint, source: Source) -> (r: Router)
        ensures
            r.source_spec(checkpoint) == source,
            forall|c: Checkpoint| c != checkpoint ==> r.source_spec(c) == self.source_spec(c),
            r.max_loaded_spec() == self.max_loaded_spec(),
            r.default_spec() == self.default_spec(),
            r.auto_spec() == self.auto_spec(),
            r.loaded_spec() == self.loaded_spec(),
    {
        proof {
            use_type_invariant(&self);
        }
        let mut r = self;
        match checkpoint {
            Checkpoint::English => r.english = source,
            Checkpoint::Multilingual => r.multilingual = source,
            Checkpoint::TypedDecisions => r.typed_decisions = source,
        }
        r
    }

    /// How many checkpoints stay resident (least-recently-used eviction); at least 1.
    pub fn with_max_loaded(self, max_loaded: usize) -> (r: Router)
        ensures
            r.max_loaded_spec() == if max_loaded < 1 {
                1
            } else {
                max_loaded as nat
            },
            forall|c: Checkpoint| r.source_spec(c) == self.source_spec(c),
            r.default_spec() == self.default_spec(),
            r.auto_spec() == self.auto_spec(),
            r.loaded_spec() == self.loaded_spec(),
    {
        proof {
            use_type_invariant(&self);
        }
        let mut r = self;
        r.max_loaded = if max_loaded < 1 { 1 } else { max_loaded };
        r
    }

    /// The checkpoint used when a state has no letters at all.
    pub fn with_default(self, default: Checkpoint) -> (r: Router)
        ensures
            r.default_spec() == default,
            forall|c: Checkpoint| r.source_spec(c) == self.source_spec(c),
            r.max_loaded_spec() == self.max_loaded_spec(),
            r.auto_spec() == self.auto_spec(),
            r.loaded_spec() == self.loaded_spec(),
    {
        proof {
            use_type_invariant(&self);
        }
        let mut r = self;
        r.default = default;
        r
    }

    /// Route to `typed-decisions` when the question ids exactly match one of its workflows.
    pub fn with_auto_task_detection(self, on: bool) -> (r: Router)
        ensures
            r.auto_spec() == on,
            forall|c: Checkpoint| r.source_spec(c) == self.source_spec(c),
            r.max_loaded_spec() == self.max_loaded_spec(),
            r.default_spec() == self.default_spec(),
            r.loaded_spec() == self.loaded_spec(),
    {
        proof {
            use_type_invariant(&self);
        }
        let mut r = self;
        r.auto_task_detection = on;
        r
    }

    pub fn source(&self, checkpoint: Checkpoint) -> (r: &Source)
        ensures
            *r == self.source_spec(checkpoint),
    {
        match checkpoint {
            Checkpoint::English => &self.english,
            Checkpoint::Multilingual => &self.multilingual,
            Checkpoint::TypedDecisions => &self.typed_decisions,
        }
    }

    pub fn max_loaded(&self) -> (r: usize)
        ensures
            r == self.max_loaded_spec(),
            r >= 1,
    {
        proof {
            use_type_invariant(self);
        }
        self.max_loaded
    }

    /// Checkpoints currently resident, least-recently-used first.
    pub fn loaded(&self) -> (r: Vec<Checkpoint>)
        ensures
            r@ == self.loaded_spec(),
            r@.no_duplicates(),
    {
        proof {
            use_type_invariant(self);
        }
        self.loaded.clone()
    }

    /// What routing one request gives: the decision that [`route_spec`] describes, with the
    /// repo of the chosen checkpoint's source and, when detection decided, the detection; or,
    /// for an unknown task, a config error naming it.
    pub open spec fn routed(
        self,
        state: State,
        questions: Questions,
        overrides: RouteOverrides,
        r: Result<RouteDecision>,
    ) -> bool {
        match route_spec(
            self.default_spec(),
            self.auto_spec(),
            state,
            questions,
            overrides_view(overrides),
        ) {
            Some((model, reason, detected, workflow)) => r matches Ok(d) && d.model == model
                && d.reason@ == reason && d.repo@ == self.source_spec(model).describe_spec() && (
            d.workflow.is_some() == workflow.is_some()) && (d.workflow matches Some(w) ==> workflow
                == Some(w@)) && (d.detection.is_some() == detected) && (d.detection matches Some(
                det,
            ) ==> detection_matches(det, state)),
            None => r matches Err(Error::Config(msg)) && msg@ == "unknown task "@ + debug_quoted(
                overrides.task->0@,
            ),
        }
    }

    /// Decides which checkpoint should answer, without loading or running anything.
    pub fn route(&self, state: &State, questions: &Questions, overrides: &RouteOverrides) -> (r:
        Result<RouteDecision>)
        ensures
            self.routed(*state, *questions, *overrides, r),
    {
        if let Some(model) = overrides.model {
            let reason = text_with_repr("explicit model=", &chars_of(model.name()));
            return Ok(RouteDecision {
                model,
                repo: self.source(model).describe(),
                reason: string_of(&reason),
                detection: None,
                workflow: None,
            });
        }
        if let Some(task) = &overrides.task {
            let lowered = lowercase_chars(task.as_str());
            let key = if chars_eq_str(&dash_to_underscore(&lowered), "typed_decisions") {
                Checkpoint::TypedDecisions
            } else {
                match Checkpoint::parse(task.as_str()) {
                    Some(c) => c,
                    None => {
                        let mut msg = chars_of("unknown task ");
                        let q = debug_str(task.as_str());
                        push_str(&mut msg, q.as_str());
                        return Err(Error::Config(string_of(&msg)));
                    },
                }
            };
            let reason = text_with_repr("explicit task=", &chars_of(task.as_str()));
            return Ok(RouteDecision {
                model: key,
                repo: self.source(key).describe(),
                reason: string_of(&reason),
                detection: None,
                workflow: None,
            });
        }
        let workflow = match_typed_decisions_workflow(questions);
        if let Some(wf) = workflow {
            if self.auto_task_detection {
                let mut reason = text_with_repr("question ids match the ", &chars_of(wf));
                push_str(&mut reason, " typed-decisions workflow");
                return Ok(RouteDecision {
                    model: Checkpoint::TypedDecisions,
                    repo: self.source(Checkpoint::TypedDecisions).describe(),
                    reason: string_of(&reason),
                    detection: None,
                    workflow: Some(wf.to_owned()),
                });
            }
        }
        let workflow_owned = match workflow {
            Some(wf) => Some(wf.to_owned()),
            None => None,
        };
        if let Some(lang) = &overrides.lang {
            let lowered = lowercase_chars(lang.as_str());
            let primary = primary_subtag(&lowered);
            let key = if chars_eq_str(&primary, "en") || chars_eq_str(&primary, "eng")
                || chars_eq_str(&primary, "english") {
                Checkpoint::English
            } else {
                Checkpoint::Multilingual
            };
            let reason = text_with_repr("explicit lang=", &chars_of(lang.as_str()));
            return Ok(RouteDecision {
                model: key,
                repo: self.source(key).describe(),
                reason: string_of(&reason),
                detection: None,
                workflow: workflow_owned,
            });
        }
        let det = analyse(state);
        proof {
            reveal_strlit("unknown");
            reveal_strlit("latin");
            lemma_state_text_len(*state);
            lemma_letters_bound(state_text_spec(*state));
        }
        let (key, reason) = if same(det.script.as_str(), "unknown") {
            let mut reason = chars_of("no letters detected in state; using default (");
            push_str(&mut reason, self.default.name());
            push_str(&mut reason, ")");
            (self.default, reason)
        } else if !same(det.script.as_str(), "latin") {
            let mut reason = chars_of("non-Latin script (");
            push_str(&mut reason, det.script.as_str());
            push_str(&mut reason, ", ");
            let pct = percent(det.latin_letters, det.letters);
            push_decimal(&mut reason, pct);
            push_str(&mut reason, "% of letters); the English checkpoint cannot read it");
            (Checkpoint::Multilingual, reason)
        } else if !det.is_english {
            let lang_chars = match &det.language {
                Some(l) => chars_of(l.as_str()),
                None => Vec::new(),
            };
            let mut reason = text_with_repr("Latin script but language looks like ", &lang_chars);
            push_str(&mut reason, ", not English");
            (Checkpoint::Multilingual, reason)
        } else {
            (Checkpoint::English, chars_of("English Latin text"))
        };
        Ok(RouteDecision {
            model: key,
            repo: self.source(key).describe(),
            reason: string_of(&reason),
            detection: Some(det),
            workflow: workflow_owned,
        })
    }

    /// Whether `checkpoint` is resident.
    pub fn is_loaded(&self, checkpoint: Checkpoint) -> (r: bool)
        ensures
            r == self.loaded_spec().contains(checkpoint),
    {
        holds(&self.loaded, checkpoint)
    }

    /// Records a use of `checkpoint`, as loading it does: a resident checkpoint becomes the most
    /// recently used; a new one is added last and the least-recently-used checkpoints beyond
    /// `max_loaded` are evicted. Returns the evicted checkpoints, oldest first, whose agents the
    /// caller drops.
    pub fn load(&mut self, checkpoint: Checkpoint) -> (evicted: Vec<Checkpoint>)
        ensures
            final(self).loaded_spec() == load_spec(
                old(self).loaded_spec(),
                checkpoint,
                old(self).max_loaded_spec(),
            ),
            evicted@ == if old(self).loaded_spec().contains(checkpoint) {
                Seq::<Checkpoint>::empty()
            } else {
                evicted_spec(old(self).loaded_spec(), checkpoint, old(self).max_loaded_spec())
            },
            final(self).loaded_spec().last() == checkpoint,
            final(self).loaded_spec().no_duplicates(),
            old(self).loaded_spec().len() <= old(self).max_loaded_spec() ==> final(self).loaded_spec().len() <= old(self).max_loaded_spec(),
            final(self).max_loaded_spec() == old(self).max_loaded_spec(),
            forall|c: Checkpoint| final(self).source_spec(c) == old(self).source_spec(c),
            final(self).default_spec() == old(self).default_spec(),
            final(self).auto_spec() == old(self).auto_spec(),
    {
        proof {
            use_type_invariant(&*self);
            lemma_load_keeps_lru(self.loaded@, checkpoint, self.max_loaded as nat);
        }
        if holds(&self.loaded, checkpoint) {
            let mut order = without_exec(&self.loaded, checkpoint);
            order.push(checkpoint);
            self.loaded = order;
            return Vec::new();
        }
        let n = self.loaded.len();
        let mut all = copy_range(&self.loaded, 0, n);
        assert(all@ =~= self.loaded@);
        all.push(checkpoint);
        let len = all.len();
        let k = if len > self.max_loaded { len - self.max_loaded } else { 0 };
        let evicted = copy_range(&all, 0, k);
        let kept = copy_range(&all, k, len);
        assert(kept@ =~= all@.skip(k as int));
        assert(evicted@ =~= all@.take(k as int));
        self.loaded = kept;
        evicted
    }

    /// Registers an already-built agent's checkpoint as the most recently used, raising
    /// `max_loaded` so that it is not immediately evicted.
    pub fn attach(&mut self, checkpoint: Checkpoint)
        ensures
            final(self).loaded_spec() == touch_spec(old(self).loaded_spec(), checkpoint),
            final(self).loaded_spec().no_duplicates(),
            final(self).max_loaded_spec() == if old(self).max_loaded_spec() >= final(self).loaded_spec().len() {
                old(self).max_loaded_spec()
            } else {
                final(self).loaded_spec().len()
            },
            forall|c: Checkpoint| final(self).source_spec(c) == old(self).source_spec(c),
            final(self).default_spec() == old(self).default_spec(),
            final(self).auto_spec() == old(self).auto_spec(),
    {
        proof {
            use_type_invariant(&*self);
            lemma_load_keeps_lru(self.loaded@, checkpoint, self.loaded@.len() + 1);
            lemma_without(self.loaded@, checkpoint);
        }
        let mut order = without_exec(&self.loaded, checkpoint);
        order.push(checkpoint);
        assert(order@ == load_spec(self.loaded@, checkpoint, self.loaded@.len() + 1));
        let len = order.len();
        let max = if self.max_loaded >= len { self.max_loaded } else { len };
        self.loaded = order;
        self.max_loaded = max;
    }

    /// Prepares loading checkpoints up front: returns the checkpoints to load, in order (all of
    /// them when `checkpoints` is empty), and raises `max_loaded` to hold them and everything
    /// already resident.
    pub fn preload(&mut self, checkpoints: &[Checkpoint]) -> (names: Vec<Checkpoint>)
        ensures
            names@ == if checkpoints@.len() == 0 {
                seq![Checkpoint::English, Checkpoint::Multilingual, Checkpoint::TypedDecisions]
            } else {
                checkpoints@
            },
            final(self).max_loaded_spec() == max3(
                old(self).max_loaded_spec(),
                names@.len(),
                old(self).loaded_spec().len(),
            ),
            final(self).loaded_spec() == old(self).loaded_spec(),
            forall|c: Checkpoint| final(self).source_spec(c) == old(self).source_spec(c),
            final(self).default_spec() == old(self).default_spec(),
            final(self).auto_spec() == old(self).auto_spec(),
    {
        proof {
            use_type_invariant(&*self);
        }
        let names = if checkpoints.len() == 0 {
            Checkpoint::all()
        } else {
            let mut v: Vec<Checkpoint> = Vec::new();
            let mut i: usize = 0;
            while i < checkpoints.len()
                invariant
                    i <= checkpoints.len(),
                    v@ == checkpoints@.subrange(0, i as int),
                decreases checkpoints.len() - i,
            {
                v.push(checkpoints[i]);
                i += 1;
                assert(v@ =~= checkpoints@.subrange(0, i as int));
            }
            assert(checkpoints@.subrange(0, checkpoints.len() as int) =~= checkpoints@);
            v
        };
        let mut max = self.max_loaded;
        if names.len() > max {
            max = names.len();
        }
        if self.loaded.len() > max {
            max = self.loaded.len();
        }
        self.max_loaded = max;
        names
    }

    /// Frees one checkpoint, or all of them.
    pub fn unload(&mut self, checkpoint: Option<Checkpoint>)
        ensures
            final(self).loaded_spec() == match checkpoint {
                None => Seq::<Checkpoint>::empty(),
                Some(c) => without(old(self).loaded_spec(), c),
            },
            final(self).max_loaded_spec() == old(self).max_loaded_spec(),
            forall|c: Checkpoint| final(self).source_spec(c) == old(self).source_spec(c),
            final(self).default_spec() == old(self).default_spec(),
            final(self).auto_spec() == old(self).auto_spec(),
    {
        proof {
            use_type_invariant(&*self);
        }
        match checkpoint {
            None => {
                self.loaded = Vec::new();
            },
            Some(c) => {
                proof {
                    lemma_without(self.loaded@, c);
                }
                self.loaded = without_exec(&self.loaded, c);
            },
        }
    }

    /// Routes every request of a batch with the same overrides. The first request that cannot
    /// be routed fails the call with [`Error::Request`] carrying its index; since only an unknown
    /// task fails, that is request 0 whenever the overrides name one.
    pub fn route_all(&self, requests: &[Request], overrides: &RouteOverrides) -> (r: Result<
        Vec<RouteDecision>,
    >)
        ensures
            r matches Ok(ds) ==> ds@.len() == requests@.len() && forall|i: int|
                0 <= i < requests@.len() ==> self.routed(
                    *requests@[i].state,
                    *requests@[i].questions,
                    *overrides,
                    Ok::<RouteDecision, Error>(#[trigger] ds@[i]),
                ),
            r is Err <==> requests@.len() > 0 && rejects_task(*overrides),
            r matches Err(e) ==> e matches Error::Request { request, source } && request == 0
                && self.routed(*requests@[0].state, *requests@[0].questions, *overrides, Err(
                *source,
            )),
    {
        let mut out: Vec<RouteDecision> = Vec::new();
        let mut i: usize = 0;
        while i < requests.len()
            invariant
                i <= requests.len(),
                out@.len() == i,
                i > 0 ==> !rejects_task(*overrides),
                forall|k: int|
                    0 <= k < i ==> self.routed(
                        *requests@[k].state,
                        *requests@[k].questions,
                        *overrides,
                        Ok::<RouteDecision, Error>(#[trigger] out@[k]),
                    ),
            decreases requests.len() - i,
        {
            let req = requests[i];
            let d = self.route(req.state, req.questions, overrides);
            match d {
                Ok(d) => out.push(d),
                Err(e) => {
                    return Err(Error::Request { request: i, source: Box::new(e) });
                },
            }
            i += 1;
        }
        Ok(out)
    }
}

} // verus!
