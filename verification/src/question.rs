//! Typed questions about a state and the option texts the model scores.

use vstd::prelude::*;
use indexmap::IndexMap;
use crate::collections::{criteria_at, criteria_count, criteria_entries};
use crate::error::{Error, Result};
use crate::json::JsonValue;
use crate::pyjson::{decimal, dump_value, dumps, push_decimal};
use crate::text::{chars_of, push_chars, push_str, string_of};

verus! {

/// The three question kinds, in the model's kind-embedding order.
#[derive(Debug, Clone, Copy, PartialEq, Eq, Hash, Structural)]
pub enum Kind {
    Choice,
    Score,
    Noul,
}

impl Kind {
    pub open spec fn name_spec(self) -> Seq<char> {
        match self {
            Kind::Choice => "choice"@,
            Kind::Score => "score"@,
            Kind::Noul => "noul"@,
        }
    }

    pub fn name(self) -> (r: &'static str)
        ensures
            r@ == self.name_spec(),
    {
        match self {
            Kind::Choice => "choice",
            Kind::Score => "score",
            Kind::Noul => "noul",
        }
    }

    pub open spec fn index_spec(self) -> nat {
        match self {
            Kind::Choice => 0,
            Kind::Score => 1,
            Kind::Noul => 2,
        }
    }

    /// Position in the model's kind embedding.
    pub fn index(self) -> (r: usize)
        ensures
            r == self.index_spec(),
    {
        match self {
            Kind::Choice => 0,
            Kind::Score => 1,
            Kind::Noul => 2,
        }
    }
}

/// Question instructions: a string, or any JSON value (rendered with `json.dumps`,
/// ASCII-escaped).
#[derive(Debug, Clone)]
pub enum Instructions {
    Text(String),
    Json(JsonValue),
}

impl Instructions {
    pub open spec fn render_spec(self) -> Seq<char> {
        match self {
            Instructions::Text(s) => s@,
            Instructions::Json(v) => dump_value(v, true),
        }
    }

    pub fn render(&self) -> (r: String)
        ensures
            r@ == self.render_spec(),
    {
        match self {
            Instructions::Text(s) => s.clone(),
            Instructions::Json(v) => dumps(v, true),
        }
    }
}

/// Choice criteria: option key to description (`Null`/`""` for none, or any JSON rubric).
#[derive(Debug)]
pub struct ChoiceCriteria(pub IndexMap<String, JsonValue>);

/// Optional descriptions for a noul's two options (`Null` for none).
#[derive(Debug, Clone)]
pub struct NoulCriteria {
    pub false_desc: JsonValue,
    pub true_desc: JsonValue,
}

/// A typed question about a state.
#[derive(Debug)]
pub enum Question {
    Choice { instructions: Instructions, criteria: ChoiceCriteria },
    Score { instructions: Instructions, criteria: Vec<JsonValue> },
    Noul { instructions: Instructions, criteria: Option<NoulCriteria> },
}

/// Questions keyed by caller-chosen id, in insertion order.
pub type Questions = IndexMap<String, Question>;

/// Strings pass through; anything structured becomes Python-style JSON.
pub open spec fn render_criterion_spec(v: JsonValue) -> Seq<char> {
    match v {
        JsonValue::String(s) => s@,
        _ => dump_value(v, false),
    }
}

/// `None`/`""` mean "no description"; everything else renders (0 and false are legitimate).
pub open spec fn described_spec(v: JsonValue) -> Option<Seq<char>> {
    match v {
        JsonValue::Null => None,
        JsonValue::String(s) => if s@.len() == 0 {
            None
        } else {
            Some(s@)
        },
        _ => Some(dump_value(v, false)),
    }
}

/// `key: description`, or the bare key without a description.
pub open spec fn choice_option_spec(key: Seq<char>, desc: JsonValue) -> Seq<char> {
    match described_spec(desc) {
        Some(d) => key + ": "@ + d,
        None => key,
    }
}

/// `level i: description`.
pub open spec fn score_option_spec(i: nat, level: JsonValue) -> Seq<char> {
    "level "@ + decimal(i) + ": "@ + render_criterion_spec(level)
}

/// `false: …` and `true: …`, with the default texts when undescribed.
pub open spec fn noul_option_spec(
    label: Seq<char>,
    desc: Option<JsonValue>,
    default: Seq<char>,
) -> Seq<char> {
    let d = match desc {
        Some(v) => described_spec(v),
        None => None,
    };
    label + match d {
        Some(t) => t,
        None => default,
    }
}

impl Question {
    pub open spec fn kind_spec(self) -> Kind {
        match self {
            Question::Choice { .. } => Kind::Choice,
            Question::Score { .. } => Kind::Score,
            Question::Noul { .. } => Kind::Noul,
        }
    }

    pub open spec fn instructions_spec(self) -> Instructions {
        match self {
            Question::Choice { instructions, .. } => instructions,
            Question::Score { instructions, .. } => instructions,
            Question::Noul { instructions, .. } => instructions,
        }
    }

    /// Number of options: the criteria for Choice and Score, two for a noul.
    pub open spec fn option_count_spec(self) -> nat {
        match self {
            Question::Choice { criteria, .. } => criteria_entries(criteria.0).len(),
            Question::Score { criteria, .. } => criteria@.len(),
            Question::Noul { .. } => 2,
        }
    }

    /// Option texts in label-index order; a noul is always `[false, true]`.
    pub open spec fn options_spec(self) -> Seq<Seq<char>> {
        match self {
            Question::Choice { criteria, .. } => {
                let entries = criteria_entries(criteria.0);
                Seq::new(
                    entries.len(),
                    |i: int| choice_option_spec(entries[i].0@, entries[i].1),
                )
            },
            Question::Score { criteria, .. } => Seq::new(
                criteria@.len(),
                |i: int| score_option_spec(i as nat, criteria@[i]),
            ),
            Question::Noul { criteria, .. } => {
                let (f, t) = match criteria {
                    Some(c) => (Some(c.false_desc), Some(c.true_desc)),
                    None => (None, None),
                };
                seq![
                    noul_option_spec("false: "@, f, "no, the statement does not hold"@),
                    noul_option_spec("true: "@, t, "yes, the statement holds"@),
                ]
            },
        }
    }

    pub fn choice(instructions: Instructions, criteria: ChoiceCriteria) -> (r: Question)
        ensures
            r == (Question::Choice { instructions, criteria }),
    {
        Question::Choice { instructions, criteria }
    }

    pub fn score(instructions: Instructions, levels: Vec<JsonValue>) -> (r: Question)
        ensures
            r == (Question::Score { instructions, criteria: levels }),
    {
        Question::Score { instructions, criteria: levels }
    }

    pub fn noul(instructions: Instructions) -> (r: Question)
        ensures
            r == (Question::Noul { instructions, criteria: None }),
    {
        Question::Noul { instructions, criteria: None }
    }

    pub fn kind(&self) -> (r: Kind)
        ensures
            r == self.kind_spec(),
    {
        match self {
            Question::Choice { .. } => Kind::Choice,
            Question::Score { .. } => Kind::Score,
            Question::Noul { .. } => Kind::Noul,
        }
    }

    pub fn instructions(&self) -> (r: &Instructions)
        ensures
            *r == self.instructions_spec(),
    {
        match self {
            Question::Choice { instructions, .. } => instructions,
            Question::Score { instructions, .. } => instructions,
            Question::Noul { instructions, .. } => instructions,
        }
    }

    pub fn option_count(&self) -> (r: usize)
        ensures
            r == self.option_count_spec(),
    {
        match self {
            Question::Choice { criteria, .. } => criteria_count(&criteria.0),
            Question::Score { criteria, .. } => criteria.len(),
            Question::Noul { .. } => 2,
        }
    }

    /// Option texts in label-index order; a noul is always `[false, true]`.
    pub fn render_options(&self) -> (r: Vec<String>)
        ensures
            r@.map_values(|s: String| s@) == self.options_spec(),
    {
        let mut out: Vec<String> = Vec::new();
        match self {
            Question::Choice { criteria, .. } => {
                let n = criteria_count(&criteria.0);
                let ghost entries = criteria_entries(criteria.0);
                let mut i: usize = 0;
                while i < n
                    invariant
                        n == entries.len(),
                        entries == criteria_entries(criteria.0),
                        i <= n,
                        out@.len() == i,
                        forall|j: int|
                            0 <= j < i ==> #[trigger] out@[j]@ == choice_option_spec(
                                entries[j].0@,
                                entries[j].1,
                            ),
                    decreases n - i,
                {
                    match criteria_at(&criteria.0, i) {
                        Some((k, v)) => {
                            out.push(choice_option(k, v));
                        },
                        None => {},
                    }
                    i += 1;
                }
                proof {
                    assert(out@.map_values(|s: String| s@) =~= self.options_spec());
                }
            },
            Question::Score { criteria, .. } => {
                let mut i: usize = 0;
                while i < criteria.len()
                    invariant
                        i <= criteria.len(),
                        out@.len() == i,
                        forall|j: int|
                            0 <= j < i ==> #[trigger] out@[j]@ == score_option_spec(
                                j as nat,
                                criteria@[j],
                            ),
                    decreases criteria.len() - i,
                {
                    out.push(score_option(i, &criteria[i]));
                    i += 1;
                }
                proof {
                    assert(out@.map_values(|s: String| s@) =~= self.options_spec());
                }
            },
            Question::Noul { criteria, .. } => {
                let (f, t) = match criteria {
                    Some(c) => (Some(&c.false_desc), Some(&c.true_desc)),
                    None => (None, None),
                };
                out.push(noul_option("false: ", f, "no, the statement does not hold"));
                out.push(noul_option("true: ", t, "yes, the statement holds"));
                proof {
                    assert(out@.map_values(|s: String| s@) =~= self.options_spec());
                }
            },
        }
        out
    }

    /// Rejects questions the model cannot meaningfully answer (fewer than two options).
    pub fn validate(&self, question_id: &str) -> (r: Result<()>)
        ensures
            r is Ok <==> self.option_count_spec() >= 2,
            r matches Err(e) ==> (e matches Error::TooFewOptions { question_id: id, options }
                && id@ == question_id@ && options == self.option_count_spec()),
    {
        let options = self.option_count();
        if options < 2 {
            return Err(Error::TooFewOptions { question_id: question_id.to_owned(), options });
        }
        Ok(())
    }
}

/// The description text of a criterion, if it has one.
fn described(v: &JsonValue) -> (r: Option<String>)
    ensures
        r.is_some() == described_spec(*v).is_some(),
        r matches Some(s) ==> described_spec(*v) == Some(s@),
{
    match v {
        JsonValue::Null => None,
        JsonValue::String(s) => {
            if s.as_str().is_empty() {
                None
            } else {
                Some(s.clone())
            }
        },
        _ => Some(dumps(v, false)),
    }
}

fn render_criterion(v: &JsonValue) -> (r: String)
    ensures
        r@ == render_criterion_spec(*v),
{
    match v {
        JsonValue::String(s) => s.clone(),
        _ => dumps(v, false),
    }
}

fn choice_option(key: &String, desc: &JsonValue) -> (r: String)
    ensures
        r@ == choice_option_spec(key@, *desc),
{
    match described(desc) {
        Some(d) => {
            let mut out = chars_of(key.as_str());
            push_str(&mut out, ": ");
            let dc = chars_of(d.as_str());
            push_chars(&mut out, &dc);
            string_of(&out)
        },
        None => key.clone(),
    }
}

fn score_option(i: usize, level: &JsonValue) -> (r: String)
    ensures
        r@ == score_option_spec(i as nat, *level),
{
    let mut out: Vec<char> = Vec::new();
    push_str(&mut out, "level ");
    push_decimal(&mut out, i as u64);
    push_str(&mut out, ": ");
    let text = render_criterion(level);
    let tc = chars_of(text.as_str());
    push_chars(&mut out, &tc);
    string_of(&out)
}

fn noul_option(label: &str, desc: Option<&JsonValue>, default: &str) -> (r: String)
    ensures
        r@ == noul_option_spec(
            label@,
            match desc {
                Some(v) => Some(*v),
                None => None,
            },
            default@,
        ),
{
    let mut out = chars_of(label);
    let d = match desc {
        Some(v) => described(v),
        None => None,
    };
    match d {
        Some(t) => {
            let tc = chars_of(t.as_str());
            push_chars(&mut out, &tc);
        },
        None => push_str(&mut out, default),
    }
    string_of(&out)
}


/// A question renders exactly as many option texts as it counts options, so validation and
/// the sequence builder agree on the options.
pub proof fn lemma_option_count(q: Question)
    ensures
        q.options_spec().len() == q.option_count_spec(),
{
}

} // verus!
