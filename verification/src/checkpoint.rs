//! The three published weight sets and their names.

use vstd::prelude::*;
use crate::text::{
    ascii_lower, chars_eq_str, chars_of, debug_quoted, debug_str, push_str, string_of,
    to_ascii_lowercase, trim, trim_spec,
};

verus! {

/// The bundle repo that holds every checkpoint; only the requested subfolder is downloaded.
pub const BUNDLE_REPO: &'static str = "convaiinnovations/laya";

/// One of the three published weight sets.
#[derive(Debug, Clone, Copy, PartialEq, Eq, Hash, Structural)]
pub enum Checkpoint {
    English,
    Multilingual,
    TypedDecisions,
}

/// Whether `k` is one of `aliases`.
pub open spec fn is_one_of(k: Seq<char>, aliases: Seq<Seq<char>>) -> bool {
    exists|i: int| 0 <= i < aliases.len() && aliases[i] == k
}

pub open spec fn english_aliases() -> Seq<Seq<char>> {
    seq!["english"@, "en"@, "laya"@, "default"@]
}

pub open spec fn multilingual_aliases() -> Seq<Seq<char>> {
    seq!["multilingual"@, "multi"@, "ml"@, "laya-multilingual"@]
}

pub open spec fn typed_aliases() -> Seq<Seq<char>> {
    seq![
        "typed-decisions"@,
        "typed"@,
        "typed_decisions"@,
        "laya-typed-decisions"@,
        "decisions"@,
    ]
}

/// The checkpoint a name selects: canonical names and their aliases, matched
/// after trimming whitespace and ASCII-lowercasing.
pub open spec fn parse_spec(name: Seq<char>) -> Option<Checkpoint> {
    let k = ascii_lower(trim_spec(name));
    if is_one_of(k, english_aliases()) {
        Some(Checkpoint::English)
    } else if is_one_of(k, multilingual_aliases()) {
        Some(Checkpoint::Multilingual)
    } else if is_one_of(k, typed_aliases()) {
        Some(Checkpoint::TypedDecisions)
    } else {
        None
    }
}

/// Whether `k` spells one of `aliases`.
fn matches_any(k: &Vec<char>, aliases: &Vec<&str>) -> (r: bool)
    ensures
        r == is_one_of(k@, aliases@.map_values(|a: &str| a@)),
{
    let ghost views = aliases@.map_values(|a: &str| a@);
    let mut i: usize = 0;
    while i < aliases.len()
        invariant
            i <= aliases.len(),
            views == aliases@.map_values(|a: &str| a@),
            forall|j: int| 0 <= j < i ==> views[j] != k@,
        decreases aliases.len() - i,
    {
        if chars_eq_str(k.as_slice(), aliases[i]) {
            assert(views[i as int] == k@);
            return true;
        }
        i += 1;
    }
    false
}

impl Checkpoint {
    pub open spec fn name_spec(self) -> Seq<char> {
        match self {
            Checkpoint::English => "english"@,
            Checkpoint::Multilingual => "multilingual"@,
            Checkpoint::TypedDecisions => "typed-decisions"@,
        }
    }

    pub fn name(self) -> (r: &'static str)
        ensures
            r@ == self.name_spec(),
    {
        match self {
            Checkpoint::English => "english",
            Checkpoint::Multilingual => "multilingual",
            Checkpoint::TypedDecisions => "typed-decisions",
        }
    }

    /// Subfolder inside [`BUNDLE_REPO`]; `None` for the repo root.
    pub open spec fn subfolder_spec(self) -> Option<Seq<char>> {
        match self {
            Checkpoint::English => None,
            Checkpoint::Multilingual => Some("multilingual"@),
            Checkpoint::TypedDecisions => Some("typed-decisions"@),
        }
    }

    pub fn subfolder(self) -> (r: Option<&'static str>)
        ensures
            r.is_some() == self.subfolder_spec().is_some(),
            r matches Some(s) ==> self.subfolder_spec() == Some(s@),
    {
        match self {
            Checkpoint::English => None,
            Checkpoint::Multilingual => Some("multilingual"),
            Checkpoint::TypedDecisions => Some("typed-decisions"),
        }
    }

    /// `repo/subfolder` as the Python router reports it.
    pub open spec fn repo_spec(self) -> Seq<char> {
        match self.subfolder_spec() {
            Some(sub) => BUNDLE_REPO@ + seq!['/'] + sub,
            None => BUNDLE_REPO@,
        }
    }

    pub fn repo(self) -> (r: String)
        ensures
            r@ == self.repo_spec(),
    {
        let mut out = chars_of(BUNDLE_REPO);
        match self.subfolder() {
            Some(sub) => {
                out.push('/');
                crate::text::push_str(&mut out, sub);
            },
            None => {},
        }
        crate::text::string_of(&out)
    }

    /// Accepts the canonical names and their aliases (case-insensitive).
    pub fn parse(name: &str) -> (r: Option<Checkpoint>)
        ensures
            r == parse_spec(name@),
    {
        let raw = chars_of(name);
        let trimmed = trim(&raw);
        let k = to_ascii_lowercase(&trimmed);
        let english = vec!["english", "en", "laya", "default"];
        let multi = vec!["multilingual", "multi", "ml", "laya-multilingual"];
        let typed = vec![
            "typed-decisions",
            "typed",
            "typed_decisions",
            "laya-typed-decisions",
            "decisions",
        ];
        proof {
            assert(english@.map_values(|a: &str| a@) =~= english_aliases());
            assert(multi@.map_values(|a: &str| a@) =~= multilingual_aliases());
            assert(typed@.map_values(|a: &str| a@) =~= typed_aliases());
        }
        if matches_any(&k, &english) {
            Some(Checkpoint::English)
        } else if matches_any(&k, &multi) {
            Some(Checkpoint::Multilingual)
        } else if matches_any(&k, &typed) {
            Some(Checkpoint::TypedDecisions)
        } else {
            None
        }
    }

    /// All checkpoints, in the order English, Multilingual, TypedDecisions.
    pub fn all() -> (r: Vec<Checkpoint>)
        ensures
            r@ == seq![Checkpoint::English, Checkpoint::Multilingual, Checkpoint::TypedDecisions],
    {
        vec![Checkpoint::English, Checkpoint::Multilingual, Checkpoint::TypedDecisions]
    }
}

/// The message for a name that is no checkpoint.
pub open spec fn unknown_checkpoint_msg(name: Seq<char>) -> Seq<char> {
    "unknown checkpoint "@ + debug_quoted(name)
        + "; choose one of english, multilingual, typed-decisions"@
}

impl Checkpoint {
    /// Parses a checkpoint name or alias, or says which names there are.
    pub fn parse_named(name: &str) -> (r: core::result::Result<Checkpoint, String>)
        ensures
            match parse_spec(name@) {
                Some(c) => r == Ok::<Checkpoint, String>(c),
                None => r matches Err(msg) && msg@ == unknown_checkpoint_msg(name@),
            },
    {
        match Checkpoint::parse(name) {
            Some(c) => Ok(c),
            None => {
                let mut msg = chars_of("unknown checkpoint ");
                let quoted = debug_str(name);
                push_str(&mut msg, quoted.as_str());
                push_str(&mut msg, "; choose one of english, multilingual, typed-decisions");
                Err(string_of(&msg))
            },
        }
    }
}

impl core::str::FromStr for Checkpoint {
    type Err = String;

    /// Parses a checkpoint name or alias, or says which names there are.
    fn from_str(s: &str) -> (r: core::result::Result<Checkpoint, String>)
        ensures
            match parse_spec(s@) {
                Some(c) => r == Ok::<Checkpoint, String>(c),
                None => r matches Err(msg) && msg@ == unknown_checkpoint_msg(s@),
            },
    {
        Checkpoint::parse_named(s)
    }
}

/// Every checkpoint's canonical name parses back to that checkpoint.
pub proof fn lemma_parse_name(c: Checkpoint)
    ensures
        parse_spec(c.name_spec()) == Some(c),
{
    reveal_strlit("english");
    reveal_strlit("en");
    reveal_strlit("laya");
    reveal_strlit("default");
    reveal_strlit("multilingual");
    reveal_strlit("multi");
    reveal_strlit("ml");
    reveal_strlit("laya-multilingual");
    reveal_strlit("typed-decisions");
    reveal_strlit("typed");
    reveal_strlit("typed_decisions");
    reveal_strlit("laya-typed-decisions");
    reveal_strlit("decisions");
    let n = c.name_spec();
    assert(trim_spec(n) == n);
    assert(ascii_lower(n) =~= n);
    match c {
        Checkpoint::English => {
            assert(english_aliases()[0] == n);
        },
        Checkpoint::Multilingual => {
            assert(multilingual_aliases()[0] == n);
            assert(!is_one_of(n, english_aliases()));
        },
        Checkpoint::TypedDecisions => {
            assert(typed_aliases()[0] == n);
            assert(!is_one_of(n, english_aliases()));
            assert(!is_one_of(n, multilingual_aliases()));
        },
    }
}

/// No name is an alias of two checkpoints.
proof fn lemma_aliases_disjoint(k: Seq<char>)
    ensures
        !(is_one_of(k, english_aliases()) && is_one_of(k, multilingual_aliases())),
        !(is_one_of(k, english_aliases()) && is_one_of(k, typed_aliases())),
        !(is_one_of(k, multilingual_aliases()) && is_one_of(k, typed_aliases())),
{
    reveal_strlit("english");
    reveal_strlit("en");
    reveal_strlit("laya");
    reveal_strlit("default");
    reveal_strlit("multilingual");
    reveal_strlit("multi");
    reveal_strlit("ml");
    reveal_strlit("laya-multilingual");
    reveal_strlit("typed-decisions");
    reveal_strlit("typed");
    reveal_strlit("typed_decisions");
    reveal_strlit("laya-typed-decisions");
    reveal_strlit("decisions");
    assert("en"@[0] != "ml"@[0]);
    assert("multi"@[0] != "typed"@[0]);
    if is_one_of(k, english_aliases()) && is_one_of(k, multilingual_aliases()) {
        let i = choose|i: int| 0 <= i < english_aliases().len() && english_aliases()[i] == k;
        let j = choose|j: int| 0 <= j < multilingual_aliases().len() && multilingual_aliases()[j] == k;
        assert(english_aliases()[i].len() == multilingual_aliases()[j].len());
        assert(false);
    }
    if is_one_of(k, english_aliases()) && is_one_of(k, typed_aliases()) {
        let i = choose|i: int| 0 <= i < english_aliases().len() && english_aliases()[i] == k;
        let j = choose|j: int| 0 <= j < typed_aliases().len() && typed_aliases()[j] == k;
        assert(english_aliases()[i].len() == typed_aliases()[j].len());
        assert(false);
    }
    if is_one_of(k, multilingual_aliases()) && is_one_of(k, typed_aliases()) {
        let i = choose|i: int| 0 <= i < multilingual_aliases().len() && multilingual_aliases()[i] == k;
        let j = choose|j: int| 0 <= j < typed_aliases().len() && typed_aliases()[j] == k;
        assert(multilingual_aliases()[i].len() == typed_aliases()[j].len());
        assert(false);
    }
}

/// The key a name is matched by: trimmed of whitespace and ASCII-lowercased.
pub open spec fn checkpoint_key(name: Seq<char>) -> Seq<char> {
    ascii_lower(trim_spec(name))
}

/// A name selects a checkpoint exactly when its key is one of that checkpoint's aliases, and
/// selects none exactly when its key is no alias at all.
pub proof fn lemma_parse_aliases(name: Seq<char>)
    ensures
        parse_spec(name) == Some(Checkpoint::English) <==> is_one_of(
            checkpoint_key(name),
            english_aliases(),
        ),
        parse_spec(name) == Some(Checkpoint::Multilingual) <==> is_one_of(
            checkpoint_key(name),
            multilingual_aliases(),
        ),
        parse_spec(name) == Some(Checkpoint::TypedDecisions) <==> is_one_of(
            checkpoint_key(name),
            typed_aliases(),
        ),
        parse_spec(name) is None <==> !is_one_of(checkpoint_key(name), english_aliases())
            && !is_one_of(checkpoint_key(name), multilingual_aliases()) && !is_one_of(
            checkpoint_key(name),
            typed_aliases(),
        ),
{
    lemma_aliases_disjoint(checkpoint_key(name));
}

} // verus!
