//! A checkpoint's tokenizer plus the special-token ids the sequence builder needs.
//!
//! Special ids come from the tokenizer (`tokenizer_config.json` names resolved through
//! `tokenizer.json`); the encoder config's ids are not trusted (the multilingual one disagrees
//! with its own tokenizer).

use vstd::prelude::*;
use crate::error::{Error, Result};
use tokenizers::Tokenizer as HfTokenizer;
use crate::text::{chars_of, debug_quoted, debug_str, push_str, replace, replace_spec, string_of};

verus! {

#[verifier::external_type_specification]
#[verifier::external_body]
pub struct ExHfTokenizer(HfTokenizer);

/// The id that a tokenizer's vocabulary (its added tokens, then its model's vocabulary) gives a
/// token text, if it has the token.
pub uninterp spec fn vocab_lookup(t: HfTokenizer, token: Seq<char>) -> Option<u32>;

/// `tokenizers::Tokenizer::token_to_id`: the vocabulary id of a token text, a lookup that
/// depends on the tokenizer and the text alone.
#[verifier::external_body]
fn vocab_id(inner: &HfTokenizer, token: &str) -> (r: Option<u32>)
    ensures
        r == vocab_lookup(*inner, token@),
{
    inner.token_to_id(token)
}

/// `tokenizers::Tokenizer::encode` without special tokens, then `Encoding::get_ids`, with the
/// crate's error turned into its message. Nothing is claimed of the ids: a model configured
/// with dropout draws them at random.
#[verifier::external_body]
fn encode_ids(inner: &HfTokenizer, text: &str) -> (r: core::result::Result<
    Vec<u32>,
    String,
>) {
    match inner.encode(text, false) {
        Ok(encoding) => Ok(encoding.get_ids().to_vec()),
        Err(e) => Err(e.to_string()),
    }
}

/// The special-token names that `tokenizer_config.json` gives (`None` where it gives none).
#[derive(Debug, Clone)]
pub struct SpecialTokenNames {
    pub cls: Option<String>,
    pub sep: Option<String>,
    pub pad: Option<String>,
    pub mask: Option<String>,
}

/// The name used for a special token: the configured one, else the default.
pub open spec fn name_or(name: Option<String>, default: Seq<char>) -> Seq<char> {
    match name {
        Some(n) => n@,
        None => default,
    }
}

/// The message for a special token missing from the vocabulary.
pub open spec fn missing_token_msg(name: Seq<char>) -> Seq<char> {
    "special token "@ + debug_quoted(name) + " is not in the vocabulary"@
}

/// A special token's id and text from its vocabulary lookup: the id when the vocabulary has the
/// token, else a tokenizer error naming it.
pub fn resolve_special(name: &str, looked_up: Option<u32>) -> (r: Result<(u32, String)>)
    ensures
        match looked_up {
            Some(id) => r matches Ok((i, t)) && i == id && t@ == name@,
            None => r matches Err(Error::Tokenizer(msg)) && msg@ == missing_token_msg(name@),
        },
{
    match looked_up {
        Some(id) => Ok((id, name.to_owned())),
        None => {
            let mut msg = chars_of("special token ");
            let quoted = debug_str(name);
            push_str(&mut msg, quoted.as_str());
            push_str(&mut msg, " is not in the vocabulary");
            Err(Error::Tokenizer(string_of(&msg)))
        },
    }
}

/// A checkpoint's tokenizer plus the special-token ids the sequence builder needs.
#[derive(Debug)]
pub struct Tokenizer {
    /// The loaded `tokenizers` tokenizer.
    pub inner: HfTokenizer,
    pub cls_id: u32,
    pub sep_id: u32,
    pub pad_id: u32,
    pub mask_id: u32,
    /// The mask token's text, scrubbed from user-supplied text before tokenizing.
    pub mask_token: String,
}

fn resolve_in(inner: &HfTokenizer, name: &Option<String>, default: &str) -> (r: Result<
    (u32, String),
>)
    ensures
        r is Ok <==> vocab_lookup(*inner, name_or(*name, default@)) is Some,
        r matches Ok((id, t)) ==> t@ == name_or(*name, default@) && Some(id) == vocab_lookup(
            *inner,
            name_or(*name, default@),
        ),
        r matches Err(e) ==> e matches Error::Tokenizer(msg) && msg@ == missing_token_msg(
            name_or(*name, default@),
        ),
{
    let n: &str = match name {
        Some(s) => s.as_str(),
        None => default,
    };
    resolve_special(n, vocab_id(inner, n))
}

/// The id of a special token through the vocabulary: the configured name, else the default.
pub open spec fn special_id(inner: HfTokenizer, name: Option<String>, default: Seq<char>) -> Option<
    u32,
> {
    vocab_lookup(inner, name_or(name, default))
}

/// Whether the vocabulary holds all four special tokens.
pub open spec fn specials_resolve(inner: HfTokenizer, names: SpecialTokenNames) -> bool {
    &&& special_id(inner, names.cls, "[CLS]"@) is Some
    &&& special_id(inner, names.sep, "[SEP]"@) is Some
    &&& special_id(inner, names.pad, "[PAD]"@) is Some
    &&& special_id(inner, names.mask, "[MASK]"@) is Some
}

/// The name of the first special token, in `[CLS]`, `[SEP]`, `[PAD]`, `[MASK]` order, that the
/// vocabulary lacks (the mask's when all others resolve).
pub open spec fn first_missing(inner: HfTokenizer, names: SpecialTokenNames) -> Seq<char> {
    if special_id(inner, names.cls, "[CLS]"@) is None {
        name_or(names.cls, "[CLS]"@)
    } else if special_id(inner, names.sep, "[SEP]"@) is None {
        name_or(names.sep, "[SEP]"@)
    } else if special_id(inner, names.pad, "[PAD]"@) is None {
        name_or(names.pad, "[PAD]"@)
    } else {
        name_or(names.mask, "[MASK]"@)
    }
}

/// Token ids together with the tokenizer and the text they were encoded from. Only
/// [`Tokenizer::encode_text`] makes one, so its ids are what encoding that text gave.
pub struct Encoded {
    ids: Vec<u32>,
    source: Ghost<(Tokenizer, Seq<char>)>,
}

impl Encoded {
    /// The ids.
    pub closed spec fn ids_spec(self) -> Seq<u32> {
        self.ids@
    }

    /// Whether these ids are what `tok` gave for `text` (before scrubbing).
    pub closed spec fn encodes(self, tok: Tokenizer, text: Seq<char>) -> bool {
        self.source@ == (tok, text)
    }

    pub fn ids(&self) -> (r: &Vec<u32>)
        ensures
            r@ == self.ids_spec(),
    {
        &self.ids
    }

    pub fn into_ids(self) -> (r: Vec<u32>)
        ensures
            r@ == self.ids_spec(),
    {
        self.ids
    }
}

impl Tokenizer {
    /// Wraps a loaded tokenizer, resolving the special tokens `[CLS]`, `[SEP]`, `[PAD]`, `[MASK]`
    /// (or the names the config gives) through its vocabulary; the first one missing fails.
    pub fn from_parts(inner: HfTokenizer, names: &SpecialTokenNames) -> (r: Result<
        Tokenizer,
    >)
        ensures
            r is Ok <==> specials_resolve(inner, *names),
            r matches Ok(t) ==> {
                &&& t.inner == inner
                &&& Some(t.cls_id) == special_id(inner, names.cls, "[CLS]"@)
                &&& Some(t.sep_id) == special_id(inner, names.sep, "[SEP]"@)
                &&& Some(t.pad_id) == special_id(inner, names.pad, "[PAD]"@)
                &&& Some(t.mask_id) == special_id(inner, names.mask, "[MASK]"@)
                &&& t.mask_token@ == name_or(names.mask, "[MASK]"@)
            },
            r matches Err(e) ==> e matches Error::Tokenizer(msg) && msg@ == missing_token_msg(
                first_missing(inner, *names),
            ),
    {
        let (cls_id, _) = match resolve_in(&inner, &names.cls, "[CLS]") {
            Ok(p) => p,
            Err(e) => return Err(e),
        };
        let (sep_id, _) = match resolve_in(&inner, &names.sep, "[SEP]") {
            Ok(p) => p,
            Err(e) => return Err(e),
        };
        let (pad_id, _) = match resolve_in(&inner, &names.pad, "[PAD]") {
            Ok(p) => p,
            Err(e) => return Err(e),
        };
        let (mask_id, mask_token) = match resolve_in(&inner, &names.mask, "[MASK]") {
            Ok(p) => p,
            Err(e) => return Err(e),
        };
        Ok(Tokenizer { inner, cls_id, sep_id, pad_id, mask_id, mask_token })
    }

    /// The text handed to the tokenizer: `text` with every occurrence of the mask token replaced
    /// by a space.
    pub fn scrub(&self, text: &str) -> (r: String)
        ensures
            r@ == replace_spec(text@, self.mask_token@, seq![' ']),
    {
        let pat = chars_of(self.mask_token.as_str());
        let rep = vec![' '];
        assert(rep@ =~= seq![' ']);
        string_of(&replace(&chars_of(text), &pat, &rep))
    }

    /// Token ids for `text` without special tokens, with any literal mask token replaced by a
    /// space first, kept with the text they came from. Fails only with a tokenizer error.
    pub fn encode_text(&self, text: &str) -> (r: Result<Encoded>)
        ensures
            r matches Ok(e) ==> e.encodes(*self, text@),
            r matches Err(e) ==> e is Tokenizer,
    {
        let scrubbed = self.scrub(text);
        match encode_ids(&self.inner, scrubbed.as_str()) {
            Ok(ids) => Ok(Encoded { ids, source: Ghost((*self, text@)) }),
            Err(msg) => Err(Error::Tokenizer(msg)),
        }
    }

    /// Token ids for `text` without special tokens, with any literal mask token replaced by a
    /// space first. Fails only with a tokenizer error.
    pub fn encode(&self, text: &str) -> (r: Result<Vec<u32>>)
        ensures
            r matches Err(e) ==> e is Tokenizer,
    {
        match self.encode_text(text) {
            Ok(e) => Ok(e.into_ids()),
            Err(e) => Err(e),
        }
    }
}

} // verus!
