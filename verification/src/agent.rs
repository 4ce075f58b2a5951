//! What an agent decides before and around the model: token budgets, validating and tokenizing
//! every request up front, and packing the sequences into forward passes.

use vstd::prelude::*;
use crate::collections::{question_at, question_count, question_entries};
use crate::error::{Error, Result};
use crate::question::{Question, Questions};
use crate::sequence::{
    build_sequence, built_from, layout_of, lemma_sequence_ends_with_state, Budgets, Sequence,
};
use crate::state::State;
use crate::tokenizer::{Encoded, Tokenizer};

verus! {

/// The `model` field reported in every response.
pub const MODEL_NAME: &'static str = "laya-rl-agent";

/// Per-call overrides of the checkpoint's token budgets.
#[derive(Debug, Clone, Copy, PartialEq, Eq, Structural)]
pub struct PredictOptions {
    pub max_len: Option<usize>,
    pub head_max_len: Option<usize>,
}

impl Default for PredictOptions {
    fn default() -> (r: PredictOptions)
        ensures
            r.max_len is None && r.head_max_len is None,
    {
        PredictOptions { max_len: None, head_max_len: None }
    }
}

/// How sequences are packed into forward passes: sub-batches never exceed `max_tokens` padded
/// tokens or `max_seqs` sequences.
#[derive(Debug, Clone, Copy, PartialEq, Eq, Structural)]
pub struct BatchOptions {
    pub max_tokens: usize,
    pub max_seqs: usize,
}

impl Default for BatchOptions {
    fn default() -> (r: BatchOptions)
        ensures
            r.max_tokens == 16384 && r.max_seqs == 256,
    {
        BatchOptions { max_tokens: 16384, max_seqs: 256 }
    }
}

/// One state and the questions to answer about it.
#[derive(Debug, Clone, Copy)]
pub struct Request<'a> {
    pub state: &'a State,
    pub questions: &'a Questions,
}

/// Token counts reported with a response.
#[derive(Debug, Clone, PartialEq, Eq, Structural)]
pub struct Usage {
    pub input_tokens: usize,
    pub output_tokens: usize,
}

// ---------------------------------------------------------------------------------------------
// Budgets.
// ---------------------------------------------------------------------------------------------

/// The context budget a call uses: its override, else the checkpoint's.
pub open spec fn max_len_spec(opts: PredictOptions, config_max_len: usize) -> usize {
    match opts.max_len {
        Some(m) => m,
        None => config_max_len,
    }
}

/// The head budget a call uses: its override, else the checkpoint's.
pub open spec fn head_max_len_spec(opts: PredictOptions, config_head_max_len: usize) -> usize {
    match opts.head_max_len {
        Some(m) => m,
        None => config_head_max_len,
    }
}

/// The budgets for a call: the overrides, else the checkpoint's `max_len` and `head_max_len`.
/// Fails when the context budget exceeds what the encoder can position.
pub fn budgets(
    opts: &PredictOptions,
    config_max_len: usize,
    config_head_max_len: usize,
    max_position_embeddings: usize,
) -> (r: Result<Budgets>)
    ensures
        max_len_spec(*opts, config_max_len) > max_position_embeddings ==> (r matches Err(
            Error::ContextBudgetTooLarge { max_len: m, max_position_embeddings: p },
        ) && m == max_len_spec(*opts, config_max_len) && p == max_position_embeddings),
        max_len_spec(*opts, config_max_len) <= max_position_embeddings ==> r == Ok::<
            Budgets,
            Error,
        >(
            Budgets {
                max_len: max_len_spec(*opts, config_max_len),
                head_max_len: head_max_len_spec(*opts, config_head_max_len),
            },
        ),
{
    let max_len = match opts.max_len {
        Some(m) => m,
        None => config_max_len,
    };
    if max_len > max_position_embeddings {
        return Err(Error::ContextBudgetTooLarge { max_len, max_position_embeddings });
    }
    let head_max_len = match opts.head_max_len {
        Some(m) => m,
        None => config_head_max_len,
    };
    Ok(Budgets { max_len, head_max_len })
}


// ---------------------------------------------------------------------------------------------
// Validating and tokenizing every request up front.
// ---------------------------------------------------------------------------------------------

/// A tokenized question of a batch: the request it belongs to and its sequence.
#[derive(Debug, Clone)]
pub struct Item {
    pub request: usize,
    pub seq: Sequence,
}

/// The question entries of a request.
pub open spec fn entries_of(req: Request) -> Seq<(String, Question)> {
    question_entries(*req.questions)
}

/// (r, q) for each question `q < n` of request `r`.
pub open spec fn row_keys(r: nat, n: nat) -> Seq<(nat, nat)> {
    Seq::new(n, |q: int| (r, q as nat))
}

/// (request, question) for each item, in request order and then question order.
pub open spec fn item_keys(reqs: Seq<Request>) -> Seq<(nat, nat)>
    decreases reqs.len(),
{
    if reqs.len() == 0 {
        Seq::empty()
    } else {
        let r = (reqs.len() - 1) as nat;
        item_keys(reqs.drop_last()) + row_keys(r, entries_of(reqs.last()).len())
    }
}

/// What the item for question `q` of request `r` promises: it belongs to request `r` and its
/// sequence is built for that question about request `r`'s own state, within the context
/// budget, one `[MASK]` marker per option, the markers rising and inside the sequence.
pub open spec fn item_laws(item: Item, reqs: Seq<Request>, key: (nat, nat), tok: Tokenizer, budgets: Budgets) -> bool {
    let question = entries_of(reqs[key.0 as int])[key.1 as int].1;
    let mask = tok.mask_id;
    &&& item.request == key.0
    &&& built_from(item.seq, tok, *reqs[key.0 as int].state, question, budgets, false)
    &&& item.seq.kind == question.kind_spec()
    &&& item.seq.markers@.len() == question.options_spec().len()
    &&& item.seq.ids@.len() <= budgets.max_len
    &&& forall|i: int|
        0 <= i < item.seq.markers@.len() ==> item.seq.ids@[#[trigger] item.seq.markers@[i] as int]
            == mask
    &&& forall|i: int|
        0 <= i < item.seq.markers@.len() ==> #[trigger] item.seq.markers@[i] < item.seq.ids@.len()
    &&& forall|i: int, k: int|
        0 <= i < k < item.seq.markers@.len() ==> #[trigger] item.seq.markers@[i]
            < #[trigger] item.seq.markers@[k]
}

/// Whether every question of every request has at least two options.
pub open spec fn all_valid(reqs: Seq<Request>) -> bool {
    forall|r: int, q: int|
        0 <= r < reqs.len() && 0 <= q < entries_of(reqs[r]).len() ==> (#[trigger] entries_of(
            reqs[r],
        )[q]).1.option_count_spec() >= 2
}

proof fn lemma_key_at(reqs: Seq<Request>, r: int, q: int)
    requires
        0 <= r < reqs.len(),
        0 <= q < entries_of(reqs[r]).len(),
    ensures
        item_keys(reqs.take(r)).len() + q < item_keys(reqs).len(),
        item_keys(reqs)[item_keys(reqs.take(r)).len() + q] == (r as nat, q as nat),
    decreases reqs.len(),
{
    let init = reqs.drop_last();
    if r == reqs.len() - 1 {
        assert(reqs.take(r) =~= init);
        assert(reqs.last() == reqs[r]);
    } else {
        lemma_key_at(init, r, q);
        assert(init.take(r) =~= reqs.take(r));
        assert(init[r] == reqs[r]);
    }
}

/// The (id, question) at a key of the batch.
pub open spec fn question_of(reqs: Seq<Request>, key: (nat, nat)) -> (String, Question) {
    entries_of(reqs[key.0 as int])[key.1 as int]
}

/// Whether the question at a key has at least two options.
pub open spec fn key_valid(reqs: Seq<Request>, key: (nat, nat)) -> bool {
    question_of(reqs, key).1.option_count_spec() >= 2
}

/// Whether `e` is how preparation fails at the `k`-th question (in request order, then
/// question order): every earlier question is valid, the error carries the question's request,
/// and its source is the question's validation error when it has fewer than two options, else
/// a tokenizer error or the head budget overflow of that question.
pub open spec fn failure_at(reqs: Seq<Request>, k: int, e: Error, budgets: Budgets) -> bool {
    let keys = item_keys(reqs);
    let (id, q) = question_of(reqs, keys[k]);
    &&& 0 <= k < keys.len()
    &&& forall|j: int| 0 <= j < k ==> #[trigger] key_valid(reqs, keys[j])
    &&& e matches Error::Request { request, source } && request == keys[k].0 && if !key_valid(
        reqs,
        keys[k],
    ) {
        *source matches Error::TooFewOptions { question_id, options } && question_id@ == id@
            && options == q.option_count_spec()
    } else {
        *source is Tokenizer || (*source matches Error::OptionsExceedHeadBudget {
            question_id,
            head_max_len,
        } && question_id@ == id@ && head_max_len == budgets.head_max_len)
    }
}

proof fn lemma_item_keys_prefix(reqs: Seq<Request>, r: int)
    requires
        0 <= r <= reqs.len(),
    ensures
        item_keys(reqs.take(r)).len() <= item_keys(reqs).len(),
        forall|j: int|
            0 <= j < item_keys(reqs.take(r)).len() ==> #[trigger] item_keys(reqs)[j]
                == item_keys(reqs.take(r))[j],
    decreases reqs.len(),
{
    if r == reqs.len() {
        assert(reqs.take(r) =~= reqs);
    } else {
        let init = reqs.drop_last();
        lemma_item_keys_prefix(init, r);
        assert(init.take(r) =~= reqs.take(r));
    }
}

/// Whether `items` are what preparing `reqs` gives: one item per question, request by request
/// and question by question, each keeping [`item_laws`].
pub open spec fn prepared(items: Seq<Item>, reqs: Seq<Request>, tok: Tokenizer, budgets: Budgets) -> bool {
    &&& items.len() == item_keys(reqs).len()
    &&& forall|k: int|
        0 <= k < items.len() ==> #[trigger] item_laws(items[k], reqs, item_keys(reqs)[k], tok, budgets)
}

proof fn lemma_item_keys_bound(reqs: Seq<Request>)
    ensures
        forall|k: int|
            0 <= k < item_keys(reqs).len() ==> (#[trigger] item_keys(reqs)[k]).0 < reqs.len()
                && item_keys(reqs)[k].1 < entries_of(reqs[item_keys(reqs)[k].0 as int]).len(),
    decreases reqs.len(),
{
    if reqs.len() > 0 {
        let init = reqs.drop_last();
        lemma_item_keys_bound(init);
        let r = (reqs.len() - 1) as nat;
        let before = item_keys(init);
        let row = row_keys(r, entries_of(reqs.last()).len());
        assert forall|k: int| 0 <= k < item_keys(reqs).len() implies (
        #[trigger] item_keys(reqs)[k]).0 < reqs.len() && item_keys(reqs)[k].1 < entries_of(
            reqs[item_keys(reqs)[k].0 as int],
        ).len() by {
            if k < before.len() {
                assert(item_keys(reqs)[k] == before[k]);
                assert(init[before[k].0 as int] == reqs[before[k].0 as int]);
            } else {
                assert(item_keys(reqs)[k] == row[k - before.len()]);
                assert(reqs.last() == reqs[r as int]);
            }
        }
    }
}

/// Every prepared item is read about the state of its own request: it is built for its question
/// about `reqs[item.request].state`, and when the context budget did not cut it, it ends with an
/// encoding of that state's text and then `[SEP]`.
pub proof fn lemma_item_reads_its_own_state(
    items: Seq<Item>,
    reqs: Seq<Request>,
    tok: Tokenizer,
    budgets: Budgets,
    k: int,
)
    requires
        prepared(items, reqs, tok, budgets),
        0 <= k < items.len(),
    ensures
        items[k].request < reqs.len(),
        built_from(
            items[k].seq,
            tok,
            *reqs[items[k].request as int].state,
            question_of(reqs, item_keys(reqs)[k]).1,
            budgets,
            false,
        ),
        items[k].seq.ids@.len() < budgets.max_len ==> exists|s: Encoded|
            #[trigger] s.encodes(tok, (*reqs[items[k].request as int].state).render_spec())
                && items[k].seq.ids@.len() >= s.ids_spec().len() + 1 && items[k].seq.ids@.subrange(
                items[k].seq.ids@.len() - s.ids_spec().len() - 1,
                items[k].seq.ids@.len() as int,
            ) == s.ids_spec().push(tok.sep_id),
{
    lemma_item_keys_bound(reqs);
    let key = item_keys(reqs)[k];
    assert(item_laws(items[k], reqs, key, tok, budgets));
    let state = *reqs[key.0 as int].state;
    let q = question_of(reqs, key).1;
    let seq = items[k].seq;
    if seq.ids@.len() < budgets.max_len {
        let (h, o, st) = choose|h: Encoded, o: Seq<Encoded>, st: Encoded|
            #[trigger] layout_of(seq, tok, state, q, budgets, false, h, o, st);
        lemma_sequence_ends_with_state(seq, tok, state, q, budgets, false, h, o, st);
    }
}

/// Validates and tokenizes every question of every request, in request order and then question
/// order, before any model work. The first bad question fails the whole call with
/// [`Error::Request`] carrying its request's index; a question with fewer than two options
/// always fails the call.
pub fn prepare_items(tok: &Tokenizer, requests: &[Request], budgets: Budgets) -> (r: Result<
    Vec<Item>,
>)
    ensures
        r matches Ok(items) ==> items@.len() == item_keys(requests@).len() && (forall|k: int|
            0 <= k < items@.len() ==> #[trigger] item_laws(
                items@[k],
                requests@,
                item_keys(requests@)[k],
                *tok,
                budgets,
            )),
        r matches Ok(items) ==> prepared(items@, requests@, *tok, budgets),
        r matches Err(e) ==> exists|k: int| #[trigger] failure_at(requests@, k, e, budgets),
        item_keys(requests@).len() == 0 ==> (r matches Ok(items) && items@.len() == 0),
        item_keys(requests@).len() > 0 && !key_valid(requests@, item_keys(requests@)[0]) ==> (
        r matches Err(e) && failure_at(requests@, 0, e, budgets)),
        !all_valid(requests@) ==> r is Err,
{
    let ghost reqs = requests@;
    let mut items: Vec<Item> = Vec::new();
    let mut ri: usize = 0;
    while ri < requests.len()
        invariant
            ri <= requests.len(),
            reqs == requests@,
            items@.len() == item_keys(reqs.take(ri as int)).len(),
            forall|k: int|
                0 <= k < items@.len() ==> #[trigger] item_laws(
                    items@[k],
                    reqs,
                    item_keys(reqs.take(ri as int))[k],
                    *tok,
                    budgets,
                ),
            forall|k: int|
                0 <= k < items@.len() ==> entries_of(reqs[#[trigger] item_keys(reqs.take(ri as int))[k].0 as int])[
                    item_keys(reqs.take(ri as int))[k].1 as int].1.option_count_spec() >= 2,
        decreases requests.len() - ri,
    {
        let req = requests[ri];
        let n = question_count(req.questions);
        let ghost before = item_keys(reqs.take(ri as int));
        let ghost entries = entries_of(req);
        let ghost keys = before + row_keys(ri as nat, n as nat);
        let mut qi: usize = 0;
        while qi < n
            invariant
                qi <= n,
                ri < requests.len(),
                reqs == requests@,
                req == reqs[ri as int],
                entries == entries_of(req),
                n == entries.len(),
                before == item_keys(reqs.take(ri as int)),
                items@.len() == before.len() + qi,
                keys == before + row_keys(ri as nat, n as nat),
                forall|k: int|
                    0 <= k < items@.len() ==> #[trigger] item_laws(
                        items@[k],
                        reqs,
                        keys[k],
                        *tok,
                        budgets,
                    ),
                forall|k: int|
                    0 <= k < items@.len() ==> entries_of(reqs[#[trigger] keys[k].0 as int])[
                        keys[k].1 as int].1.option_count_spec() >= 2,
            decreases n - qi,
        {
            let (qid, q) = question_at(req.questions, qi).unwrap();
            let built = match q.validate(qid.as_str()) {
                Ok(()) => build_sequence(tok, req.state, qid.as_str(), q, budgets, false),
                Err(e) => Err(e),
            };
            match built {
                Ok(seq) => {
                    items.push(Item { request: ri, seq });
                },
                Err(e) => {
                    let err = Error::Request { request: ri, source: Box::new(e) };
                    proof {
                        let k = before.len() + qi;
                        lemma_item_keys_prefix(reqs, ri as int);
                        lemma_key_at(reqs, ri as int, qi as int);
                        let all = item_keys(reqs);
                        assert(all[k] == (ri as nat, qi as nat));
                        assert(question_of(reqs, all[k]) == entries[qi as int]);
                        assert forall|j: int| 0 <= j < k implies #[trigger] key_valid(reqs, all[j]) by {
                            if j < before.len() {
                                assert(all[j] == before[j]);
                            } else {
                                lemma_key_at(reqs, ri as int, j - before.len());
                                assert(all[j] == keys[j]);
                            }
                            assert(entries_of(reqs[keys[j].0 as int])[keys[j].1 as int].1.option_count_spec() >= 2);
                        }
                        assert(failure_at(reqs, k, err, budgets));
                    }
                    return Err(err);
                },
            }
            qi += 1;
        }
        proof {
            assert(reqs.take(ri + 1).drop_last() =~= reqs.take(ri as int));
            assert(reqs.take(ri + 1).last() == reqs[ri as int]);
        }
        ri += 1;
    }
    proof {
        assert(reqs.take(requests.len() as int) =~= reqs);
        if item_keys(reqs).len() > 0 {
            assert(key_valid(reqs, item_keys(reqs)[0]));
        }
        if !all_valid(reqs) {
            let (r, q) = choose|r: int, q: int| 0 <= r < reqs.len() && 0 <= q < entries_of(reqs[r]).len() && !((#[trigger] entries_of(reqs[r])[q]).1.option_count_spec() >= 2);
            lemma_key_at(reqs, r, q);
            let k = item_keys(reqs.take(r)).len() + q;
            assert(item_keys(reqs)[k] == (r as nat, q as nat));
            assert(false);
        }
    }
    Ok(items)
}


// ---------------------------------------------------------------------------------------------
// Packing sequences into forward passes.
// ---------------------------------------------------------------------------------------------

/// Whether `order` lists every index of `lengths` once, shortest first and, among equal lengths,
/// in index order (a stable sort by length).
pub open spec fn sorted_by_length(order: Seq<usize>, lengths: Seq<usize>) -> bool {
    &&& order.len() == lengths.len()
    &&& forall|a: int| 0 <= a < order.len() ==> #[trigger] order[a] < lengths.len()
    &&& forall|a: int, b: int|
        0 <= a < b < order.len() ==> lengths[#[trigger] order[a] as int] < lengths[#[trigger] order[b] as int]
            || (lengths[order[a] as int] == lengths[order[b] as int] && order[a] < order[b])
}

/// Where a batch starting at `i` of the length-sorted `ls` ends, scanning from `j` with the
/// longest length seen so far: grow while the batch stays within `max_seqs` sequences and
/// within `max_tokens` padded tokens (longest × count).
pub open spec fn scan_end(ls: Seq<usize>, i: nat, j: nat, longest: nat, opts: BatchOptions) -> nat
    decreases ls.len() - j,
{
    if j < ls.len() && j - i < opts.max_seqs {
        let l = if ls[j as int] > longest {
            ls[j as int] as nat
        } else {
            longest
        };
        if l * ((j - i + 1) as nat) <= opts.max_tokens {
            scan_end(ls, i, j + 1, l, opts)
        } else {
            j
        }
    } else {
        j
    }
}

/// The end of the batch starting at `i`: the scan's end, but at least one sequence.
pub open spec fn batch_end(ls: Seq<usize>, i: nat, opts: BatchOptions) -> nat {
    let e = scan_end(ls, i, i, 0, opts);
    if e > i {
        e
    } else {
        i + 1
    }
}

/// The batches of `order` from position `i` on, as lists of item indices.
pub open spec fn batches_from(order: Seq<usize>, lengths: Seq<usize>, i: nat, opts: BatchOptions) -> Seq<
    Seq<usize>,
>
    decreases order.len() - i,
{
    if i >= order.len() {
        Seq::empty()
    } else {
        let ls = order.map_values(|k: usize| lengths[k as int]);
        let e = batch_end(ls, i, opts);
        if e <= order.len() {
            seq![order.subrange(i as int, e as int)] + batches_from(order, lengths, e, opts)
        } else {
            seq![order.subrange(i as int, order.len() as int)]
        }
    }
}

proof fn lemma_scan_bounds(ls: Seq<usize>, i: nat, j: nat, longest: nat, opts: BatchOptions)
    requires
        i <= j <= ls.len(),
    ensures
        j <= scan_end(ls, i, j, longest, opts) <= ls.len(),
    decreases ls.len() - j,
{
    if j < ls.len() && j - i < opts.max_seqs {
        let l = if ls[j as int] > longest {
            ls[j as int] as nat
        } else {
            longest
        };
        if l * ((j - i + 1) as nat) <= opts.max_tokens {
            lemma_scan_bounds(ls, i, j + 1, l, opts);
        }
    }
}

/// Sorts item indices by sequence length, stably.
fn sort_by_length(lengths: &[usize]) -> (r: Vec<usize>)
    ensures
        sorted_by_length(r@, lengths@),
{
    let mut order: Vec<usize> = Vec::new();
    let mut i: usize = 0;
    while i < lengths.len()
        invariant
            i <= lengths.len(),
            order.len() == i,
            forall|a: int| 0 <= a < order.len() ==> #[trigger] order@[a] < i,
            forall|a: int, b: int|
                0 <= a < b < order.len() ==> lengths@[#[trigger] order@[a] as int]
                    < lengths@[#[trigger] order@[b] as int] || (lengths@[order@[a] as int]
                    == lengths@[order@[b] as int] && order@[a] < order@[b]),
        decreases lengths.len() - i,
    {
        // Insert `i` after every index whose length is at most its own.
        let li = lengths[i];
        let mut p: usize = 0;
        while p < order.len() && lengths[order[p]] <= li
            invariant
                p <= order.len(),
                forall|a: int| 0 <= a < order.len() ==> #[trigger] order@[a] < i,
                i < lengths.len(),
                li == lengths@[i as int],
                forall|a: int, b: int|
                    0 <= a < b < order.len() ==> lengths@[#[trigger] order@[a] as int]
                        < lengths@[#[trigger] order@[b] as int] || (lengths@[order@[a] as int]
                        == lengths@[order@[b] as int] && order@[a] < order@[b]),
                forall|a: int| 0 <= a < p ==> lengths@[#[trigger] order@[a] as int] <= li,
            decreases order.len() - p,
        {
            p += 1;
        }
        let ghost old_order = order@;
        proof {
            assert forall|a: int| p <= a < old_order.len() implies lengths@[#[trigger] old_order[a] as int] > li by {
                if a > p {
                    assert(lengths@[old_order[p as int] as int] > li);
                    assert(lengths@[old_order[p as int] as int] <= lengths@[old_order[a] as int]);
                }
            }
        }
        order.insert(p, i);
        proof {
            let o = order@;
            assert forall|a: int, b: int| 0 <= a < b < o.len() implies lengths@[#[trigger] o[a] as int]
                < lengths@[#[trigger] o[b] as int] || (lengths@[o[a] as int] == lengths@[o[b] as int]
                && o[a] < o[b]) by {
                if a < p && b < p {
                    assert(o[a] == old_order[a] && o[b] == old_order[b]);
                } else if a < p && b == p {
                    assert(o[a] == old_order[a]);
                } else if a < p {
                    assert(o[a] == old_order[a] && o[b] == old_order[b - 1]);
                } else if a == p {
                    assert(o[b] == old_order[b - 1]);
                } else {
                    assert(o[a] == old_order[a - 1] && o[b] == old_order[b - 1]);
                }
            }
            assert forall|a: int| 0 <= a < o.len() implies #[trigger] o[a] < i + 1 by {
                if a < p {
                    assert(o[a] == old_order[a]);
                } else if a > p {
                    assert(o[a] == old_order[a - 1]);
                }
            }
        }
        i += 1;
    }
    order
}

/// The end of the batch that starts at position `i` of the sorted lengths `ls`.
fn batch_end_of(ls: &Vec<usize>, i: usize, opts: &BatchOptions) -> (r: usize)
    requires
        i < ls.len(),
    ensures
        r == batch_end(ls@, i as nat, *opts),
        i < r <= ls.len(),
{
    let mut j: usize = i;
    let mut longest: usize = 0;
    proof {
        lemma_scan_bounds(ls@, i as nat, i as nat, 0, *opts);
    }
    while j < ls.len() && j - i < opts.max_seqs
        invariant
            i <= j <= ls.len(),
            scan_end(ls@, i as nat, j as nat, longest as nat, *opts) == scan_end(
                ls@,
                i as nat,
                i as nat,
                0,
                *opts,
            ),
        ensures
            i <= j <= ls.len(),
            j == scan_end(ls@, i as nat, i as nat, 0, *opts),
        decreases ls.len() - j,
    {
        let l = if ls[j] > longest { ls[j] } else { longest };
        let count = j - i + 1;
        assert((l as u128) * (count as u128) <= u128::MAX) by (nonlinear_arith)
            requires
                l <= usize::MAX,
                count <= usize::MAX,
                usize::MAX <= 0xffff_ffff_ffff_ffffint,
        ;
        let padded: u128 = (l as u128) * (count as u128);
        if padded > opts.max_tokens as u128 {
            break;
        }
        longest = l;
        j += 1;
    }
    if j > i { j } else { i + 1 }
}

/// Packs sequences (given by their lengths) into forward passes: sorted by length, stably, then
/// cut greedily so that each pass holds at most `max_seqs` sequences and at most `max_tokens`
/// padded tokens, always at least one sequence. Returns the item indices of each pass.
pub fn pack_batches(lengths: &[usize], opts: &BatchOptions) -> (r: Vec<Vec<usize>>)
    ensures
        exists|order: Seq<usize>|
            sorted_by_length(order, lengths@) && #[trigger] batches_from(order, lengths@, 0, *opts)
                == r@.map_values(|b: Vec<usize>| b@),
{
    let order = sort_by_length(lengths);
    let mut ls: Vec<usize> = Vec::new();
    let mut k: usize = 0;
    while k < order.len()
        invariant
            k <= order.len(),
            sorted_by_length(order@, lengths@),
            ls@ == order@.take(k as int).map_values(|x: usize| lengths@[x as int]),
        decreases order.len() - k,
    {
        ls.push(lengths[order[k]]);
        k += 1;
        assert(ls@ =~= order@.take(k as int).map_values(|x: usize| lengths@[x as int]));
    }
    assert(order@.take(order.len() as int) =~= order@);
    let ghost all = batches_from(order@, lengths@, 0, *opts);
    let mut out: Vec<Vec<usize>> = Vec::new();
    let mut i: usize = 0;
    while i < order.len()
        invariant
            i <= order.len(),
            ls@ == order@.map_values(|x: usize| lengths@[x as int]),
            ls@.len() == order@.len(),
            out@.map_values(|b: Vec<usize>| b@) + batches_from(order@, lengths@, i as nat, *opts) == all,
        decreases order.len() - i,
    {
        let e = batch_end_of(&ls, i, opts);
        let mut b: Vec<usize> = Vec::new();
        let mut t: usize = i;
        while t < e
            invariant
                i <= t <= e <= order.len(),
                b@ == order@.subrange(i as int, t as int),
            decreases e - t,
        {
            b.push(order[t]);
            t += 1;
            assert(b@ =~= order@.subrange(i as int, t as int));
        }
        let ghost prev = out@.map_values(|b: Vec<usize>| b@);
        out.push(b);
        assert(out@.map_values(|b: Vec<usize>| b@) =~= prev.push(order@.subrange(i as int, e as int)));
        assert(batches_from(order@, lengths@, i as nat, *opts) == seq![order@.subrange(i as int, e as int)]
            + batches_from(order@, lengths@, e as nat, *opts));
        assert(prev.push(order@.subrange(i as int, e as int)) + batches_from(order@, lengths@, e as nat, *opts)
            =~= prev + batches_from(order@, lengths@, i as nat, *opts));
        i = e;
    }
    assert(out@.map_values(|b: Vec<usize>| b@) + Seq::<Seq<usize>>::empty() =~= out@.map_values(|b: Vec<usize>| b@));
    out
}


proof fn lemma_scan_laws(ls: Seq<usize>, i: nat, j: nat, longest: nat, opts: BatchOptions)
    requires
        i <= j <= ls.len(),
        forall|t: int| i <= t < j ==> ls[t] <= longest,
        j > i ==> longest * ((j - i) as nat) <= opts.max_tokens,
        j - i <= opts.max_seqs,
    ensures
        scan_end(ls, i, j, longest, opts) - i <= opts.max_seqs,
        scan_end(ls, i, j, longest, opts) > i ==> forall|t: int|
            i <= t < scan_end(ls, i, j, longest, opts) ==> #[trigger] ls[t] * ((scan_end(
                ls,
                i,
                j,
                longest,
                opts,
            ) - i) as nat) <= opts.max_tokens,
    decreases ls.len() - j,
{
    let l = if j < ls.len() && ls[j as int] > longest {
        ls[j as int] as nat
    } else {
        longest
    };
    if j < ls.len() && j - i < opts.max_seqs && l * ((j - i + 1) as nat) <= opts.max_tokens {
        lemma_scan_laws(ls, i, j + 1, l, opts);
    } else if j > i {
        assert forall|t: int| i <= t < j implies #[trigger] ls[t] * ((j - i) as nat) <= opts.max_tokens by {
            let n = (j - i) as nat;
            let x = ls[t] as nat;
            assert(x * n <= longest * n) by (nonlinear_arith)
                requires
                    x <= longest,
            ;
        }
    }
}

/// Packing keeps every item exactly once and respects the budgets: the passes, one after
/// another, are the length-sorted order; each pass holds at least one sequence and at most
/// `max_seqs` (a single sequence always goes through); and a pass of two or more sequences
/// pads to at most `max_tokens` tokens.
pub proof fn lemma_packing(order: Seq<usize>, lengths: Seq<usize>, opts: BatchOptions)
    requires
        sorted_by_length(order, lengths),
    ensures
        batches_from(order, lengths, 0, opts).flatten() == order,
        forall|k: int|
            0 <= k < batches_from(order, lengths, 0, opts).len() ==> {
                let b = #[trigger] batches_from(order, lengths, 0, opts)[k];
                &&& 1 <= b.len()
                &&& (b.len() <= opts.max_seqs || b.len() == 1)
                &&& (b.len() >= 2 ==> forall|x: int|
                    0 <= x < b.len() ==> lengths[#[trigger] b[x] as int] * b.len() <= opts.max_tokens)
            },
{
    lemma_packing_from(order, lengths, 0, opts);
    assert(order.subrange(0, order.len() as int) =~= order);
}

proof fn lemma_packing_from(order: Seq<usize>, lengths: Seq<usize>, i: nat, opts: BatchOptions)
    requires
        sorted_by_length(order, lengths),
        i <= order.len(),
    ensures
        batches_from(order, lengths, i, opts).flatten() == order.subrange(i as int, order.len() as int),
        forall|k: int|
            0 <= k < batches_from(order, lengths, i, opts).len() ==> {
                let b = #[trigger] batches_from(order, lengths, i, opts)[k];
                &&& 1 <= b.len()
                &&& (b.len() <= opts.max_seqs || b.len() == 1)
                &&& (b.len() >= 2 ==> forall|x: int|
                    0 <= x < b.len() ==> lengths[#[trigger] b[x] as int] * b.len() <= opts.max_tokens)
            },
    decreases order.len() - i,
{
    if i < order.len() {
        let ls = order.map_values(|k: usize| lengths[k as int]);
        lemma_scan_bounds(ls, i, i, 0, opts);
        lemma_scan_laws(ls, i, i, 0, opts);
        let e = batch_end(ls, i, opts);
        let b = order.subrange(i as int, e as int);
        lemma_packing_from(order, lengths, e, opts);
        let rest = batches_from(order, lengths, e, opts);
        let all = batches_from(order, lengths, i, opts);
        assert(all == seq![b] + rest);
        assert(all.drop_first() =~= rest);
        assert(all.first() == b);
        assert(b + order.subrange(e as int, order.len() as int) =~= order.subrange(i as int, order.len() as int));
        assert forall|k: int| 0 <= k < all.len() implies {
            let c = #[trigger] all[k];
            &&& 1 <= c.len()
            &&& (c.len() <= opts.max_seqs || c.len() == 1)
            &&& (c.len() >= 2 ==> forall|x: int|
                0 <= x < c.len() ==> lengths[#[trigger] c[x] as int] * c.len() <= opts.max_tokens)
        } by {
            if k == 0 {
                assert(all[0] == b);
                if b.len() >= 2 {
                    assert forall|x: int| 0 <= x < b.len() implies lengths[#[trigger] b[x] as int] * b.len() <= opts.max_tokens by {
                        assert(b[x] == order[i + x]);
                        assert(ls[i + x] == lengths[order[i + x] as int]);
                    }
                }
            } else {
                assert(all[k] == rest[k - 1]);
            }
        }
    } else {
        assert(order.subrange(i as int, order.len() as int) =~= Seq::<usize>::empty());
    }
}


// ---------------------------------------------------------------------------------------------
// Usage.
// ---------------------------------------------------------------------------------------------

/// Tokens read for request `r`: the lengths of its items' sequences.
pub open spec fn tokens_for(items: Seq<Item>, r: nat) -> nat
    decreases items.len(),
{
    if items.len() == 0 {
        0
    } else {
        tokens_for(items.drop_last(), r) + if items.last().request == r {
            items.last().seq.ids@.len()
        } else {
            0
        }
    }
}

/// Tokens read for all items together.
pub open spec fn total_tokens(items: Seq<Item>) -> nat
    decreases items.len(),
{
    if items.len() == 0 {
        0
    } else {
        total_tokens(items.drop_last()) + items.last().seq.ids@.len()
    }
}

proof fn lemma_tokens_for_le_total(items: Seq<Item>, r: nat)
    ensures
        tokens_for(items, r) <= total_tokens(items),
    decreases items.len(),
{
    if items.len() > 0 {
        lemma_tokens_for_le_total(items.drop_last(), r);
    }
}

/// The (request, question) that each item of [`prepare_items`] answers, in the same order:
/// every question of every request, request by request, so that each response collects its
/// answers in question order.
pub fn item_slots(requests: &[Request]) -> (r: Vec<(usize, usize)>)
    ensures
        r@.len() == item_keys(requests@).len(),
        forall|k: int|
            0 <= k < r@.len() ==> ((#[trigger] r@[k]).0 as nat, r@[k].1 as nat) == item_keys(
                requests@,
            )[k],
{
    let ghost reqs = requests@;
    let mut slots: Vec<(usize, usize)> = Vec::new();
    let mut ri: usize = 0;
    while ri < requests.len()
        invariant
            ri <= requests.len(),
            reqs == requests@,
            slots@.len() == item_keys(reqs.take(ri as int)).len(),
            forall|k: int|
                0 <= k < slots@.len() ==> ((#[trigger] slots@[k]).0 as nat, slots@[k].1 as nat)
                    == item_keys(reqs.take(ri as int))[k],
        decreases requests.len() - ri,
    {
        let n = question_count(requests[ri].questions);
        let ghost before = item_keys(reqs.take(ri as int));
        let ghost keys = before + row_keys(ri as nat, n as nat);
        let mut qi: usize = 0;
        while qi < n
            invariant
                qi <= n,
                ri < requests.len(),
                slots@.len() == before.len() + qi,
                keys == before + row_keys(ri as nat, n as nat),
                forall|k: int|
                    0 <= k < slots@.len() ==> ((#[trigger] slots@[k]).0 as nat, slots@[k].1 as nat)
                        == keys[k],
            decreases n - qi,
        {
            slots.push((ri, qi));
            qi += 1;
        }
        proof {
            assert(reqs.take(ri + 1).drop_last() =~= reqs.take(ri as int));
            assert(reqs.take(ri + 1).last() == reqs[ri as int]);
            assert(item_keys(reqs.take(ri + 1)) == keys);
        }
        ri += 1;
    }
    assert(reqs.take(requests.len() as int) =~= reqs);
    slots
}

/// The usage of each of `n` requests: the tokens its items' sequences hold; nothing is
/// generated, so no output tokens.
pub fn request_usage(items: &Vec<Item>, n: usize) -> (r: Vec<Usage>)
    requires
        forall|k: int| 0 <= k < items@.len() ==> #[trigger] items@[k].request < n,
        total_tokens(items@) <= usize::MAX,
    ensures
        r@.len() == n,
        forall|q: int|
            0 <= q < n ==> (#[trigger] r@[q]).input_tokens == tokens_for(items@, q as nat)
                && r@[q].output_tokens == 0,
{
    let mut usage: Vec<Usage> = Vec::new();
    let mut q: usize = 0;
    while q < n
        invariant
            q <= n,
            usage@.len() == q,
            forall|j: int|
                0 <= j < q ==> (#[trigger] usage@[j]).input_tokens == 0 && usage@[j].output_tokens
                    == 0,
        decreases n - q,
    {
        usage.push(Usage { input_tokens: 0, output_tokens: 0 });
        q += 1;
    }
    let mut k: usize = 0;
    while k < items.len()
        invariant
            k <= items.len(),
            usage@.len() == n,
            forall|j: int| 0 <= j < items@.len() ==> #[trigger] items@[j].request < n,
            total_tokens(items@) <= usize::MAX,
            forall|j: int|
                0 <= j < n ==> (#[trigger] usage@[j]).input_tokens == tokens_for(
                    items@.take(k as int),
                    j as nat,
                ) && usage@[j].output_tokens == 0,
        decreases items.len() - k,
    {
        let ri = items[k].request;
        proof {
            assert(items@.take(k + 1).drop_last() =~= items@.take(k as int));
            assert(items@.take(k + 1).last() == items@[k as int]);
            lemma_tokens_for_le_total(items@.take(k + 1), ri as nat);
            lemma_total_prefix(items@, k + 1);
        }
        let before = usage[ri].input_tokens;
        let add = items[k].seq.ids.len();
        usage.set(ri, Usage { input_tokens: before + add, output_tokens: 0 });
        k += 1;
    }
    assert(items@.take(items.len() as int) =~= items@);
    usage
}

proof fn lemma_total_prefix(items: Seq<Item>, k: int)
    requires
        0 <= k <= items.len(),
    ensures
        total_tokens(items.take(k)) <= total_tokens(items),
    decreases items.len() - k,
{
    if k < items.len() {
        lemma_total_prefix(items, k + 1);
        assert(items.take(k + 1).drop_last() =~= items.take(k));
    } else {
        assert(items.take(k) =~= items);
    }
}

} // verus!
