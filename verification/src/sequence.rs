//! Builds the token sequence the model reads for one question about one state:
//! `[CLS] <kind> question: <ins> [SEP] [MASK] opt0 [MASK] opt1 … [SEP] <state> [SEP]`.

use vstd::prelude::*;
use crate::error::{Error, Result};
use crate::question::{Kind, Question};
use crate::state::State;
use crate::text::{chars_of, push_str, string_of};
use crate::tokenizer::{Encoded, Tokenizer};

verus! {

/// Per-option token cap (after the marker).
pub const OPTION_CAP: usize = 48;

/// Below this much head budget left for instructions, option texts are shrunk evenly.
pub const MIN_OPT_BUDGET: usize = 16;

/// Floor on the per-option length when shrinking.
pub const MIN_PER_OPTION: usize = 4;

/// Floor on the instruction length.
pub const MIN_HEAD: usize = 8;

/// Token budgets for one request; defaults come from the checkpoint's agent config.
#[derive(Debug, Clone, Copy, PartialEq, Eq, Structural)]
pub struct Budgets {
    /// Context budget: total tokens for one question sequence.
    pub max_len: usize,
    /// Head budget: tokens shared by the instructions and all option texts.
    pub head_max_len: usize,
}

/// A tokenized question ready for the model.
#[derive(Debug, Clone, PartialEq, Eq)]
pub struct Sequence {
    pub ids: Vec<u32>,
    /// Position of each option's marker, in option order.
    pub markers: Vec<usize>,
    pub kind: Kind,
}

impl Sequence {
    pub fn len(&self) -> (r: usize)
        ensures
            r == self.ids@.len(),
    {
        self.ids.len()
    }

    pub fn is_empty(&self) -> (r: bool)
        ensures
            r == (self.ids@.len() == 0),
    {
        self.ids.len() == 0
    }
}

// ---------------------------------------------------------------------------------------------
// The layout, as mathematics.
// ---------------------------------------------------------------------------------------------

/// `a - b`, or 0 when `b` is larger.
pub open spec fn sat_sub(a: int, b: int) -> nat {
    if a > b {
        (a - b) as nat
    } else {
        0
    }
}

/// The first `n` tokens of `s` (all of them when shorter).
pub open spec fn truncated(s: Seq<u32>, n: int) -> Seq<u32> {
    if s.len() <= n {
        s
    } else {
        s.take(n)
    }
}

/// The token lists as plain sequences.
pub open spec fn lists_view(v: Seq<Vec<u32>>) -> Seq<Seq<u32>> {
    v.map_values(|x: Vec<u32>| x@)
}

/// Each option text behind its marker, capped at [`OPTION_CAP`] tokens.
pub open spec fn capped_options(opts: Seq<Seq<u32>>, mask: u32) -> Seq<Seq<u32>> {
    Seq::new(opts.len(), |i: int| seq![mask] + truncated(opts[i], OPTION_CAP as int))
}

/// Number of tokens in all the lists together.
pub open spec fn total_len(os: Seq<Seq<u32>>) -> nat
    decreases os.len(),
{
    if os.len() == 0 {
        0
    } else {
        total_len(os.drop_last()) + os.last().len()
    }
}

/// The even share each of `n` options keeps when the head budget is tight.
pub open spec fn shrink_per(head_max_len: nat, n: nat) -> nat {
    let per = sat_sub(head_max_len as int, MIN_OPT_BUDGET as int) / (if n > 0 {
        n
    } else {
        1
    });
    if per < MIN_PER_OPTION {
        MIN_PER_OPTION as nat
    } else {
        per
    }
}

/// The options as they enter the sequence: capped, then shrunk evenly when fewer than
/// [`MIN_OPT_BUDGET`] head tokens would be left for the instructions.
#[verifier::opaque]
pub open spec fn shaped_options(opts: Seq<Seq<u32>>, mask: u32, head_max_len: nat) -> Seq<
    Seq<u32>,
> {
    let c = capped_options(opts, mask);
    if sat_sub(head_max_len as int, total_len(c) as int) < MIN_OPT_BUDGET {
        let per = shrink_per(head_max_len, c.len());
        Seq::new(c.len(), |i: int| truncated(c[i], per as int))
    } else {
        c
    }
}

/// How many instruction tokens stay: what the options leave of the head budget, at least
/// [`MIN_HEAD`].
pub open spec fn head_keep(opts: Seq<Seq<u32>>, mask: u32, head_max_len: nat) -> nat {
    let left = sat_sub(head_max_len as int, total_len(shaped_options(opts, mask, head_max_len)) as int);
    if left < MIN_HEAD {
        MIN_HEAD as nat
    } else {
        left
    }
}

/// The lists, one after another.
pub open spec fn flat(os: Seq<Seq<u32>>) -> Seq<u32>
    decreases os.len(),
{
    if os.len() == 0 {
        Seq::empty()
    } else {
        flat(os.drop_last()) + os.last()
    }
}

/// Where each list starts when the lists are laid out from `start`.
pub open spec fn marker_positions(os: Seq<Seq<u32>>, start: nat) -> Seq<nat>
    decreases os.len(),
{
    if os.len() == 0 {
        Seq::empty()
    } else {
        marker_positions(os.drop_last(), start).push(start + flat(os.drop_last()).len())
    }
}

/// The instructions as they enter the sequence.
pub open spec fn head_part(head: Seq<u32>, opts: Seq<Seq<u32>>, mask: u32, head_max_len: nat) -> Seq<
    u32,
> {
    truncated(head, head_keep(opts, mask, head_max_len) as int)
}

/// `[CLS] instructions [SEP] [MASK] opt0 [MASK] opt1 … [SEP]`.
pub open spec fn body_spec(
    head: Seq<u32>,
    opts: Seq<Seq<u32>>,
    cls: u32,
    sep: u32,
    mask: u32,
    head_max_len: nat,
) -> Seq<u32> {
    seq![cls] + head_part(head, opts, mask, head_max_len) + seq![sep] + flat(
        shaped_options(opts, mask, head_max_len),
    ) + seq![sep]
}

/// The marker positions in the body.
pub open spec fn markers_spec(head: Seq<u32>, opts: Seq<Seq<u32>>, mask: u32, head_max_len: nat) -> Seq<
    nat,
> {
    marker_positions(
        shaped_options(opts, mask, head_max_len),
        head_part(head, opts, mask, head_max_len).len() + 2,
    )
}

/// The state tokens that fit in `room`: the head of the state, or its tail with `left`.
pub open spec fn state_part(st: Seq<u32>, room: nat, left: bool) -> Seq<u32> {
    if left {
        st.skip(sat_sub(st.len() as int, room as int) as int)
    } else {
        truncated(st, room as int)
    }
}

/// The whole sequence, cut at the context budget.
pub open spec fn ids_spec(
    head: Seq<u32>,
    opts: Seq<Seq<u32>>,
    st: Seq<u32>,
    cls: u32,
    sep: u32,
    mask: u32,
    budgets: Budgets,
    left: bool,
) -> Seq<u32> {
    let body = body_spec(head, opts, cls, sep, mask, budgets.head_max_len as nat);
    let room = sat_sub(budgets.max_len as int, body.len() + 1int);
    truncated(body + state_part(st, room, left) + seq![sep], budgets.max_len as int)
}

/// Whether every marker lies inside the context budget.
pub open spec fn markers_fit(ms: Seq<nat>, max_len: nat) -> bool {
    forall|i: int| 0 <= i < ms.len() ==> ms[i] < max_len
}

// ---------------------------------------------------------------------------------------------
// Laws of the layout.
// ---------------------------------------------------------------------------------------------

proof fn lemma_flat_positions(os: Seq<Seq<u32>>, start: nat)
    ensures
        marker_positions(os, start).len() == os.len(),
        flat(os).len() == total_len(os),
        forall|i: int|
            0 <= i < os.len() ==> #[trigger] marker_positions(os, start)[i] + os[i].len()
                <= start + flat(os).len(),
        forall|i: int, j: int|
            0 <= i < os.len() && 0 <= j < os[i].len() ==> flat(os)[marker_positions(os, start)[i]
                - start + j] == #[trigger] os[i][j],
        forall|i: int, k: int|
            0 <= i < k < os.len() ==> #[trigger] marker_positions(os, start)[i] + os[i].len()
                <= #[trigger] marker_positions(os, start)[k],
        forall|i: int| 0 <= i < os.len() ==> #[trigger] marker_positions(os, start)[i] >= start,
    decreases os.len(),
{
    if os.len() > 0 {
        let init = os.drop_last();
        lemma_flat_positions(init, start);
        let ms = marker_positions(os, start);
        assert forall|i: int| 0 <= i < init.len() implies ms[i] == marker_positions(init, start)[i]
            && os[i] == init[i] by {}
    }
}

/// Every shaped option starts with its marker.
proof fn lemma_shaped_marked(opts: Seq<Seq<u32>>, mask: u32, hml: nat)
    ensures
        shaped_options(opts, mask, hml).len() == opts.len(),
        forall|i: int|
            0 <= i < opts.len() ==> (#[trigger] shaped_options(opts, mask, hml)[i]).len() >= 1
                && shaped_options(opts, mask, hml)[i][0] == mask,
{
    reveal(shaped_options);
    let c = capped_options(opts, mask);
    let os = shaped_options(opts, mask, hml);
    assert forall|i: int| 0 <= i < opts.len() implies (#[trigger] os[i]).len() >= 1 && os[i][0] == mask by {
        assert(c[i][0] == mask);
        if sat_sub(hml as int, total_len(c) as int) < MIN_OPT_BUDGET {
            assert(shrink_per(hml, c.len()) >= 1);
        }
    }
}

/// A shaped option is its marker followed by the leading tokens of the option, at least three of
/// them (or all when fewer).
proof fn lemma_shaped_prefix(opts: Seq<Seq<u32>>, mask: u32, hml: nat)
    ensures
        shaped_options(opts, mask, hml).len() == opts.len(),
        forall|i: int, j: int|
            0 <= i < opts.len() && 0 <= j < 3 && j < opts[i].len() ==> 1 + j < shaped_options(
                opts,
                mask,
                hml,
            )[i].len() && shaped_options(opts, mask, hml)[i][1 + j] == #[trigger] opts[i][j],
        forall|i: int|
            0 <= i < opts.len() ==> (#[trigger] shaped_options(opts, mask, hml)[i]).len() <= 1
                + opts[i].len(),
        forall|i: int, j: int|
            0 <= i < opts.len() && 0 <= j && 1 + j < shaped_options(opts, mask, hml)[i].len() ==> j
                < opts[i].len() && shaped_options(opts, mask, hml)[i][1 + j] == #[trigger] opts[i][j],
{
    reveal(shaped_options);
    let c = capped_options(opts, mask);
    let os = shaped_options(opts, mask, hml);
    assert forall|i: int, j: int|
        0 <= i < opts.len() && 0 <= j < 3 && j < opts[i].len() implies 1 + j < os[i].len()
            && os[i][1 + j] == #[trigger] opts[i][j] by {
        assert(c[i] == seq![mask] + truncated(opts[i], OPTION_CAP as int));
        assert(c[i][1 + j] == opts[i][j]);
        if sat_sub(hml as int, total_len(c) as int) < MIN_OPT_BUDGET {
            assert(shrink_per(hml, c.len()) >= 4);
        }
    }
    assert forall|i: int| 0 <= i < opts.len() implies (#[trigger] os[i]).len() <= 1 + opts[i].len() by {
        assert(c[i] == seq![mask] + truncated(opts[i], OPTION_CAP as int));
        assert(os[i].len() <= c[i].len());
    }
    assert forall|i: int, j: int|
        0 <= i < opts.len() && 0 <= j && 1 + j < os[i].len() implies j < opts[i].len() && os[i][1
            + j] == #[trigger] opts[i][j] by {
        assert(c[i] == seq![mask] + truncated(opts[i], OPTION_CAP as int));
        assert(os[i].len() <= c[i].len());
        assert(os[i][1 + j] == c[i][1 + j]);
    }
}

/// Consecutive lists are laid out back to back.
proof fn lemma_positions_step(os: Seq<Seq<u32>>, start: nat, i: int)
    requires
        0 <= i < os.len() - 1,
    ensures
        marker_positions(os, start)[i + 1] == marker_positions(os, start)[i] + os[i].len(),
    decreases os.len(),
{
    let init = os.drop_last();
    lemma_flat_positions(init, start);
    if i + 1 < init.len() {
        lemma_positions_step(init, start, i);
        assert(marker_positions(os, start)[i + 1] == marker_positions(init, start)[i + 1]);
        assert(marker_positions(os, start)[i] == marker_positions(init, start)[i]);
        assert(os[i] == init[i]);
    } else {
        assert(init.len() == i + 1);
        if i > 0 {
            assert(init.drop_last().len() == i);
        }
        lemma_flat_last(init, start);
        assert(marker_positions(os, start)[i] == marker_positions(init, start)[i]);
        assert(os[i] == init[i]);
    }
}

/// The last list starts where the ones before it end.
proof fn lemma_flat_last(os: Seq<Seq<u32>>, start: nat)
    requires
        os.len() >= 1,
    ensures
        marker_positions(os, start)[os.len() - 1] + os.last().len() == start + flat(os).len(),
{
    let init = os.drop_last();
    lemma_flat_positions(init, start);
}

/// The laws of a well-built sequence: it fits the context budget, starts with `[CLS]`, its
/// markers rise strictly and each points at a `[MASK]` token, one per option.
#[verifier::rlimit(40)]
pub proof fn lemma_sequence_laws(
    head: Seq<u32>,
    opts: Seq<Seq<u32>>,
    st: Seq<u32>,
    cls: u32,
    sep: u32,
    mask: u32,
    budgets: Budgets,
    left: bool,
)
    requires
        markers_fit(markers_spec(head, opts, mask, budgets.head_max_len as nat), budgets.max_len as nat),
    ensures
        ids_spec(head, opts, st, cls, sep, mask, budgets, left).len() <= budgets.max_len,
        budgets.max_len > 0 ==> ids_spec(head, opts, st, cls, sep, mask, budgets, left)[0] == cls,
        markers_spec(head, opts, mask, budgets.head_max_len as nat).len() == opts.len(),
        forall|i: int|
            0 <= i < opts.len() ==> ids_spec(head, opts, st, cls, sep, mask, budgets, left)[
                #[trigger] markers_spec(head, opts, mask, budgets.head_max_len as nat)[i] as int]
                == mask,
        forall|i: int, k: int|
            0 <= i < k < opts.len() ==> #[trigger] markers_spec(
                head,
                opts,
                mask,
                budgets.head_max_len as nat,
            )[i] < #[trigger] markers_spec(head, opts, mask, budgets.head_max_len as nat)[k],
        forall|i: int|
            0 <= i < opts.len() ==> #[trigger] markers_spec(head, opts, mask, budgets.head_max_len as nat)[i]
                < ids_spec(head, opts, st, cls, sep, mask, budgets, left).len(),
{
    let hml = budgets.head_max_len as nat;
    let os = shaped_options(opts, mask, hml);
    let hp = head_part(head, opts, mask, hml);
    let start = hp.len() + 2;
    let ms = markers_spec(head, opts, mask, hml);
    let body = body_spec(head, opts, cls, sep, mask, hml);
    let room = sat_sub(budgets.max_len as int, body.len() + 1int);
    let full = body + state_part(st, room, left) + seq![sep];
    let ids = ids_spec(head, opts, st, cls, sep, mask, budgets, left);
    lemma_shaped_marked(opts, mask, hml);
    lemma_flat_positions(os, start);
    let pre = seq![cls] + hp + seq![sep];
    assert(pre.len() == start);
    assert(body == pre + flat(os) + seq![sep]);
    assert forall|i: int| 0 <= i < opts.len() implies #[trigger] ms[i] < ids.len() by {
        assert(ms[i] + os[i].len() <= start + flat(os).len());
        assert(ms[i] < body.len());
        assert(ms[i] < budgets.max_len);
    }
    assert forall|i: int| 0 <= i < opts.len() implies ids[#[trigger] ms[i] as int] == mask by {
        assert(flat(os)[ms[i] - start + 0] == os[i][0]);
        assert(body[ms[i] as int] == flat(os)[ms[i] - start]);
        assert(full[ms[i] as int] == body[ms[i] as int]);
    }
    assert forall|i: int, k: int| 0 <= i < k < opts.len() implies #[trigger] ms[i] < #[trigger] ms[k] by {
        assert(ms[i] + os[i].len() <= ms[k]);
    }
    if budgets.max_len > 0 {
        assert(full[0] == cls);
    }
}

// ---------------------------------------------------------------------------------------------
// Building.
// ---------------------------------------------------------------------------------------------

/// Appends `src[from..to]` to `out`.
fn push_ids(out: &mut Vec<u32>, src: &Vec<u32>, from: usize, to: usize)
    requires
        from <= to <= src.len(),
    ensures
        final(out)@ == old(out)@ + src@.subrange(from as int, to as int),
{
    let ghost start = out@;
    let mut i: usize = from;
    while i < to
        invariant
            from <= i <= to <= src.len(),
            out@ == start + src@.subrange(from as int, i as int),
        decreases to - i,
    {
        out.push(src[i]);
        i += 1;
        assert(out@ =~= start + src@.subrange(from as int, i as int));
    }
}

/// The first `n` tokens of `src`.
fn prefix(src: &Vec<u32>, n: usize) -> (r: Vec<u32>)
    ensures
        r@ == truncated(src@, n as int),
{
    let k = if src.len() <= n { src.len() } else { n };
    let mut out: Vec<u32> = Vec::new();
    push_ids(&mut out, src, 0, k);
    assert(src@.subrange(0, src.len() as int) =~= src@);
    out
}

/// Number of tokens in all the lists, saturating at `usize::MAX`.
fn total_tokens(os: &Vec<Vec<u32>>) -> (r: usize)
    ensures
        r == if total_len(lists_view(os@)) > usize::MAX {
            usize::MAX as nat
        } else {
            total_len(lists_view(os@))
        },
{
    let mut sum: usize = 0;
    let mut i: usize = 0;
    while i < os.len()
        invariant
            i <= os.len(),
            sum == if total_len(lists_view(os@).take(i as int)) > usize::MAX {
                usize::MAX as nat
            } else {
                total_len(lists_view(os@).take(i as int))
            },
        decreases os.len() - i,
    {
        assert(lists_view(os@).take(i + 1).drop_last() =~= lists_view(os@).take(i as int));
        sum = sum.saturating_add(os[i].len());
        i += 1;
    }
    assert(lists_view(os@).take(os.len() as int) =~= lists_view(os@));
    sum
}

/// Each option behind its marker, capped at [`OPTION_CAP`] tokens.
fn capped_of(opts: &Vec<Vec<u32>>, mask: u32) -> (r: Vec<Vec<u32>>)
    ensures
        lists_view(r@) == capped_options(lists_view(opts@), mask),
{
    let ghost ov = lists_view(opts@);
    let mut capped: Vec<Vec<u32>> = Vec::new();
    let mut i: usize = 0;
    while i < opts.len()
        invariant
            i <= opts.len(),
            ov == lists_view(opts@),
            capped.len() == i,
            forall|j: int| 0 <= j < i ==> (#[trigger] capped@[j])@ == capped_options(ov, mask)[j],
        decreases opts.len() - i,
    {
        let mut o: Vec<u32> = vec![mask];
        let part = prefix(&opts[i], OPTION_CAP);
        push_ids(&mut o, &part, 0, part.len());
        assert(part@.subrange(0, part.len() as int) =~= part@);
        assert(o@ =~= seq![mask] + truncated(ov[i as int], OPTION_CAP as int));
        capped.push(o);
        i += 1;
    }
    assert(lists_view(capped@) =~= capped_options(ov, mask));
    capped
}

/// The shaped options and the head budget they leave.
fn shape(opts: &Vec<Vec<u32>>, mask: u32, head_max_len: usize) -> (r: (Vec<Vec<u32>>, usize))
    ensures
        lists_view(r.0@) == shaped_options(lists_view(opts@), mask, head_max_len as nat),
        r.1 == sat_sub(
            head_max_len as int,
            total_len(shaped_options(lists_view(opts@), mask, head_max_len as nat)) as int,
        ),
{
    let ghost ov = lists_view(opts@);
    let ghost hml = head_max_len as nat;
    proof {
        reveal(shaped_options);
    }
    let capped = capped_of(opts, mask);
    let opt_budget = head_max_len.saturating_sub(total_tokens(&capped));
    if opt_budget < MIN_OPT_BUDGET {
        let n = if capped.len() > 0 { capped.len() } else { 1 };
        let share = head_max_len.saturating_sub(MIN_OPT_BUDGET) / n;
        let per = if share < MIN_PER_OPTION { MIN_PER_OPTION } else { share };
        assert(per == shrink_per(hml, capped@.len() as nat));
        let mut shaped: Vec<Vec<u32>> = Vec::new();
        let mut j: usize = 0;
        while j < capped.len()
            invariant
                j <= capped.len(),
                shaped.len() == j,
                lists_view(capped@) == capped_options(ov, mask),
                forall|k: int| 0 <= k < j ==> (#[trigger] shaped@[k])@ == truncated(
                    capped@[k]@,
                    per as int,
                ),
            decreases capped.len() - j,
        {
            shaped.push(prefix(&capped[j], per));
            j += 1;
        }
        assert(lists_view(shaped@) =~= shaped_options(ov, mask, hml));
        let left = head_max_len.saturating_sub(total_tokens(&shaped));
        (shaped, left)
    } else {
        assert(lists_view(capped@) =~= shaped_options(ov, mask, hml));
        (capped, opt_budget)
    }
}

/// `pre` followed by the options, and where each option starts.
fn lay_out(pre: Vec<u32>, os: &Vec<Vec<u32>>) -> (r: (Vec<u32>, Vec<usize>))
    ensures
        r.0@ == pre@ + flat(lists_view(os@)),
        r.1@.map_values(|m: usize| m as nat) == marker_positions(lists_view(os@), pre@.len()),
{
    let ghost ov = lists_view(os@);
    let ghost start = pre@.len();
    let mut ids = pre;
    let ghost p = ids@;
    let mut markers: Vec<usize> = Vec::new();
    let mut k: usize = 0;
    while k < os.len()
        invariant
            k <= os.len(),
            ov == lists_view(os@),
            p.len() == start,
            ids@ == p + flat(ov.take(k as int)),
            markers@.map_values(|m: usize| m as nat) == marker_positions(ov.take(k as int), start),
        decreases os.len() - k,
    {
        assert(ov.take(k + 1).drop_last() =~= ov.take(k as int));
        assert(ov.take(k + 1).last() == os@[k as int]@);
        markers.push(ids.len());
        push_ids(&mut ids, &os[k], 0, os[k].len());
        assert(os@[k as int]@.subrange(0, os@[k as int]@.len() as int) =~= os@[k as int]@);
        k += 1;
        assert(ids@ =~= p + flat(ov.take(k as int)));
        assert(markers@.map_values(|m: usize| m as nat) =~= marker_positions(ov.take(k as int), start));
    }
    assert(ov.take(os.len() as int) =~= ov);
    (ids, markers)
}

/// Appends the state tokens that fit in `room`, then `[SEP]`.
fn push_state(ids: &mut Vec<u32>, st: &Vec<u32>, room: usize, left: bool, sep: u32)
    ensures
        final(ids)@ == old(ids)@ + state_part(st@, room as nat, left) + seq![sep],
{
    if left {
        let from = st.len().saturating_sub(room);
        push_ids(ids, st, from, st.len());
        assert(st@.subrange(from as int, st.len() as int) =~= state_part(st@, room as nat, true));
    } else {
        let to = if st.len() <= room { st.len() } else { room };
        push_ids(ids, st, 0, to);
        assert(st@.subrange(0, to as int) =~= state_part(st@, room as nat, false));
    }
    ids.push(sep);
}

/// Whether every marker lies before `max_len`.
fn all_below(markers: &Vec<usize>, max_len: usize) -> (r: bool)
    ensures
        r == markers_fit(markers@.map_values(|m: usize| m as nat), max_len as nat),
{
    let ghost ms = markers@.map_values(|m: usize| m as nat);
    let mut m: usize = 0;
    while m < markers.len()
        invariant
            m <= markers.len(),
            ms == markers@.map_values(|m: usize| m as nat),
            forall|j: int| 0 <= j < m ==> ms[j] < max_len,
        decreases markers.len() - m,
    {
        assert(ms[m as int] == markers@[m as int] as nat);
        if markers[m] >= max_len {
            return false;
        }
        m += 1;
    }
    true
}

/// Lays out tokenized parts under `budgets`: `head` is the tokenized
/// `"<kind> question: <instructions>"`, `opts` the tokenized `" <option>"` texts in option
/// order, `st` the tokenized state. Fails with [`Error::OptionsExceedHeadBudget`] exactly when
/// some option's marker falls outside the context budget.
pub fn assemble_sequence(
    head: &Vec<u32>,
    opts: &Vec<Vec<u32>>,
    st: &Vec<u32>,
    cls: u32,
    sep: u32,
    mask: u32,
    kind: Kind,
    budgets: Budgets,
    truncate_left: bool,
    question_id: &str,
) -> (r: Result<Sequence>)
    ensures
        markers_fit(
            markers_spec(head@, lists_view(opts@), mask, budgets.head_max_len as nat),
            budgets.max_len as nat,
        ) ==> (r matches Ok(seq) && seq.ids@ == ids_spec(
            head@,
            lists_view(opts@),
            st@,
            cls,
            sep,
            mask,
            budgets,
            truncate_left,
        ) && seq.markers@.map_values(|m: usize| m as nat) == markers_spec(
            head@,
            lists_view(opts@),
            mask,
            budgets.head_max_len as nat,
        ) && seq.kind == kind),
        !markers_fit(
            markers_spec(head@, lists_view(opts@), mask, budgets.head_max_len as nat),
            budgets.max_len as nat,
        ) ==> (r matches Err(Error::OptionsExceedHeadBudget { question_id: q, head_max_len: h })
            && q@ == question_id@ && h == budgets.head_max_len),
{
    let ghost ov = lists_view(opts@);
    let ghost hml = budgets.head_max_len as nat;
    let (shaped, opt_budget) = shape(opts, mask, budgets.head_max_len);
    let keep = if opt_budget < MIN_HEAD { MIN_HEAD } else { opt_budget };
    assert(keep == head_keep(ov, mask, hml));
    let hp = prefix(head, keep);
    let mut pre: Vec<u32> = vec![cls];
    push_ids(&mut pre, &hp, 0, hp.len());
    pre.push(sep);
    assert(hp@.subrange(0, hp.len() as int) =~= hp@);
    assert(pre@ =~= seq![cls] + head_part(head@, ov, mask, hml) + seq![sep]);
    let (mut ids, markers) = lay_out(pre, &shaped);
    ids.push(sep);
    assert(ids@ =~= body_spec(head@, ov, cls, sep, mask, hml));
    let room = budgets.max_len.saturating_sub(ids.len().saturating_add(1));
    push_state(&mut ids, st, room, truncate_left, sep);
    ids.truncate(budgets.max_len);
    assert(ids@ =~= ids_spec(head@, ov, st@, cls, sep, mask, budgets, truncate_left));
    if !all_below(&markers, budgets.max_len) {
        return Err(Error::OptionsExceedHeadBudget {
            question_id: question_id.to_owned(),
            head_max_len: budgets.head_max_len,
        });
    }
    Ok(Sequence { ids, markers, kind })
}


// ---------------------------------------------------------------------------------------------
// From a question to tokens.
// ---------------------------------------------------------------------------------------------

/// The head text: `"<kind> question: <instructions>"`.
pub open spec fn head_text_spec(q: Question) -> Seq<char> {
    q.kind_spec().name_spec() + " question: "@ + q.instructions_spec().render_spec()
}

/// The option texts as they are tokenized: each behind a space.
pub open spec fn option_texts_spec(q: Question) -> Seq<Seq<char>> {
    q.options_spec().map_values(|o: Seq<char>| seq![' '] + o)
}

/// The texts a question is tokenized from: its head text and its option texts in order.
pub fn sequence_texts(question: &Question) -> (r: (String, Vec<String>))
    ensures
        r.0@ == head_text_spec(*question),
        r.1@.map_values(|t: String| t@) == option_texts_spec(*question),
{
    let mut head = chars_of(question.kind().name());
    push_str(&mut head, " question: ");
    let ins = question.instructions().render();
    push_str(&mut head, ins.as_str());
    let opts = question.render_options();
    let ghost want = option_texts_spec(*question);
    let mut texts: Vec<String> = Vec::new();
    let mut i: usize = 0;
    while i < opts.len()
        invariant
            i <= opts.len(),
            opts@.map_values(|t: String| t@) == question.options_spec(),
            want == option_texts_spec(*question),
            texts@.map_values(|t: String| t@) == want.take(i as int),
        decreases opts.len() - i,
    {
        let mut t: Vec<char> = vec![' '];
        push_str(&mut t, opts[i].as_str());
        assert(opts@.map_values(|t: String| t@)[i as int] == opts@[i as int]@);
        assert(t@ == want[i as int]);
        let ghost prev = texts@.map_values(|t: String| t@);
        let ts = string_of(&t);
        texts.push(ts);
        assert(texts@.map_values(|t: String| t@) =~= prev.push(t@));
        assert(want.take(i + 1) =~= want.take(i as int).push(want[i as int]));
        i += 1;
        assert(texts@.map_values(|t: String| t@) =~= want.take(i as int));
    }
    assert(want.take(opts.len() as int) =~= want);
    (string_of(&head), texts)
}

/// What an assembled sequence promises its users.
proof fn lemma_assembled(
    head: Seq<u32>,
    opts: Seq<Seq<u32>>,
    st: Seq<u32>,
    cls: u32,
    sep: u32,
    mask: u32,
    budgets: Budgets,
    left: bool,
    seq: Sequence,
)
    requires
        markers_fit(markers_spec(head, opts, mask, budgets.head_max_len as nat), budgets.max_len as nat),
        seq.ids@ == ids_spec(head, opts, st, cls, sep, mask, budgets, left),
        seq.markers@.map_values(|m: usize| m as nat) == markers_spec(head, opts, mask, budgets.head_max_len as nat),
    ensures
        seq.ids@.len() <= budgets.max_len,
        seq.markers@.len() == opts.len(),
        forall|i: int| 0 <= i < seq.markers@.len() ==> seq.ids@[#[trigger] seq.markers@[i] as int] == mask,
        forall|i: int| 0 <= i < seq.markers@.len() ==> #[trigger] seq.markers@[i] < seq.ids@.len(),
        forall|i: int, k: int|
            0 <= i < k < seq.markers@.len() ==> #[trigger] seq.markers@[i] < #[trigger] seq.markers@[k],
        budgets.max_len > 0 ==> seq.ids@[0] == cls,
{
    lemma_sequence_laws(head, opts, st, cls, sep, mask, budgets, left);
    let ms = markers_spec(head, opts, mask, budgets.head_max_len as nat);
    assert forall|i: int| 0 <= i < seq.markers@.len() implies #[trigger] seq.markers@[i] < seq.ids@.len() by {
        assert(seq.markers@.map_values(|m: usize| m as nat)[i] == seq.markers@[i] as nat);
        assert(ms[i] == seq.markers@[i] as nat);
    }
    assert forall|i: int, k: int| 0 <= i < k < seq.markers@.len() implies #[trigger] seq.markers@[i] < #[trigger] seq.markers@[k] by {
        assert(seq.markers@.map_values(|m: usize| m as nat)[i] == seq.markers@[i] as nat);
        assert(seq.markers@.map_values(|m: usize| m as nat)[k] == seq.markers@[k] as nat);
        assert(ms[i] < ms[k]);
    }
    assert forall|i: int| 0 <= i < seq.markers@.len() implies seq.ids@[#[trigger] seq.markers@[i] as int] == mask by {
        assert(seq.markers@.map_values(|m: usize| m as nat)[i] == seq.markers@[i] as nat);
        assert(ms[i] == seq.markers@[i] as nat);
    }
}

/// The ids of encodings, one list per encoding.
pub open spec fn encoded_lists(opts: Seq<Encoded>) -> Seq<Seq<u32>> {
    opts.map_values(|e: Encoded| e.ids_spec())
}

/// Whether `seq` is the layout of `head`, `opts` and `st`, where `tok` encoded `head` from the
/// question's head text, `opts[i]` from its `i`-th option text (in option order) and `st` from
/// the state's rendered text; the markers fit the context budget.
pub open spec fn layout_of(
    seq: Sequence,
    tok: Tokenizer,
    state: State,
    question: Question,
    budgets: Budgets,
    truncate_left: bool,
    head: Encoded,
    opts: Seq<Encoded>,
    st: Encoded,
) -> bool {
    let texts = option_texts_spec(question);
    let ms = markers_spec(head.ids_spec(), encoded_lists(opts), tok.mask_id, budgets.head_max_len as nat);
    &&& head.encodes(tok, head_text_spec(question))
    &&& opts.len() == texts.len()
    &&& forall|i: int| 0 <= i < opts.len() ==> #[trigger] opts[i].encodes(tok, texts[i])
    &&& st.encodes(tok, state.render_spec())
    &&& seq.ids@ == ids_spec(
        head.ids_spec(),
        encoded_lists(opts),
        st.ids_spec(),
        tok.cls_id,
        tok.sep_id,
        tok.mask_id,
        budgets,
        truncate_left,
    )
    &&& seq.markers@.map_values(|m: usize| m as nat) == ms
    &&& markers_fit(ms, budgets.max_len as nat)
    &&& seq.kind == question.kind_spec()
}

/// Whether `seq` is built for `question` about `state` by `tok`: the layout of some encodings of
/// the question's texts and the state's text.
pub open spec fn built_from(
    seq: Sequence,
    tok: Tokenizer,
    state: State,
    question: Question,
    budgets: Budgets,
    truncate_left: bool,
) -> bool {
    exists|h: Encoded, o: Seq<Encoded>, s: Encoded|
        #[trigger] layout_of(seq, tok, state, question, budgets, truncate_left, h, o, s)
}

/// Each marker of a built sequence is followed by its own option: right after marker `i` come
/// the first tokens (at least three, or all when fewer) that encoding the `i`-th option text
/// `' ' + options[i]` gave, wherever the context budget reaches; everything between marker `i`
/// and marker `i + 1` is a prefix of that encoding.
pub proof fn lemma_marker_reads_its_option(
    seq: Sequence,
    tok: Tokenizer,
    state: State,
    question: Question,
    budgets: Budgets,
    truncate_left: bool,
    head: Encoded,
    opts: Seq<Encoded>,
    st: Encoded,
)
    requires
        layout_of(seq, tok, state, question, budgets, truncate_left, head, opts, st),
    ensures
        seq.markers@.len() == opts.len(),
        forall|i: int| 0 <= i < opts.len() ==> #[trigger] opts[i].encodes(tok, option_texts_spec(question)[i]),
        forall|i: int, j: int|
            0 <= i < opts.len() && 0 <= j < 3 && j < opts[i].ids_spec().len() && seq.markers@[i]
                + 1 + j < seq.ids@.len() ==> seq.ids@[seq.markers@[i] + 1 + j]
                == #[trigger] opts[i].ids_spec()[j],
        forall|i: int|
            0 <= i < opts.len() - 1 ==> seq.ids@.subrange(
                seq.markers@[i] + 1,
                seq.markers@[i + 1] as int,
            ).is_prefix_of(#[trigger] opts[i].ids_spec()),
{
    let hml = budgets.head_max_len as nat;
    let o = encoded_lists(opts);
    let h = head.ids_spec();
    let mask = tok.mask_id;
    let os = shaped_options(o, mask, hml);
    let hp = head_part(h, o, mask, hml);
    let start = hp.len() + 2;
    let ms = markers_spec(h, o, mask, hml);
    let body = body_spec(h, o, tok.cls_id, tok.sep_id, mask, hml);
    let room = sat_sub(budgets.max_len as int, body.len() + 1int);
    let full = body + state_part(st.ids_spec(), room, truncate_left) + seq![tok.sep_id];
    lemma_shaped_prefix(o, mask, hml);
    lemma_flat_positions(os, start);
    let pre = seq![tok.cls_id] + hp + seq![tok.sep_id];
    assert(pre.len() == start);
    assert(body == pre + flat(os) + seq![tok.sep_id]);
    assert(seq.markers@.map_values(|m: usize| m as nat).len() == seq.markers@.len());
    assert forall|i: int, j: int|
        0 <= i < opts.len() && 0 <= j < 3 && j < opts[i].ids_spec().len() && seq.markers@[i] + 1
            + j < seq.ids@.len() implies seq.ids@[seq.markers@[i] + 1 + j]
        == #[trigger] opts[i].ids_spec()[j] by {
        assert(seq.markers@.map_values(|m: usize| m as nat)[i] == seq.markers@[i] as nat);
        assert(ms[i] == seq.markers@[i]);
        assert(o[i] == opts[i].ids_spec());
        assert(os[i][1 + j] == o[i][j]);
        assert(flat(os)[ms[i] - start + (1 + j)] == os[i][1 + j]);
        assert(ms[i] + os[i].len() <= start + flat(os).len());
        assert(body[ms[i] + 1 + j] == flat(os)[ms[i] - start + (1 + j)]);
        assert(full[ms[i] + 1 + j] == body[ms[i] + 1 + j]);
    }
    assert forall|i: int| 0 <= i < opts.len() - 1 implies seq.ids@.subrange(
        seq.markers@[i] + 1,
        seq.markers@[i + 1] as int,
    ).is_prefix_of(#[trigger] opts[i].ids_spec()) by {
        lemma_option_prefix_at(seq, tok, state, question, budgets, truncate_left, head, opts, st, i);
    }
}

#[verifier::rlimit(100)]
proof fn lemma_option_prefix_at(
    seq: Sequence,
    tok: Tokenizer,
    state: State,
    question: Question,
    budgets: Budgets,
    truncate_left: bool,
    head: Encoded,
    opts: Seq<Encoded>,
    st: Encoded,
    i: int,
)
    requires
        layout_of(seq, tok, state, question, budgets, truncate_left, head, opts, st),
        0 <= i < opts.len() - 1,
    ensures
        seq.markers@[i] + 1 <= seq.markers@[i + 1] <= seq.ids@.len(),
        seq.ids@.subrange(seq.markers@[i] + 1, seq.markers@[i + 1] as int).is_prefix_of(
            opts[i].ids_spec(),
        ),
{
    let hml = budgets.head_max_len as nat;
    let o = encoded_lists(opts);
    let h = head.ids_spec();
    let mask = tok.mask_id;
    let os = shaped_options(o, mask, hml);
    let hp = head_part(h, o, mask, hml);
    let start = hp.len() + 2;
    let ms = markers_spec(h, o, mask, hml);
    let body = body_spec(h, o, tok.cls_id, tok.sep_id, mask, hml);
    let room = sat_sub(budgets.max_len as int, body.len() + 1int);
    let full = body + state_part(st.ids_spec(), room, truncate_left) + seq![tok.sep_id];
    lemma_shaped_prefix(o, mask, hml);
    lemma_shaped_marked(o, mask, hml);
    lemma_flat_positions(os, start);
    lemma_positions_step(os, start, i);
    let pre = seq![tok.cls_id] + hp + seq![tok.sep_id];
    assert(pre.len() == start);
    assert(body == pre + flat(os) + seq![tok.sep_id]);
    let mv = seq.markers@.map_values(|m: usize| m as nat);
    assert(mv[i] == seq.markers@[i] as nat);
    assert(mv[i + 1] == seq.markers@[i + 1] as nat);
    assert(ms[i] == seq.markers@[i]);
    assert(ms[i + 1] == seq.markers@[i + 1]);
    assert(o[i] == opts[i].ids_spec());
    assert(ms[i + 1] < budgets.max_len);
    assert(ms[i + 1] + os[i + 1].len() <= start + flat(os).len());
    assert(ms[i + 1] < body.len());
    assert(seq.ids@ == truncated(full, budgets.max_len as int));
    assert(ms[i + 1] < seq.ids@.len());
    let part = seq.ids@.subrange(seq.markers@[i] + 1, seq.markers@[i + 1] as int);
    assert(part.len() + 1 == os[i].len());
    assert forall|j: int| 0 <= j < part.len() implies j < o[i].len() && #[trigger] part[j] == o[i][j] by {
        assert(1 + j < os[i].len());
        assert(os[i][1 + j] == o[i][j]);
        assert(flat(os)[ms[i] - start + (1 + j)] == os[i][1 + j]);
        assert(body[ms[i] + 1 + j] == flat(os)[ms[i] - start + (1 + j)]);
        assert(full[ms[i] + 1 + j] == body[ms[i] + 1 + j]);
    }
    assert(os[i].len() <= 1 + o[i].len());
    assert(part =~= o[i].subrange(0, part.len() as int));
}

/// A built sequence that the context budget did not cut ends with the whole encoding of the
/// state it was built about, then `[SEP]`.
pub proof fn lemma_sequence_ends_with_state(
    seq: Sequence,
    tok: Tokenizer,
    state: State,
    question: Question,
    budgets: Budgets,
    truncate_left: bool,
    head: Encoded,
    opts: Seq<Encoded>,
    st: Encoded,
)
    requires
        layout_of(seq, tok, state, question, budgets, truncate_left, head, opts, st),
        seq.ids@.len() < budgets.max_len,
    ensures
        st.encodes(tok, state.render_spec()),
        seq.ids@.len() >= st.ids_spec().len() + 1,
        seq.ids@.subrange(seq.ids@.len() - st.ids_spec().len() - 1, seq.ids@.len() as int)
            == st.ids_spec().push(tok.sep_id),
{
    let hml = budgets.head_max_len as nat;
    let o = encoded_lists(opts);
    let body = body_spec(head.ids_spec(), o, tok.cls_id, tok.sep_id, tok.mask_id, hml);
    let room = sat_sub(budgets.max_len as int, body.len() + 1int);
    let sp = state_part(st.ids_spec(), room, truncate_left);
    let full = body + sp + seq![tok.sep_id];
    assert(seq.ids@ == truncated(full, budgets.max_len as int));
    assert(full.len() < budgets.max_len);
    assert(seq.ids@ == full);
    assert(sp == st.ids_spec());
    assert(full.subrange(full.len() - st.ids_spec().len() - 1, full.len() as int)
        =~= st.ids_spec().push(tok.sep_id));
}

/// Tokenizes `question` about `state` under `budgets`.
///
/// `truncate_left` keeps the tail of the state instead of the head (used for conversations).
/// Fails with [`Error::OptionsExceedHeadBudget`] when not every option's marker survives, or
/// with the tokenizer's error. Whatever the tokenizer returns, a sequence that comes back is
/// [`assemble_sequence`]'s layout of some tokens, one list per option, and obeys its laws.
pub fn build_sequence(
    tok: &Tokenizer,
    state: &State,
    question_id: &str,
    question: &Question,
    budgets: Budgets,
    truncate_left: bool,
) -> (r: Result<Sequence>)
    ensures
        r matches Ok(seq) ==> exists|h: Seq<u32>, o: Seq<Seq<u32>>, s: Seq<u32>|
            o.len() == question.options_spec().len() && #[trigger] ids_spec(
                h,
                o,
                s,
                tok.cls_id,
                tok.sep_id,
                tok.mask_id,
                budgets,
                truncate_left,
            ) == seq.ids@ && markers_spec(h, o, tok.mask_id, budgets.head_max_len as nat)
                == seq.markers@.map_values(|m: usize| m as nat) && markers_fit(
                markers_spec(h, o, tok.mask_id, budgets.head_max_len as nat),
                budgets.max_len as nat,
            ),
        r matches Ok(seq) ==> seq.kind == question.kind_spec() && seq.ids@.len()
            <= budgets.max_len && seq.markers@.len() == question.options_spec().len() && (forall|
            i: int,
        |
            0 <= i < seq.markers@.len() ==> seq.ids@[#[trigger] seq.markers@[i] as int]
                == tok.mask_id) && (budgets.max_len > 0 ==> seq.ids@[0] == tok.cls_id),
        r matches Ok(seq) ==> (forall|i: int|
            0 <= i < seq.markers@.len() ==> #[trigger] seq.markers@[i] < seq.ids@.len()) && (forall|
            i: int,
            k: int,
        | 0 <= i < k < seq.markers@.len() ==> #[trigger] seq.markers@[i] < #[trigger] seq.markers@[k]),
        r matches Err(e) ==> e is Tokenizer || (e matches Error::OptionsExceedHeadBudget {
            question_id: q,
            head_max_len: h,
        } && q@ == question_id@ && h == budgets.head_max_len),
        r matches Ok(seq) ==> built_from(seq, *tok, *state, *question, budgets, truncate_left),
{
    let (head_text, option_texts) = sequence_texts(question);
    let head_e = match tok.encode_text(head_text.as_str()) {
        Ok(e) => e,
        Err(e) => return Err(e),
    };
    let ghost gh = head_e;
    let head = head_e.into_ids();
    let ghost texts = option_texts_spec(*question);
    let ghost mut encs: Seq<Encoded> = Seq::empty();
    let mut opts: Vec<Vec<u32>> = Vec::new();
    let mut i: usize = 0;
    while i < option_texts.len()
        invariant
            i <= option_texts.len(),
            option_texts@.map_values(|t: String| t@) == texts,
            opts.len() == i,
            encs.len() == i,
            forall|k: int| 0 <= k < i ==> #[trigger] encs[k].encodes(*tok, texts[k]),
            forall|k: int| 0 <= k < i ==> #[trigger] opts@[k]@ == encs[k].ids_spec(),
        decreases option_texts.len() - i,
    {
        match tok.encode_text(option_texts[i].as_str()) {
            Ok(e) => {
                proof {
                    assert(option_texts@.map_values(|t: String| t@)[i as int] == option_texts@[i as int]@);
                    encs = encs.push(e);
                }
                opts.push(e.into_ids());
            },
            Err(e) => return Err(e),
        }
        i += 1;
    }
    let rendered = state.render();
    let st_e = match tok.encode_text(rendered.as_str()) {
        Ok(e) => e,
        Err(e) => return Err(e),
    };
    let ghost gs = st_e;
    let st = st_e.into_ids();
    let r = assemble_sequence(
        &head,
        &opts,
        &st,
        tok.cls_id,
        tok.sep_id,
        tok.mask_id,
        question.kind(),
        budgets,
        truncate_left,
        question_id,
    );
    proof {
        assert(option_texts@.map_values(|t: String| t@).len() == option_texts@.len());
        assert(lists_view(opts@).len() == question.options_spec().len());
        if r is Ok {
            lemma_assembled(head@, lists_view(opts@), st@, tok.cls_id, tok.sep_id, tok.mask_id, budgets, truncate_left, r->Ok_0);
            assert(lists_view(opts@) =~= encoded_lists(encs));
            assert(layout_of(r->Ok_0, *tok, *state, *question, budgets, truncate_left, gh, encs, gs));
        }
    }
    r
}

} // verus!
