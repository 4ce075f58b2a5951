//! The integer layouts the model reads: a pass of sequences padded to rectangles, and the
//! sliding-window attention pattern.

use vstd::prelude::*;
use crate::agent::Item;
use crate::sequence::Sequence;

verus! {

broadcast use Seq::lemma_flatten_push;

/// `s` cut or filled with `fill` to exactly `n` entries.
pub open spec fn pad_to<T>(s: Seq<T>, n: nat, fill: T) -> Seq<T> {
    Seq::new(n, |j: int| if j < s.len() { s[j] } else { fill })
}

/// `n` ones.
pub open spec fn ones_u32(n: nat) -> Seq<u32> {
    Seq::new(n, |j: int| 1u32)
}

pub open spec fn ones_u8(n: nat) -> Seq<u8> {
    Seq::new(n, |j: int| 1u8)
}

/// The sequences of a pass, in pass order.
pub open spec fn pass_seqs(items: Seq<Item>, pass: Seq<usize>) -> Seq<Sequence> {
    Seq::new(pass.len(), |i: int| items[pass[i] as int].seq)
}

/// The longest sequence of `seqs` (0 when there is none).
pub open spec fn widest(seqs: Seq<Sequence>) -> nat
    decreases seqs.len(),
{
    if seqs.len() == 0 {
        0
    } else {
        let w = widest(seqs.drop_last());
        if seqs.last().ids@.len() > w {
            seqs.last().ids@.len()
        } else {
            w
        }
    }
}

/// The most markers of any sequence of `seqs` (0 when there is none).
pub open spec fn most_markers(seqs: Seq<Sequence>) -> nat
    decreases seqs.len(),
{
    if seqs.len() == 0 {
        0
    } else {
        let m = most_markers(seqs.drop_last());
        if seqs.last().markers@.len() > m {
            seqs.last().markers@.len()
        } else {
            m
        }
    }
}

/// The marker positions of a sequence as the model takes them (`u32`).
pub open spec fn marker_positions_u32(s: Sequence) -> Seq<u32> {
    s.markers@.map_values(|m: usize| m as u32)
}

/// A pass of sequences padded to rectangles, row-major: token ids and attention flags over
/// `width` columns, marker positions and marker flags over `options` columns, one kind per row.
#[derive(Debug, Clone)]
pub struct PaddedBatch {
    pub rows: usize,
    pub width: usize,
    pub options: usize,
    pub ids: Vec<u32>,
    pub attention: Vec<u32>,
    pub marker_pos: Vec<u32>,
    pub marker_mask: Vec<u8>,
    pub kinds: Vec<u32>,
}

/// Whether `b` is the padding of `seqs` with `pad`: every row padded with `pad` (ids), 0
/// (attention, marker positions, marker flags) to the widest row and the most markers.
pub open spec fn padded_from(b: PaddedBatch, seqs: Seq<Sequence>, pad: u32) -> bool {
    let n = seqs.len();
    &&& b.rows == n
    &&& b.width == widest(seqs)
    &&& b.options == most_markers(seqs)
    &&& b.ids@ == Seq::new(n, |i: int| pad_to(seqs[i].ids@, b.width as nat, pad)).flatten()
    &&& b.attention@ == Seq::new(
        n,
        |i: int| pad_to(ones_u32(seqs[i].ids@.len()), b.width as nat, 0u32),
    ).flatten()
    &&& b.marker_pos@ == Seq::new(
        n,
        |i: int| pad_to(marker_positions_u32(seqs[i]), b.options as nat, 0u32),
    ).flatten()
    &&& b.marker_mask@ == Seq::new(
        n,
        |i: int| pad_to(ones_u8(seqs[i].markers@.len()), b.options as nat, 0u8),
    ).flatten()
    &&& b.kinds@ == Seq::new(n, |i: int| seqs[i].kind.index_spec() as u32)
}

fn pad_row(src: &Vec<u32>, width: usize, fill: u32, out: &mut Vec<u32>)
    ensures
        final(out)@ == old(out)@ + pad_to(src@, width as nat, fill),
{
    let ghost start = out@;
    let mut j: usize = 0;
    while j < width
        invariant
            j <= width,
            out@ == start + pad_to(src@, width as nat, fill).take(j as int),
        decreases width - j,
    {
        if j < src.len() {
            out.push(src[j]);
        } else {
            out.push(fill);
        }
        j += 1;
        assert(out@ =~= start + pad_to(src@, width as nat, fill).take(j as int));
    }
    assert(pad_to(src@, width as nat, fill).take(width as int) =~= pad_to(src@, width as nat, fill));
}

fn flag_row_u32(n: usize, width: usize, out: &mut Vec<u32>)
    ensures
        final(out)@ == old(out)@ + pad_to(ones_u32(n as nat), width as nat, 0u32),
{
    let ghost start = out@;
    let ghost row = pad_to(ones_u32(n as nat), width as nat, 0u32);
    let mut j: usize = 0;
    while j < width
        invariant
            j <= width,
            row == pad_to(ones_u32(n as nat), width as nat, 0u32),
            out@ == start + row.take(j as int),
        decreases width - j,
    {
        out.push(if j < n { 1u32 } else { 0u32 });
        j += 1;
        assert(out@ =~= start + row.take(j as int));
    }
    assert(row.take(width as int) =~= row);
}

fn flag_row_u8(n: usize, width: usize, out: &mut Vec<u8>)
    ensures
        final(out)@ == old(out)@ + pad_to(ones_u8(n as nat), width as nat, 0u8),
{
    let ghost start = out@;
    let ghost row = pad_to(ones_u8(n as nat), width as nat, 0u8);
    let mut j: usize = 0;
    while j < width
        invariant
            j <= width,
            row == pad_to(ones_u8(n as nat), width as nat, 0u8),
            out@ == start + row.take(j as int),
        decreases width - j,
    {
        out.push(if j < n { 1u8 } else { 0u8 });
        j += 1;
        assert(out@ =~= start + row.take(j as int));
    }
    assert(row.take(width as int) =~= row);
}

fn markers_u32(s: &Sequence) -> (r: Vec<u32>)
    ensures
        r@ == marker_positions_u32(*s),
{
    let mut out: Vec<u32> = Vec::new();
    let mut j: usize = 0;
    while j < s.markers.len()
        invariant
            j <= s.markers.len(),
            out@ == marker_positions_u32(*s).take(j as int),
        decreases s.markers.len() - j,
    {
        out.push(s.markers[j] as u32);
        j += 1;
        assert(out@ =~= marker_positions_u32(*s).take(j as int));
    }
    assert(marker_positions_u32(*s).take(s.markers.len() as int) =~= marker_positions_u32(*s));
    out
}

/// The widest row and the most markers of the pass.
fn extents(items: &[Item], pass: &[usize]) -> (r: (usize, usize))
    requires
        forall|i: int| 0 <= i < pass@.len() ==> #[trigger] pass@[i] < items@.len(),
    ensures
        r.0 == widest(pass_seqs(items@, pass@)),
        r.1 == most_markers(pass_seqs(items@, pass@)),
{
    let ghost seqs = pass_seqs(items@, pass@);
    let mut width: usize = 0;
    let mut options: usize = 0;
    let mut i: usize = 0;
    while i < pass.len()
        invariant
            i <= pass.len(),
            seqs == pass_seqs(items@, pass@),
            forall|k: int| 0 <= k < pass@.len() ==> #[trigger] pass@[k] < items@.len(),
            width == widest(seqs.take(i as int)),
            options == most_markers(seqs.take(i as int)),
        decreases pass.len() - i,
    {
        assert(seqs.take(i + 1).drop_last() =~= seqs.take(i as int));
        assert(seqs.take(i + 1).last() == items@[pass@[i as int] as int].seq);
        let s = &items[pass[i]].seq;
        if s.ids.len() > width {
            width = s.ids.len();
        }
        if s.markers.len() > options {
            options = s.markers.len();
        }
        i += 1;
    }
    assert(seqs.take(pass.len() as int) =~= seqs);
    (width, options)
}

/// Pads the sequences of one pass (`items` at the positions `pass`, in pass order) into the
/// rectangles the model reads: ids filled with `pad` to the longest sequence, attention 1 on
/// real tokens and 0 after, marker positions and marker flags filled with 0 to the most
/// markers, and each sequence's kind.
pub fn pad_pass(items: &[Item], pass: &[usize], pad: u32) -> (r: PaddedBatch)
    requires
        forall|i: int| 0 <= i < pass@.len() ==> #[trigger] pass@[i] < items@.len(),
    ensures
        padded_from(r, pass_seqs(items@, pass@), pad),
{
    let ghost seqs = pass_seqs(items@, pass@);
    let (width, options) = extents(items, pass);
    let ghost id_rows = Seq::new(seqs.len(), |i: int| pad_to(seqs[i].ids@, width as nat, pad));
    let ghost att_rows = Seq::new(
        seqs.len(),
        |i: int| pad_to(ones_u32(seqs[i].ids@.len()), width as nat, 0u32),
    );
    let ghost pos_rows = Seq::new(
        seqs.len(),
        |i: int| pad_to(marker_positions_u32(seqs[i]), options as nat, 0u32),
    );
    let ghost flag_rows = Seq::new(
        seqs.len(),
        |i: int| pad_to(ones_u8(seqs[i].markers@.len()), options as nat, 0u8),
    );
    let ghost kind_row = Seq::new(seqs.len(), |i: int| seqs[i].kind.index_spec() as u32);
    let mut ids: Vec<u32> = Vec::new();
    let mut attention: Vec<u32> = Vec::new();
    let mut marker_pos: Vec<u32> = Vec::new();
    let mut marker_mask: Vec<u8> = Vec::new();
    let mut kinds: Vec<u32> = Vec::new();
    let mut i: usize = 0;
    while i < pass.len()
        invariant
            i <= pass.len(),
            seqs == pass_seqs(items@, pass@),
            forall|k: int| 0 <= k < pass@.len() ==> #[trigger] pass@[k] < items@.len(),
            id_rows == Seq::new(seqs.len(), |i: int| pad_to(seqs[i].ids@, width as nat, pad)),
            att_rows == Seq::new(
                seqs.len(),
                |i: int| pad_to(ones_u32(seqs[i].ids@.len()), width as nat, 0u32),
            ),
            pos_rows == Seq::new(
                seqs.len(),
                |i: int| pad_to(marker_positions_u32(seqs[i]), options as nat, 0u32),
            ),
            flag_rows == Seq::new(
                seqs.len(),
                |i: int| pad_to(ones_u8(seqs[i].markers@.len()), options as nat, 0u8),
            ),
            kind_row == Seq::new(seqs.len(), |i: int| seqs[i].kind.index_spec() as u32),
            ids@ == id_rows.take(i as int).flatten(),
            attention@ == att_rows.take(i as int).flatten(),
            marker_pos@ == pos_rows.take(i as int).flatten(),
            marker_mask@ == flag_rows.take(i as int).flatten(),
            kinds@ == kind_row.take(i as int),
        decreases pass.len() - i,
    {
        let s = &items[pass[i]].seq;
        assert(*s == seqs[i as int]);
        proof {
            assert(id_rows.take(i + 1) =~= id_rows.take(i as int).push(id_rows[i as int]));
            assert(att_rows.take(i + 1) =~= att_rows.take(i as int).push(att_rows[i as int]));
            assert(pos_rows.take(i + 1) =~= pos_rows.take(i as int).push(pos_rows[i as int]));
            assert(flag_rows.take(i + 1) =~= flag_rows.take(i as int).push(flag_rows[i as int]));
        }
        pad_row(&s.ids, width, pad, &mut ids);
        flag_row_u32(s.ids.len(), width, &mut attention);
        let positions = markers_u32(s);
        pad_row(&positions, options, 0u32, &mut marker_pos);
        flag_row_u8(s.markers.len(), options, &mut marker_mask);
        kinds.push(s.kind.index() as u32);
        i += 1;
        assert(kinds@ =~= kind_row.take(i as int));
    }
    proof {
        assert(id_rows.take(pass.len() as int) =~= id_rows);
        assert(att_rows.take(pass.len() as int) =~= att_rows);
        assert(pos_rows.take(pass.len() as int) =~= pos_rows);
        assert(flag_rows.take(pass.len() as int) =~= flag_rows);
        assert(kind_row.take(pass.len() as int) =~= kind_row);
    }
    PaddedBatch { rows: pass.len(), width, options, ids, attention, marker_pos, marker_mask, kinds }
}

// ---------------------------------------------------------------------------------------------
// The sliding-window pattern.
// ---------------------------------------------------------------------------------------------

/// Whether query `q` sees key `k` within `half` positions either way.
pub open spec fn in_window(q: int, k: int, half: int) -> bool {
    (if q >= k {
        q - k
    } else {
        k - q
    }) <= half
}

/// Row `q` of the window pattern over `l` positions: 1 where the key is within `half`.
pub open spec fn window_row(q: int, l: nat, half: int) -> Seq<u8> {
    Seq::new(l, |k: int| if in_window(q, k, half) { 1u8 } else { 0u8 })
}

/// Which keys each query of a sliding-window layer may see, row-major over `l × l`: 1 where
/// query and key are at most `half_window` apart.
pub fn sliding_window(l: usize, half_window: usize) -> (r: Vec<u8>)
    ensures
        r@ == Seq::new(l as nat, |q: int| window_row(q, l as nat, half_window as int)).flatten(),
{
    let ghost rows = Seq::new(l as nat, |q: int| window_row(q, l as nat, half_window as int));
    let mut out: Vec<u8> = Vec::new();
    let mut q: usize = 0;
    while q < l
        invariant
            q <= l,
            rows == Seq::new(l as nat, |q: int| window_row(q, l as nat, half_window as int)),
            out@ == rows.take(q as int).flatten(),
        decreases l - q,
    {
        let ghost start = out@;
        let mut k: usize = 0;
        while k < l
            invariant
                k <= l,
                q < l,
                out@ == start + window_row(q as int, l as nat, half_window as int).take(k as int),
            decreases l - k,
        {
            let d = if q >= k { q - k } else { k - q };
            out.push(if d <= half_window { 1u8 } else { 0u8 });
            k += 1;
            assert(out@ =~= start + window_row(q as int, l as nat, half_window as int).take(
                k as int,
            ));
        }
        proof {
            assert(window_row(q as int, l as nat, half_window as int).take(l as int) =~= rows[q as int]);
            assert(rows.take(q + 1) =~= rows.take(q as int).push(rows[q as int]));
        }
        q += 1;
    }
    assert(rows.take(l as int) =~= rows);
    out
}

} // verus!
