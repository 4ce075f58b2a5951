//! The parts of a checkpoint's configuration that the library decides on: temperature buckets
//! and the attention kind of each encoder layer.

use vstd::prelude::*;
use crate::question::Kind;
use crate::text::{chars_of, push_str, string_of};

verus! {

/// The option-count bucket of a question with `k` options.
pub open spec fn bucket_spec(k: nat) -> Seq<char> {
    if k <= 2 {
        "2"@
    } else if k <= 5 {
        "3-5"@
    } else if k <= 10 {
        "6-10"@
    } else {
        "11+"@
    }
}

/// Key for per-cardinality temperature lookup: a 2-option noul and a 20-option choice need
/// different scaling.
pub open spec fn temp_bucket_spec(kind: Kind, k: nat) -> Seq<char> {
    kind.name_spec() + ":"@ + bucket_spec(k)
}

/// Key for per-cardinality temperature lookup, like `"choice:3-5"`.
pub fn temp_bucket(kind: Kind, k: usize) -> (r: String)
    ensures
        r@ == temp_bucket_spec(kind, k as nat),
{
    let size = if k <= 2 {
        "2"
    } else if k <= 5 {
        "3-5"
    } else if k <= 10 {
        "6-10"
    } else {
        "11+"
    };
    let mut out = chars_of(kind.name());
    push_str(&mut out, ":");
    push_str(&mut out, size);
    string_of(&out)
}

/// The attention kind of an encoder layer.
#[derive(Debug, Clone, Copy, PartialEq, Eq, Structural)]
pub enum LayerType {
    FullAttention,
    SlidingAttention,
}

/// The kind of layer `layer`: the explicit per-layer list when there is one, else full
/// attention every `global_every` layers (from layer 0) and sliding attention between.
pub open spec fn layer_type_spec(types: Option<Seq<LayerType>>, global_every: nat, layer: nat) -> LayerType {
    match types {
        Some(t) => t[layer as int],
        None => if layer % global_every == 0 {
            LayerType::FullAttention
        } else {
            LayerType::SlidingAttention
        },
    }
}

/// The kind of layer `layer` under an encoder config's `layer_types` and
/// `global_attn_every_n_layers`.
pub fn layer_type_for(types: &Option<Vec<LayerType>>, global_every: usize, layer: usize) -> (r:
    LayerType)
    requires
        match types {
            Some(t) => layer < t.len(),
            None => global_every > 0,
        },
    ensures
        r == layer_type_spec(
            match types {
                Some(t) => Some(t@),
                None => None,
            },
            global_every as nat,
            layer as nat,
        ),
{
    match types {
        Some(t) => t[layer],
        None => if layer % global_every == 0 {
            LayerType::FullAttention
        } else {
            LayerType::SlidingAttention
        },
    }
}

} // verus!
