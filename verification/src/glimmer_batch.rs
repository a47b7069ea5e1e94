//! Continuous-batch decoding with one cache lane per request: which weight
//! formats it takes, how its buffers are sized, and how one lane is cleared,
//! prefilled and sampled without touching the others.

use crate::text::{append_decimal, decimal_text, join2, same_text};
use vstd::prelude::*;
use vstd::string::StringExecFns;

verus! {

/// Most lanes of a batch.
pub const MAX_LANES: usize = 64;

// ---- Weight formats ----

/// Storage format of the embedding table.
#[allow(non_camel_case_types)]
#[derive(Debug, Clone, Copy, PartialEq, Eq, Structural)]
pub enum EmbeddingFormat {
    HFQ4G256,
    HFQ4G128,
    Q8_0,
    F32,
    Q4K,
}

/// Format of one projection: the name of its storage type and of the rotation
/// that its activations need.
#[derive(Debug, Clone)]
pub struct Projection {
    pub dtype: String,
    pub plan: String,
}

/// Formats of one layer's projections.
#[derive(Debug, Clone)]
pub struct LayerFormats {
    pub q_proj: Projection,
    pub k_proj: Projection,
    pub v_proj: Projection,
    pub attn_gate_proj: Projection,
    pub gate_proj: Projection,
    pub up_proj: Projection,
    pub o_proj: Projection,
    pub down_proj: Projection,
}

/// Formats of a model's weights.
#[derive(Debug, Clone)]
pub struct WeightFormats {
    pub embd_format: EmbeddingFormat,
    /// Storage type of the output projection.
    pub lm_head: String,
    pub layers: Vec<LayerFormats>,
}

/// A storage type with a batched projection kernel.
pub open spec fn batchable(dtype: Seq<char>) -> bool {
    dtype == "Q8_0"@ || dtype == "MQ4G256"@ || dtype == "HFQ4G256"@ || dtype == "MQ6G256"@ || dtype
        == "F32"@ || dtype == "BF16"@
}

/// A storage type with a batched output projection.
pub open spec fn batchable_head(dtype: Seq<char>) -> bool {
    dtype == "Q8_0"@ || dtype == "F32"@ || dtype == "BF16"@
}

/// Text of a projection with no batched kernel.
pub open spec fn dtype_refusal(layer: int, label: Seq<char>, dtype: Seq<char>, tail: Seq<char>) -> Seq<
    char,
> {
    "glimmer batch: layer "@ + decimal_text(layer) + " "@ + label + " dtype "@ + dtype + tail
}

/// What is wrong with one layer, if anything: the first projection without a
/// batched kernel, or projections of a family that disagree on their rotation.
pub open spec fn layer_refusal(l: LayerFormats, i: int) -> Option<Seq<char>> {
    let attn = " not in batch allowlist (Q8/MQ4/HFQ4/MQ6)"@;
    let ffn = " not in batch allowlist"@;
    if !batchable(l.q_proj.dtype@) {
        Some(dtype_refusal(i, "q_proj"@, l.q_proj.dtype@, attn))
    } else if !batchable(l.k_proj.dtype@) {
        Some(dtype_refusal(i, "k_proj"@, l.k_proj.dtype@, attn))
    } else if !batchable(l.v_proj.dtype@) {
        Some(dtype_refusal(i, "v_proj"@, l.v_proj.dtype@, attn))
    } else if !batchable(l.attn_gate_proj.dtype@) {
        Some(dtype_refusal(i, "attn_gate_proj"@, l.attn_gate_proj.dtype@, attn))
    } else if !batchable(l.gate_proj.dtype@) {
        Some(dtype_refusal(i, "gate_proj"@, l.gate_proj.dtype@, ffn))
    } else if !batchable(l.up_proj.dtype@) {
        Some(dtype_refusal(i, "up_proj"@, l.up_proj.dtype@, ffn))
    } else if !batchable(l.o_proj.dtype@) {
        Some(dtype_refusal(i, "o_proj"@, l.o_proj.dtype@, ffn))
    } else if !batchable(l.down_proj.dtype@) {
        Some(dtype_refusal(i, "down_proj"@, l.down_proj.dtype@, ffn))
    } else if l.k_proj.plan@ != l.q_proj.plan@ || l.v_proj.plan@ != l.q_proj.plan@
        || l.attn_gate_proj.plan@ != l.q_proj.plan@ {
        Some(
            "glimmer batch: layer "@ + decimal_text(i)
                + " q/k/v/attn_gate rotation plans must agree (q "@ + l.q_proj.plan@ + ", k "@
                + l.k_proj.plan@ + ", v "@ + l.v_proj.plan@ + ", gate "@ + l.attn_gate_proj.plan@
                + ")"@,
        )
    } else if l.up_proj.plan@ != l.gate_proj.plan@ {
        Some(
            "glimmer batch: layer "@ + decimal_text(i) + " gate/up rotation plans must agree ("@
                + l.gate_proj.plan@ + " vs "@ + l.up_proj.plan@ + ")"@,
        )
    } else {
        None
    }
}

/// What is wrong with the layers from `i` on: the first layer's fault.
pub open spec fn layers_refusal(layers: Seq<LayerFormats>, i: int) -> Option<Seq<char>>
    decreases layers.len() - i,
{
    if i >= layers.len() {
        None
    } else if layer_refusal(layers[i], i) is Some {
        layer_refusal(layers[i], i)
    } else {
        layers_refusal(layers, i + 1)
    }
}

/// What is wrong with a model's formats, if anything.
pub open spec fn formats_refusal(w: WeightFormats) -> Option<Seq<char>> {
    if w.embd_format == EmbeddingFormat::Q4K {
        Some("glimmer batch: Q4K embed unsupported"@)
    } else if !batchable_head(w.lm_head@) {
        Some(
            "glimmer batch: lm_head must be Q8_0 or F32 or BF16 for batched decode (got "@
                + w.lm_head@ + ")"@,
        )
    } else {
        layers_refusal(w.layers@, 0)
    }
}

fn is_batchable(dtype: &str) -> (r: bool)
    ensures
        r == batchable(dtype@),
{
    same_text(dtype, "Q8_0") || same_text(dtype, "MQ4G256") || same_text(dtype, "HFQ4G256")
        || same_text(dtype, "MQ6G256") || same_text(dtype, "F32") || same_text(dtype, "BF16")
}

fn refuse_dtype(layer: usize, label: &str, dtype: &str, tail: &str) -> (r: String)
    ensures
        r@ == dtype_refusal(layer as int, label@, dtype@, tail@),
{
    let mut t: String = String::from_str("glimmer batch: layer ");
    append_decimal(&mut t, layer as u64);
    t.append(" ");
    t.append(label);
    t.append(" dtype ");
    t.append(dtype);
    t.append(tail);
    t
}

fn check_layer(l: &LayerFormats, i: usize) -> (r: Result<(), String>)
    ensures
        match r {
            Ok(_) => layer_refusal(*l, i as int) is None,
            Err(e) => layer_refusal(*l, i as int) == Some(e@),
        },
{
    let attn: &str = " not in batch allowlist (Q8/MQ4/HFQ4/MQ6)";
    let ffn: &str = " not in batch allowlist";
    if !is_batchable(l.q_proj.dtype.as_str()) {
        return Err(refuse_dtype(i, "q_proj", l.q_proj.dtype.as_str(), attn));
    }
    if !is_batchable(l.k_proj.dtype.as_str()) {
        return Err(refuse_dtype(i, "k_proj", l.k_proj.dtype.as_str(), attn));
    }
    if !is_batchable(l.v_proj.dtype.as_str()) {
        return Err(refuse_dtype(i, "v_proj", l.v_proj.dtype.as_str(), attn));
    }
    if !is_batchable(l.attn_gate_proj.dtype.as_str()) {
        return Err(refuse_dtype(i, "attn_gate_proj", l.attn_gate_proj.dtype.as_str(), attn));
    }
    if !is_batchable(l.gate_proj.dtype.as_str()) {
        return Err(refuse_dtype(i, "gate_proj", l.gate_proj.dtype.as_str(), ffn));
    }
    if !is_batchable(l.up_proj.dtype.as_str()) {
        return Err(refuse_dtype(i, "up_proj", l.up_proj.dtype.as_str(), ffn));
    }
    if !is_batchable(l.o_proj.dtype.as_str()) {
        return Err(refuse_dtype(i, "o_proj", l.o_proj.dtype.as_str(), ffn));
    }
    if !is_batchable(l.down_proj.dtype.as_str()) {
        return Err(refuse_dtype(i, "down_proj", l.down_proj.dtype.as_str(), ffn));
    }
    if l.k_proj.plan != l.q_proj.plan || l.v_proj.plan != l.q_proj.plan || l.attn_gate_proj.plan
        != l.q_proj.plan {
        let mut t: String = String::from_str("glimmer batch: layer ");
        append_decimal(&mut t, i as u64);
        t.append(" q/k/v/attn_gate rotation plans must agree (q ");
        t.append(l.q_proj.plan.as_str());
        t.append(", k ");
        t.append(l.k_proj.plan.as_str());
        t.append(", v ");
        t.append(l.v_proj.plan.as_str());
        t.append(", gate ");
        t.append(l.attn_gate_proj.plan.as_str());
        t.append(")");
        return Err(t);
    }
    if l.up_proj.plan != l.gate_proj.plan {
        let mut t: String = String::from_str("glimmer batch: layer ");
        append_decimal(&mut t, i as u64);
        t.append(" gate/up rotation plans must agree (");
        t.append(l.gate_proj.plan.as_str());
        t.append(" vs ");
        t.append(l.up_proj.plan.as_str());
        t.append(")");
        return Err(t);
    }
    Ok(())
}

/// Whether batched decoding takes a model's weight formats: an embedding with a
/// batched lookup, an output projection and projections with batched kernels,
/// and one rotation per projection family. Fails closed.
pub fn batch_weight_formats_supported(weights: &WeightFormats) -> (r: Result<(), String>)
    ensures
        match r {
            Ok(_) => formats_refusal(*weights) is None,
            Err(e) => formats_refusal(*weights) == Some(e@),
        },
{
    if weights.embd_format == EmbeddingFormat::Q4K {
        return Err(String::from_str("glimmer batch: Q4K embed unsupported"));
    }
    let head: &str = weights.lm_head.as_str();
    if !same_text(head, "Q8_0") && !same_text(head, "F32") && !same_text(head, "BF16") {
        let mut t: String = String::from_str(
            "glimmer batch: lm_head must be Q8_0 or F32 or BF16 for batched decode (got ",
        );
        t.append(head);
        t.append(")");
        return Err(t);
    }
    let mut i: usize = 0;
    while i < weights.layers.len()
        invariant
            i <= weights.layers@.len(),
            weights.embd_format != EmbeddingFormat::Q4K,
            batchable_head(weights.lm_head@),
            layers_refusal(weights.layers@, 0) == layers_refusal(weights.layers@, i as int),
        decreases weights.layers@.len() - i,
    {
        match check_layer(&weights.layers[i], i) {
            Ok(_) => {},
            Err(e) => {
                return Err(e);
            },
        }
        i = i + 1;
    }
    Ok(())
}

// ---- Geometry ----

/// Attention span of a layer.
#[derive(Debug, Clone, Copy, PartialEq, Eq, Structural)]
pub enum GlimmerLayerType {
    Sliding,
    Full,
}

/// Shape of the model.
#[derive(Debug, Clone)]
pub struct GlimmerConfig {
    pub n_heads: usize,
    pub n_kv_heads: usize,
    pub head_dim: usize,
    pub dim: usize,
    pub hidden_dim: usize,
    pub q_dim: usize,
    pub kv_dim: usize,
    pub vocab_size: usize,
    pub n_layers: usize,
    pub layer_types: Vec<GlimmerLayerType>,
}

/// Why a batch of this shape cannot be, if it cannot.
pub open spec fn geometry_refusal(c: GlimmerConfig, max_batch: usize, lane_capacity: usize) -> Option<
    Seq<char>,
> {
    if max_batch == 0 || max_batch > MAX_LANES {
        Some(
            "glimmer batch: max_batch must be 1..=64 (got "@ + decimal_text(max_batch as int)
                + ")"@,
        )
    } else if lane_capacity == 0 {
        Some("glimmer batch: lane_capacity must be non-zero"@)
    } else if c.n_heads == 0 || c.n_kv_heads == 0 || c.head_dim == 0 || c.dim == 0 || c.hidden_dim
        == 0 || c.vocab_size == 0 || c.n_layers == 0 {
        Some("glimmer batch: zero or degenerate geometry"@)
    } else if c.n_heads as int % (c.n_kv_heads as int) != 0 {
        Some(
            "glimmer batch: n_heads "@ + decimal_text(c.n_heads as int) + " % n_kv_heads "@
                + decimal_text(c.n_kv_heads as int) + " !=0"@,
        )
    } else if c.head_dim as int % 32 != 0 {
        Some(
            "glimmer batch: head_dim "@ + decimal_text(c.head_dim as int)
                + " must be multiple of 32"@,
        )
    } else {
        None
    }
}

/// Checks the shape of a batch before any device memory is taken.
pub fn check_batch_geometry(c: &GlimmerConfig, max_batch: usize, lane_capacity: usize) -> (r: Result<
    (),
    String,
>)
    ensures
        match r {
            Ok(_) => geometry_refusal(*c, max_batch, lane_capacity) is None,
            Err(e) => geometry_refusal(*c, max_batch, lane_capacity) == Some(e@),
        },
{
    if max_batch == 0 || max_batch > MAX_LANES {
        let mut t: String = String::from_str("glimmer batch: max_batch must be 1..=64 (got ");
        append_decimal(&mut t, max_batch as u64);
        t.append(")");
        return Err(t);
    }
    if lane_capacity == 0 {
        return Err(String::from_str("glimmer batch: lane_capacity must be non-zero"));
    }
    if c.n_heads == 0 || c.n_kv_heads == 0 || c.head_dim == 0 || c.dim == 0 || c.hidden_dim == 0
        || c.vocab_size == 0 || c.n_layers == 0 {
        return Err(String::from_str("glimmer batch: zero or degenerate geometry"));
    }
    if c.n_heads % c.n_kv_heads != 0 {
        let mut t: String = String::from_str("glimmer batch: n_heads ");
        append_decimal(&mut t, c.n_heads as u64);
        t.append(" % n_kv_heads ");
        append_decimal(&mut t, c.n_kv_heads as u64);
        t.append(" !=0");
        return Err(t);
    }
    if c.head_dim % 32 != 0 {
        let mut t: String = String::from_str("glimmer batch: head_dim ");
        append_decimal(&mut t, c.head_dim as u64);
        t.append(" must be multiple of 32");
        return Err(t);
    }
    Ok(())
}

/// Whether a model can be decoded in batches of this shape: the shape is sound
/// and the weight formats are supported.
pub fn attest_batch(
    weights: &WeightFormats,
    c: &GlimmerConfig,
    max_batch: usize,
    lane_capacity: usize,
) -> (r: Result<(), String>)
    ensures
        match r {
            Ok(_) => geometry_refusal(*c, max_batch, lane_capacity) is None && formats_refusal(
                *weights,
            ) is None,
            Err(e) => match geometry_refusal(*c, max_batch, lane_capacity) {
                Some(t) => e@ == t,
                None => formats_refusal(*weights) == Some(e@),
            },
        },
{
    match check_batch_geometry(c, max_batch, lane_capacity) {
        Ok(_) => batch_weight_formats_supported(weights),
        Err(e) => Err(e),
    }
}

/// The batch product that does not fit a machine word, if any.
pub open spec fn size_refusal(c: GlimmerConfig, max_batch: usize, lane_capacity: usize) -> Option<
    Seq<char>,
> {
    if max_batch * lane_capacity > usize::MAX {
        Some("glimmer batch: KV capacity overflow"@)
    } else if max_batch * c.dim > usize::MAX {
        Some("glimmer batch: x size overflow"@)
    } else if max_batch * c.q_dim > usize::MAX {
        Some("glimmer batch: q size overflow"@)
    } else if max_batch * c.kv_dim > usize::MAX {
        Some("glimmer batch: kv size overflow"@)
    } else if max_batch * c.hidden_dim > usize::MAX {
        Some("glimmer batch: hidden size overflow"@)
    } else if max_batch * c.vocab_size > usize::MAX {
        Some("glimmer batch: vocab size overflow"@)
    } else {
        None
    }
}

/// Layers of one kind among the first `i`.
pub open spec fn kind_count(t: Seq<GlimmerLayerType>, kind: GlimmerLayerType, i: int) -> int
    decreases i,
{
    if i <= 0 {
        0
    } else {
        kind_count(t, kind, i - 1) + if t[i - 1] == kind {
            1int
        } else {
            0
        }
    }
}

/// One row-major buffer of the batch.
#[derive(Debug, Clone, Copy, PartialEq, Eq)]
pub struct BufferPlan {
    pub label: &'static str,
    pub len: usize,
    /// Half-width floats instead of full-width ones.
    pub half: bool,
}

/// Widths of the batch's rows, by which its buffers are sized.
#[derive(Debug, Clone, Copy, PartialEq, Eq, Structural)]
pub enum RowWidth {
    Dim,
    Q,
    Kv,
    Hidden,
    Vocab,
    Pair,
    One,
}

/// Elements of one row.
pub open spec fn row_width(c: GlimmerConfig, w: RowWidth) -> int {
    match w {
        RowWidth::Dim => c.dim as int,
        RowWidth::Q => c.q_dim as int,
        RowWidth::Kv => c.kv_dim as int,
        RowWidth::Hidden => c.hidden_dim as int,
        RowWidth::Vocab => c.vocab_size as int,
        RowWidth::Pair => 2,
        RowWidth::One => 1,
    }
}

/// The per-lane buffers in order of allocation, with the width of a lane's row.
pub open spec fn lane_buffers() -> Seq<(Seq<char>, RowWidth)> {
    seq![
        ("x_batch"@, RowWidth::Dim),
        ("residual_batch"@, RowWidth::Dim),
        ("tmp_batch"@, RowWidth::Dim),
        ("x_rot_batch"@, RowWidth::Dim),
        ("q_batch"@, RowWidth::Q),
        ("k_batch"@, RowWidth::Kv),
        ("v_batch"@, RowWidth::Kv),
        ("attn_gate_batch"@, RowWidth::Q),
        ("attn_out_batch"@, RowWidth::Q),
        ("o_out_batch"@, RowWidth::Dim),
        ("o_rot_batch"@, RowWidth::Dim),
        ("gate_batch"@, RowWidth::Hidden),
        ("up_batch"@, RowWidth::Hidden),
        ("ffn_hidden_batch"@, RowWidth::Hidden),
        ("ffn_out_batch"@, RowWidth::Dim),
        ("down_rot_batch"@, RowWidth::Hidden),
        ("final_hidden"@, RowWidth::Dim),
        ("logits"@, RowWidth::Vocab),
        ("sample_out"@, RowWidth::Pair),
        ("sample_rng_states"@, RowWidth::One),
        ("positions"@, RowWidth::One),
        ("tokens"@, RowWidth::One),
        ("bf16_scratch"@, RowWidth::Hidden),
    ]
}

/// Sizes of a batch.
pub struct BatchPlan {
    pub total_capacity: usize,
    /// Cache index of every layer among the layers of its kind.
    pub kv_slot_for_layer: Vec<usize>,
    pub n_sliding: usize,
    pub n_full: usize,
    /// Per-lane buffers, `max_batch` rows each.
    pub lane_buffers: Vec<BufferPlan>,
    /// Buffers shared by all lanes.
    pub shared_buffers: Vec<BufferPlan>,
}

fn width_of(c: &GlimmerConfig, w: RowWidth) -> (r: usize)
    ensures
        r == row_width(*c, w),
{
    match w {
        RowWidth::Dim => c.dim,
        RowWidth::Q => c.q_dim,
        RowWidth::Kv => c.kv_dim,
        RowWidth::Hidden => c.hidden_dim,
        RowWidth::Vocab => c.vocab_size,
        RowWidth::Pair => 2,
        RowWidth::One => 1,
    }
}

fn lane_buffer_table() -> (r: Vec<(&'static str, RowWidth)>)
    ensures
        r@.len() == lane_buffers().len(),
        forall|i: int|
            0 <= i < r@.len() ==> (#[trigger] r@[i]).0@ == lane_buffers()[i].0 && r@[i].1
                == lane_buffers()[i].1,
{
    let mut v: Vec<(&'static str, RowWidth)> = Vec::new();
    v.push(("x_batch", RowWidth::Dim));
    v.push(("residual_batch", RowWidth::Dim));
    v.push(("tmp_batch", RowWidth::Dim));
    v.push(("x_rot_batch", RowWidth::Dim));
    v.push(("q_batch", RowWidth::Q));
    v.push(("k_batch", RowWidth::Kv));
    v.push(("v_batch", RowWidth::Kv));
    v.push(("attn_gate_batch", RowWidth::Q));
    v.push(("attn_out_batch", RowWidth::Q));
    v.push(("o_out_batch", RowWidth::Dim));
    v.push(("o_rot_batch", RowWidth::Dim));
    v.push(("gate_batch", RowWidth::Hidden));
    v.push(("up_batch", RowWidth::Hidden));
    v.push(("ffn_hidden_batch", RowWidth::Hidden));
    v.push(("ffn_out_batch", RowWidth::Dim));
    v.push(("down_rot_batch", RowWidth::Hidden));
    v.push(("final_hidden", RowWidth::Dim));
    v.push(("logits", RowWidth::Vocab));
    v.push(("sample_out", RowWidth::Pair));
    v.push(("sample_rng_states", RowWidth::One));
    v.push(("positions", RowWidth::One));
    v.push(("tokens", RowWidth::One));
    v.push(("bf16_scratch", RowWidth::Hidden));
    v
}

/// A buffer that all lanes share.
pub open spec fn is_shared_buffer(b: BufferPlan, label: Seq<char>, len: int) -> bool {
    b.label@ == label && b.len == len && !b.half
}

/// `p` holds the sizes of a batch.
pub open spec fn is_batch_plan(
    c: GlimmerConfig,
    max_batch: usize,
    lane_capacity: usize,
    p: BatchPlan,
) -> bool {
    let t = c.layer_types@;
    &&& p.total_capacity == max_batch * lane_capacity
    &&& p.kv_slot_for_layer@.len() == t.len()
    &&& forall|i: int|
        0 <= i < t.len() ==> #[trigger] p.kv_slot_for_layer@[i] == kind_count(t, t[i], i)
    &&& p.n_sliding == kind_count(t, GlimmerLayerType::Sliding, t.len() as int)
    &&& p.n_full == kind_count(t, GlimmerLayerType::Full, t.len() as int)
    &&& p.lane_buffers@.len() == lane_buffers().len()
    &&& forall|i: int|
        0 <= i < p.lane_buffers@.len() ==> {
            &&& (#[trigger] p.lane_buffers@[i]).label@ == lane_buffers()[i].0
            &&& p.lane_buffers@[i].len == max_batch * row_width(c, lane_buffers()[i].1)
            &&& p.lane_buffers@[i].half == (i == lane_buffers().len() - 1)
        }
    &&& p.shared_buffers@.len() == 4
    &&& is_shared_buffer(p.shared_buffers@[0], "logits_scratch"@, c.vocab_size as int)
    &&& is_shared_buffer(p.shared_buffers@[1], "repeat_dummy"@, 1)
    &&& is_shared_buffer(p.shared_buffers@[2], "qk_norm_ones"@, c.head_dim as int)
    &&& is_shared_buffer(p.shared_buffers@[3], "embed_norm_ones"@, c.dim as int)
}

/// Plans the buffers of a batch. Refuses one whose products do not fit a
/// machine word.
pub fn plan_batch(c: &GlimmerConfig, max_batch: usize, lane_capacity: usize) -> (r: Result<
    BatchPlan,
    String,
>)
    requires
        max_batch <= MAX_LANES,
    ensures
        match r {
            Err(e) => size_refusal(*c, max_batch, lane_capacity) == Some(e@),
            Ok(p) => size_refusal(*c, max_batch, lane_capacity) is None && is_batch_plan(
                *c,
                max_batch,
                lane_capacity,
                p,
            ),
        },
{
    let total_capacity: usize = match max_batch.checked_mul(lane_capacity) {
        Some(n) => n,
        None => {
            return Err(String::from_str("glimmer batch: KV capacity overflow"));
        },
    };
    if max_batch.checked_mul(c.dim).is_none() {
        return Err(String::from_str("glimmer batch: x size overflow"));
    }
    if max_batch.checked_mul(c.q_dim).is_none() {
        return Err(String::from_str("glimmer batch: q size overflow"));
    }
    if max_batch.checked_mul(c.kv_dim).is_none() {
        return Err(String::from_str("glimmer batch: kv size overflow"));
    }
    if max_batch.checked_mul(c.hidden_dim).is_none() {
        return Err(String::from_str("glimmer batch: hidden size overflow"));
    }
    if max_batch.checked_mul(c.vocab_size).is_none() {
        return Err(String::from_str("glimmer batch: vocab size overflow"));
    }
    let mut slots: Vec<usize> = Vec::new();
    let mut n_sliding: usize = 0;
    let mut n_full: usize = 0;
    let mut i: usize = 0;
    let ghost t = c.layer_types@;
    while i < c.layer_types.len()
        invariant
            i <= t.len(),
            t == c.layer_types@,
            n_sliding == kind_count(t, GlimmerLayerType::Sliding, i as int),
            n_full == kind_count(t, GlimmerLayerType::Full, i as int),
            n_sliding <= i,
            n_full <= i,
            slots@.len() == i,
            forall|j: int| 0 <= j < i ==> #[trigger] slots@[j] == kind_count(t, t[j], j),
        decreases t.len() - i,
    {
        match c.layer_types[i] {
            GlimmerLayerType::Sliding => {
                slots.push(n_sliding);
                n_sliding = n_sliding + 1;
            },
            GlimmerLayerType::Full => {
                slots.push(n_full);
                n_full = n_full + 1;
            },
        }
        i = i + 1;
    }
    let table: Vec<(&'static str, RowWidth)> = lane_buffer_table();
    let mut lanes: Vec<BufferPlan> = Vec::new();
    let mut k: usize = 0;
    while k < table.len()
        invariant
            k <= table@.len(),
            lanes@.len() == k,
            max_batch <= MAX_LANES,
            size_refusal(*c, max_batch, lane_capacity) is None,
            table@.len() == lane_buffers().len(),
            forall|i: int|
                0 <= i < table@.len() ==> (#[trigger] table@[i]).0@ == lane_buffers()[i].0
                    && table@[i].1 == lane_buffers()[i].1,
            forall|i: int|
                0 <= i < k ==> {
                    &&& (#[trigger] lanes@[i]).label@ == lane_buffers()[i].0
                    &&& lanes@[i].len == max_batch * row_width(*c, lane_buffers()[i].1)
                    &&& lanes@[i].half == (i == lane_buffers().len() - 1)
                },
        decreases table@.len() - k,
    {
        let width: usize = width_of(c, table[k].1);
        assert(table@[k as int].0@ == lane_buffers()[k as int].0);
        proof {
            let w = lane_buffers()[k as int].1;
            assert(width == row_width(*c, w));
            assert(max_batch * width <= usize::MAX) by {
                if w is Pair || w is One {
                    assert(max_batch * width <= 128) by (nonlinear_arith)
                        requires
                            max_batch <= 64,
                            0 <= width <= 2,
                    ;
                }
            }
        }
        lanes.push(
            BufferPlan { label: table[k].0, len: max_batch * width, half: k == table.len() - 1 },
        );
        k = k + 1;
    }
    let mut shared: Vec<BufferPlan> = Vec::new();
    shared.push(BufferPlan { label: "logits_scratch", len: c.vocab_size, half: false });
    shared.push(BufferPlan { label: "repeat_dummy", len: 1, half: false });
    shared.push(BufferPlan { label: "qk_norm_ones", len: c.head_dim, half: false });
    shared.push(BufferPlan { label: "embed_norm_ones", len: c.dim, half: false });
    Ok(
        BatchPlan {
            total_capacity,
            kv_slot_for_layer: slots,
            n_sliding,
            n_full,
            lane_buffers: lanes,
            shared_buffers: shared,
        },
    )
}

/// Layers of one kind never share a cache index, and all of them lie within the
/// cache of their kind.
pub proof fn law_layers_have_their_own_cache(t: Seq<GlimmerLayerType>, i: int, j: int)
    requires
        0 <= i < j < t.len(),
        t[i] == t[j],
    ensures
        kind_count(t, t[i], i) < kind_count(t, t[j], j),
        kind_count(t, t[j], j) < kind_count(t, t[j], t.len() as int),
{
    lemma_kind_monotone(t, t[i], i + 1, j);
    lemma_kind_monotone(t, t[j], j + 1, t.len() as int);
}

proof fn lemma_kind_monotone(t: Seq<GlimmerLayerType>, kind: GlimmerLayerType, a: int, b: int)
    requires
        0 <= a <= b,
    ensures
        kind_count(t, kind, a) <= kind_count(t, kind, b),
    decreases b - a,
{
    if a < b {
        lemma_kind_monotone(t, kind, a, b - 1);
    }
}

// ---- One lane ----

/// A lane's part of a buffer with `width` elements per lane.
#[derive(Debug, Clone, Copy, PartialEq, Eq, Structural)]
pub struct Span {
    pub offset: usize,
    pub len: usize,
}

/// The part of a buffer that belongs to a lane.
pub fn lane_span(lane: usize, width: usize) -> (r: Span)
    requires
        lane * width <= usize::MAX,
    ensures
        r.offset == lane * width,
        r.len == width,
{
    Span { offset: lane * width, len: width }
}

/// Lanes never overlap, and each lies within a buffer of `lanes` rows.
pub proof fn law_lanes_are_disjoint(a: int, b: int, lanes: int, width: int)
    requires
        0 <= a < b < lanes,
        0 <= width,
    ensures
        a * width + width <= b * width,
        b * width + width <= lanes * width,
{
    assert(a * width + width <= b * width) by (nonlinear_arith)
        requires
            a + 1 <= b,
            0 <= width,
    ;
    assert(b * width + width <= lanes * width) by (nonlinear_arith)
        requires
            b + 1 <= lanes,
            0 <= width,
    ;
}

/// Bytes of one token's keys (or values) in 8-bit blocks of 32 elements, each
/// with its 2-byte scale.
pub open spec fn kv_token_bytes(n_kv_heads: int, head_dim: int) -> int {
    n_kv_heads * (head_dim / 32) * 34
}

/// Bytes of a lane's cache.
pub open spec fn lane_kv_bytes(c: GlimmerConfig, lane_capacity: int) -> int {
    lane_capacity * kv_token_bytes(c.n_kv_heads as int, c.head_dim as int)
}

/// The byte range of a lane in one cache tensor.
pub fn lane_kv_span(
    c: &GlimmerConfig,
    max_batch: usize,
    lane_capacity: usize,
    lane: usize,
) -> (r: Result<Span, String>)
    requires
        c.n_kv_heads * (c.head_dim as int / 32) <= usize::MAX,
        kv_token_bytes(c.n_kv_heads as int, c.head_dim as int) <= usize::MAX,
        lane_kv_bytes(*c, lane_capacity as int) <= usize::MAX,
        lane < max_batch ==> (lane + 1) * lane_kv_bytes(*c, lane_capacity as int) <= usize::MAX,
    ensures
        match r {
            Ok(s) => {
                &&& lane < max_batch
                &&& s.len == lane_kv_bytes(*c, lane_capacity as int)
                &&& s.offset == lane * lane_kv_bytes(*c, lane_capacity as int)
            },
            Err(e) => lane >= max_batch && e@ == "glimmer batch reset_lane: lane "@
                + decimal_text(lane as int) + " >= max_batch "@ + decimal_text(max_batch as int),
        },
{
    if lane >= max_batch {
        let mut t: String = String::from_str("glimmer batch reset_lane: lane ");
        append_decimal(&mut t, lane as u64);
        t.append(" >= max_batch ");
        append_decimal(&mut t, max_batch as u64);
        return Err(t);
    }
    let blocks: usize = c.n_kv_heads * (c.head_dim / 32);
    let token_bytes: usize = blocks * 34;
    let len: usize = lane_capacity * token_bytes;
    assert(lane * len <= usize::MAX && 0 <= lane * len) by (nonlinear_arith)
        requires
            (lane + 1) * len <= usize::MAX,
            0 <= len,
            0 <= lane,
    ;
    Ok(Span { offset: lane * len, len })
}

/// What clearing a lane does with one cache tensor.
#[derive(Debug, Clone, Copy, PartialEq, Eq, Structural)]
pub enum LaneClear {
    /// A placeholder tensor of a layer without a cache of this kind.
    Skip,
    /// Clear the lane's byte range.
    Clear,
}

/// Checks a lane's byte range against one cache tensor.
pub fn check_lane_range(span: Span, elements: usize, parent_bytes: usize) -> (r: Result<
    LaneClear,
    String,
>)
    requires
        span.offset + span.len <= usize::MAX,
    ensures
        match r {
            Ok(LaneClear::Skip) => elements <= 1,
            Ok(LaneClear::Clear) => elements > 1 && span.offset + span.len <= parent_bytes,
            Err(e) => elements > 1 && span.offset + span.len > parent_bytes && e@
                == "glimmer batch reset_lane: lane byte range exceeds parent"@,
        },
{
    if elements <= 1 {
        return Ok(LaneClear::Skip);
    }
    if span.offset + span.len > parent_bytes {
        return Err(
            String::from_str("glimmer batch reset_lane: lane byte range exceeds parent"),
        );
    }
    Ok(LaneClear::Clear)
}

/// The rows of the per-lane buffers that clearing a lane zeroes: its own row of
/// each, in the order of the buffers.
fn lane_rows(c: &GlimmerConfig, max_batch: usize, lane: usize) -> (r: Vec<Span>)
    requires
        lane < max_batch <= MAX_LANES,
        size_refusal(*c, max_batch, 0) is None,
    ensures
        r@.len() == lane_buffers().len(),
        forall|i: int|
            0 <= i < r@.len() ==> {
                &&& (#[trigger] r@[i]).offset == lane * row_width(*c, lane_buffers()[i].1)
                &&& r@[i].len == row_width(*c, lane_buffers()[i].1)
            },
{
    let table: Vec<(&'static str, RowWidth)> = lane_buffer_table();
    let mut out: Vec<Span> = Vec::new();
    let mut k: usize = 0;
    while k < table.len()
        invariant
            k <= table@.len(),
            out@.len() == k,
            lane < max_batch <= MAX_LANES,
            size_refusal(*c, max_batch, 0) is None,
            table@.len() == lane_buffers().len(),
            forall|i: int|
                0 <= i < table@.len() ==> (#[trigger] table@[i]).0@ == lane_buffers()[i].0
                    && table@[i].1 == lane_buffers()[i].1,
            forall|i: int|
                0 <= i < k ==> {
                    &&& (#[trigger] out@[i]).offset == lane * row_width(*c, lane_buffers()[i].1)
                    &&& out@[i].len == row_width(*c, lane_buffers()[i].1)
                },
        decreases table@.len() - k,
    {
        let width: usize = width_of(c, table[k].1);
        proof {
            let w = lane_buffers()[k as int].1;
            assert(table@[k as int].0@ == lane_buffers()[k as int].0);
            assert(width == row_width(*c, w));
            assert(max_batch * width <= usize::MAX) by {
                if w is Pair || w is One {
                    assert(max_batch * width <= 128) by (nonlinear_arith)
                        requires
                            max_batch <= 64,
                            0 <= width <= 2,
                    ;
                }
            }
            assert(lane * width <= max_batch * width) by (nonlinear_arith)
                requires
                    lane < max_batch,
                    0 <= width,
            ;
        }
        out.push(lane_span(lane, width));
        k = k + 1;
    }
    out
}

// ---- Prefilling one lane ----

/// Why a prompt cannot be prefilled into a lane, if it cannot.
pub open spec fn prefill_refusal(
    lane: usize,
    max_batch: usize,
    prompt_len: usize,
    lane_capacity: usize,
) -> Option<Seq<char>> {
    if lane >= max_batch {
        Some(
            "glimmer prefill_lane: lane "@ + decimal_text(lane as int) + " >= max_batch "@
                + decimal_text(max_batch as int),
        )
    } else if prompt_len == 0 {
        Some("glimmer prefill_lane: prompt is empty"@)
    } else if prompt_len >= lane_capacity {
        Some(
            "glimmer prefill_lane: prompt len "@ + decimal_text(prompt_len as int)
                + " leaves no decode capacity (lane_capacity "@ + decimal_text(
                lane_capacity as int,
            ) + ")"@,
        )
    } else {
        None
    }
}

/// What clearing one lane zeroes.
#[derive(Debug, PartialEq, Eq)]
pub struct LaneReset {
    /// The lane's byte range in every cache tensor.
    pub kv: Span,
    /// The lane's row in every per-lane buffer.
    pub rows: Vec<Span>,
}

/// What comes next in prefilling a lane.
#[derive(Debug, PartialEq, Eq)]
pub enum PrefillStep {
    /// Clear the lane, so that its cache and its rows start clean.
    Clear(LaneReset),
    /// Run one token through all layers at this position of the lane. The cache
    /// must be mapped up to `required` tokens. Only the last token's scores are
    /// computed.
    Token { pos: usize, token: u32, required: usize, last: bool },
    /// Cancelled: the lane is left for a reset.
    Cancelled,
    /// The whole prompt is in the lane's cache.
    Done,
}

/// A step as a mathematical value.
pub enum PrefillStepView {
    Clear { kv: Span, rows: Seq<Span> },
    Token { pos: usize, token: u32, required: usize, last: bool },
    Cancelled,
    Done,
}

impl View for PrefillStep {
    type V = PrefillStepView;

    open spec fn view(&self) -> PrefillStepView {
        match *self {
            PrefillStep::Clear(z) => PrefillStepView::Clear { kv: z.kv, rows: z.rows@ },
            PrefillStep::Token { pos, token, required, last } => PrefillStepView::Token {
                pos,
                token,
                required,
                last,
            },
            PrefillStep::Cancelled => PrefillStepView::Cancelled,
            PrefillStep::Done => PrefillStepView::Done,
        }
    }
}

/// A lane being prefilled, one token at a time.
pub struct LanePrefill {
    lane: usize,
    lane_capacity: usize,
    prompt: Vec<u32>,
    reset: Option<LaneReset>,
    next: usize,
    cancelled: bool,
}

/// A lane being prefilled as a mathematical value.
pub struct PrefillView {
    pub lane: int,
    pub lane_capacity: int,
    pub prompt: Seq<u32>,
    /// What is still to be cleared before the first token.
    pub reset: Option<(Span, Seq<Span>)>,
    pub next: int,
    pub cancelled: bool,
}

impl View for LanePrefill {
    type V = PrefillView;

    closed spec fn view(&self) -> PrefillView {
        PrefillView {
            lane: self.lane as int,
            lane_capacity: self.lane_capacity as int,
            prompt: self.prompt@,
            reset: match self.reset {
                Some(z) => Some((z.kv, z.rows@)),
                None => None,
            },
            next: self.next as int,
            cancelled: self.cancelled,
        }
    }
}

impl PrefillView {
    /// What comes next, given whether cancellation has been asked for. The lane
    /// is cleared first, and cancellation is looked at from then on.
    pub open spec fn step(self, cancel: bool) -> (PrefillView, PrefillStepView) {
        match self.reset {
            Some(z) => (
                PrefillView { reset: None, ..self },
                PrefillStepView::Clear { kv: z.0, rows: z.1 },
            ),
            None => if self.cancelled || cancel {
                (PrefillView { cancelled: true, ..self }, PrefillStepView::Cancelled)
            } else if self.next < self.prompt.len() {
                (
                    PrefillView { next: self.next + 1, ..self },
                    PrefillStepView::Token {
                        pos: self.next as usize,
                        token: self.prompt[self.next],
                        required: (self.lane * self.lane_capacity + self.next + 1) as usize,
                        last: self.next + 1 == self.prompt.len(),
                    },
                )
            } else {
                (self, PrefillStepView::Done)
            },
        }
    }
}

impl LanePrefill {
    /// The invariant: the prompt fits the lane.
    pub closed spec fn wf(&self) -> bool {
        &&& self.next <= self.prompt@.len() < self.lane_capacity
        &&& (self.lane + 1) * self.lane_capacity <= usize::MAX
    }

    /// What comes next. Cancellation is looked at between tokens and once more
    /// before the prefill is done.
    pub fn step(&mut self, cancel: bool) -> (r: PrefillStep)
        requires
            old(self).wf(),
        ensures
            final(self).wf(),
            (final(self)@, r@) == old(self)@.step(cancel),
    {
        let mut reset: Option<LaneReset> = None;
        std::mem::swap(&mut reset, &mut self.reset);
        match reset {
            Some(z) => {
                return PrefillStep::Clear(z);
            },
            None => {},
        }
        if self.cancelled || cancel {
            self.cancelled = true;
            return PrefillStep::Cancelled;
        }
        if self.next < self.prompt.len() {
            let pos: usize = self.next;
            proof {
                let l = self.lane as int;
                let c = self.lane_capacity as int;
                assert((l + 1) * c == l * c + c) by (nonlinear_arith);
                assert(0 <= l * c) by (nonlinear_arith)
                    requires
                        0 <= l,
                        0 <= c,
                ;
            }
            let required: usize = self.lane * self.lane_capacity + pos + 1;
            self.next = pos + 1;
            return PrefillStep::Token {
                pos,
                token: self.prompt[pos],
                required,
                last: pos + 1 == self.prompt.len(),
            };
        }
        PrefillStep::Done
    }
}

/// The state after `n` steps without cancellation.
pub open spec fn after_steps(p: PrefillView, n: int) -> PrefillView
    decreases n,
{
    if n <= 0 {
        p
    } else {
        after_steps(p, n - 1).step(false).0
    }
}

/// A prefill clears its lane first. One that is not cancelled then runs every
/// prompt token once, in order, asks for the scores of the last one only, keeps
/// within its lane's mapping, and is then done.
pub proof fn law_prefill_runs_every_token_once(p: PrefillView, n: int)
    requires
        0 <= p.lane,
        p.reset is Some,
        p.next == 0,
        !p.cancelled,
        0 < p.prompt.len() < p.lane_capacity,
        (p.lane + 1) * p.lane_capacity <= usize::MAX,
        0 <= n <= p.prompt.len(),
    ensures
        p.step(false).1 == (PrefillStepView::Clear {
            kv: p.reset->Some_0.0,
            rows: p.reset->Some_0.1,
        }),
        after_steps(p, n + 1) == (PrefillView { reset: None, next: n, ..p }),
        n < p.prompt.len() ==> {
            let required = p.lane * p.lane_capacity + n + 1;
            &&& after_steps(p, n + 1).step(false).1 == (PrefillStepView::Token {
                pos: n as usize,
                token: p.prompt[n],
                required: required as usize,
                last: n == p.prompt.len() - 1,
            })
            &&& required <= (p.lane + 1) * p.lane_capacity
        },
        n == p.prompt.len() ==> after_steps(p, n + 1).step(false).1 == PrefillStepView::Done,
    decreases n,
{
    if n > 0 {
        law_prefill_runs_every_token_once(p, n - 1);
    } else {
        assert(after_steps(p, 0) == p);
        assert(after_steps(p, 1) == after_steps(p, 0).step(false).0);
    }
    assert((p.lane + 1) * p.lane_capacity == p.lane * p.lane_capacity + p.lane_capacity)
        by (nonlinear_arith);
}

/// No token runs before the lane is cleared.
pub proof fn law_lane_is_cleared_first(p: PrefillView, cancel: bool)
    requires
        p.reset is Some,
    ensures
        p.step(cancel).1 is Clear,
        p.step(cancel).0.reset is None,
{
}

/// Cancellation is final: once it was seen no token runs any more.
pub proof fn law_cancellation_is_final(p: PrefillView, cancel: bool)
    requires
        p.reset is None,
    ensures
        p.step(true).1 == PrefillStepView::Cancelled,
        p.step(true).0.step(cancel).1 == PrefillStepView::Cancelled,
{
}

// ---- Sampling the active lanes ----

/// Lane `lane` is active.
pub open spec fn is_active(mask: u64, lane: int) -> bool {
    (mask >> (lane as u64)) & 1 == 1
}

/// Active lanes below `lane`.
pub open spec fn active_before(mask: u64, lane: int) -> int
    decreases lane,
{
    if lane <= 0 {
        0
    } else {
        active_before(mask, lane - 1) + if is_active(mask, lane - 1) {
            1int
        } else {
            0
        }
    }
}

/// The lanes to sample, in order.
pub fn active_lanes(mask: u64, batch: usize) -> (r: Vec<usize>)
    requires
        batch <= MAX_LANES,
    ensures
        r@.len() == active_before(mask, batch as int),
        forall|lane: int|
            0 <= lane < batch && is_active(mask, lane) ==> #[trigger] active_before(mask, lane)
                < r@.len() && r@[active_before(mask, lane)] == lane,
{
    let mut out: Vec<usize> = Vec::new();
    let mut lane: usize = 0;
    while lane < batch
        invariant
            lane <= batch <= MAX_LANES,
            out@.len() == active_before(mask, lane as int),
            forall|l: int|
                0 <= l < lane && is_active(mask, l) ==> 0 <= #[trigger] active_before(mask, l)
                    < out@.len() && out@[active_before(mask, l)] == l,
        decreases batch - lane,
    {
        if (mask >> (lane as u64)) & 1 == 1 {
            out.push(lane);
        }
        lane = lane + 1;
    }
    out
}

/// `out` and `after` are what sampling makes of the lanes' random states `rng`,
/// with the token and new random state of each active lane in `results`, in
/// order.
pub open spec fn is_sampled(
    max_batch: usize,
    mask: u64,
    greedy: bool,
    rng: Seq<u32>,
    results: Seq<(u32, u32)>,
    out: Seq<Option<(u32, u32)>>,
    after: Seq<u32>,
) -> bool {
    &&& out.len() == max_batch
    &&& forall|lane: int|
        0 <= lane < max_batch ==> #[trigger] out[lane] == if is_active(mask, lane) {
            let res = results[active_before(mask, lane)];
            Some(
                (
                    res.0,
                    if greedy {
                        rng[lane]
                    } else {
                        res.1
                    },
                ),
            )
        } else {
            None
        }
    &&& after.len() == rng.len()
    &&& forall|lane: int|
        0 <= lane < rng.len() ==> #[trigger] after[lane] == if lane < max_batch && is_active(
            mask,
            lane,
        ) && !greedy {
            results[active_before(mask, lane)].1
        } else {
            rng[lane]
        }
}

fn hand_out_samples(
    max_batch: usize,
    active_mask: u64,
    greedy: bool,
    rng_states: &mut Vec<u32>,
    results: &[(u32, u32)],
) -> (r: Result<Vec<Option<(u32, u32)>>, String>)
    requires
        max_batch <= MAX_LANES,
        results@.len() >= active_before(active_mask, max_batch as int),
    ensures
        match r {
            Err(e) => {
                &&& old(rng_states)@.len() < max_batch
                &&& final(rng_states)@ == old(rng_states)@
                &&& e@ == "sample_product rng_states len "@ + decimal_text(
                    old(rng_states)@.len() as int,
                ) + " < max_batch "@ + decimal_text(max_batch as int)
            },
            Ok(out) => old(rng_states)@.len() >= max_batch && is_sampled(
                max_batch,
                active_mask,
                greedy,
                old(rng_states)@,
                results@,
                out@,
                final(rng_states)@,
            ),
        },
{
    if rng_states.len() < max_batch {
        let mut t: String = String::from_str("sample_product rng_states len ");
        append_decimal(&mut t, rng_states.len() as u64);
        t.append(" < max_batch ");
        append_decimal(&mut t, max_batch as u64);
        return Err(t);
    }
    let ghost rng0 = rng_states@;
    let mut out: Vec<Option<(u32, u32)>> = Vec::new();
    let mut lane: usize = 0;
    let mut next: usize = 0;
    while lane < max_batch
        invariant
            lane <= max_batch <= MAX_LANES,
            next == active_before(active_mask, lane as int),
            results@.len() >= active_before(active_mask, max_batch as int),
            rng0 == old(rng_states)@,
            rng_states@.len() == rng0.len(),
            rng0.len() >= max_batch,
            out@.len() == lane,
            forall|l: int|
                0 <= l < lane ==> #[trigger] out@[l] == if is_active(active_mask, l) {
                    let res = results@[active_before(active_mask, l)];
                    Some(
                        (
                            res.0,
                            if greedy {
                                rng0[l]
                            } else {
                                res.1
                            },
                        ),
                    )
                } else {
                    None
                },
            forall|l: int|
                0 <= l < rng0.len() ==> #[trigger] rng_states@[l] == if l < lane && is_active(
                    active_mask,
                    l,
                ) && !greedy {
                    results@[active_before(active_mask, l)].1
                } else {
                    rng0[l]
                },
        decreases max_batch - lane,
    {
        if (active_mask >> (lane as u64)) & 1 == 1 {
            proof {
                lemma_active_monotone(active_mask, lane + 1, max_batch as int);
                assert(results.len() == results@.len());
            }
            let res: (u32, u32) = results[next];
            if greedy {
                out.push(Some((res.0, rng_states[lane])));
            } else {
                out.push(Some((res.0, res.1)));
                rng_states[lane] = res.1;
            }
            next = next + 1;
        } else {
            out.push(None);
        }
        lane = lane + 1;
    }
    Ok(out)
}

proof fn lemma_active_monotone(mask: u64, a: int, b: int)
    requires
        0 <= a <= b,
    ensures
        active_before(mask, a) <= active_before(mask, b),
    decreases b - a,
{
    if a < b {
        lemma_active_monotone(mask, a, b - 1);
    }
}

/// Checks a lane before it is sampled on its own.
pub fn check_sample_lane(lane: usize, max_batch: usize) -> (r: Result<(), String>)
    ensures
        match r {
            Ok(_) => lane < max_batch,
            Err(e) => lane >= max_batch && e@ == "sample_lane_product lane "@ + decimal_text(
                lane as int,
            ) + " out of range"@,
        },
{
    if lane >= max_batch {
        let mut t: String = String::from_str("sample_lane_product lane ");
        append_decimal(&mut t, lane as u64);
        t.append(" out of range");
        Err(t)
    } else {
        Ok(())
    }
}

// ---- The batch ----

/// A decode batch: its shape and the sizes of its buffers.
pub struct GlimmerDecodeBatchState {
    pub config: GlimmerConfig,
    pub max_batch: usize,
    pub lane_capacity: usize,
    pub plan: BatchPlan,
}

/// Why a batch cannot be made, if it cannot: its shape, the local memory that
/// the device lacks for it, or its sizes, in this order.
pub open spec fn batch_refusal(
    c: GlimmerConfig,
    max_batch: usize,
    lane_capacity: usize,
    lds: Option<Seq<char>>,
) -> Option<Seq<char>> {
    match geometry_refusal(c, max_batch, lane_capacity) {
        Some(t) => Some(t),
        None => match lds {
            Some(e) => Some("glimmer batch: LDS check: "@ + e),
            None => size_refusal(c, max_batch, lane_capacity),
        },
    }
}

/// A part of the batch that is taken from the device on its own.
#[derive(Debug, Clone, Copy, PartialEq, Eq, Structural)]
pub enum BatchPart {
    SlidingKv,
    FullKv,
    Buffer(usize),
}

/// Part `i` in the order of taking.
pub open spec fn batch_part(i: int) -> BatchPart {
    if i == 0 {
        BatchPart::SlidingKv
    } else if i == 1 {
        BatchPart::FullKv
    } else {
        BatchPart::Buffer((i - 2) as usize)
    }
}

/// What goes back with `taken` parts taken.
pub open spec fn batch_rollback(taken: int) -> Seq<BatchPart> {
    Seq::new(
        if taken > 2 {
            (taken - 2) as nat
        } else {
            0
        },
        |i: int| BatchPart::Buffer(i as usize),
    ) + (if taken > 1 {
        seq![BatchPart::FullKv]
    } else {
        Seq::empty()
    }) + (if taken > 0 {
        seq![BatchPart::SlidingKv]
    } else {
        Seq::empty()
    })
}

/// A batch that cannot be completed leaves nothing behind: each part that was
/// taken goes back, and nothing goes back more than once or without having been
/// taken.
pub proof fn law_partial_batches_are_given_back(taken: int, i: int)
    requires
        0 <= i < taken <= usize::MAX,
    ensures
        batch_rollback(taken).contains(batch_part(i)),
        batch_rollback(taken).len() == taken,
{
    let r = batch_rollback(taken);
    if i >= 2 {
        assert(r[i - 2] == batch_part(i));
    } else if i == 1 {
        assert(r[r.len() - 2] == batch_part(i));
    } else {
        assert(r[r.len() - 1] == batch_part(i));
    }
}

impl GlimmerDecodeBatchState {
    /// The invariant: the shape is sound and the plan is that of the shape.
    pub open spec fn wf(&self) -> bool {
        &&& geometry_refusal(self.config, self.max_batch, self.lane_capacity) is None
        &&& size_refusal(self.config, self.max_batch, self.lane_capacity) is None
        &&& is_batch_plan(self.config, self.max_batch, self.lane_capacity, self.plan)
    }

    /// The bytes of all lanes' caches fit a machine word.
    pub open spec fn caches_fit(&self) -> bool {
        let c = self.config;
        &&& c.n_kv_heads * (c.head_dim as int / 32) <= usize::MAX
        &&& kv_token_bytes(c.n_kv_heads as int, c.head_dim as int) <= usize::MAX
        &&& self.max_batch * lane_kv_bytes(c, self.lane_capacity as int) <= usize::MAX
    }

    /// `kv` and `rows` are the lane's own part of the caches and its own row in
    /// every per-lane buffer.
    pub open spec fn clears_lane(&self, lane: int, kv: Span, rows: Seq<Span>) -> bool {
        let bytes = lane_kv_bytes(self.config, self.lane_capacity as int);
        &&& kv.offset == lane * bytes
        &&& kv.len == bytes
        &&& rows.len() == lane_buffers().len()
        &&& forall|i: int|
            0 <= i < rows.len() ==> {
                &&& (#[trigger] rows[i]).offset == lane * row_width(
                    self.config,
                    lane_buffers()[i].1,
                )
                &&& rows[i].len == row_width(self.config, lane_buffers()[i].1)
            }
    }

    /// Plans a batch. `lds` is why the device lacks the local memory that
    /// attention over a lane needs, if it does. Nothing has been taken from the
    /// device yet: [`part_to_take`](Self::part_to_take) says what is taken, and
    /// [`give_back`](Self::give_back) what goes back when something cannot be had.
    pub fn new(
        config: GlimmerConfig,
        max_batch: usize,
        lane_capacity: usize,
        lds: Option<&str>,
    ) -> (r: Result<GlimmerDecodeBatchState, String>)
        ensures
            ({
                let why = batch_refusal(
                    config,
                    max_batch,
                    lane_capacity,
                    match lds {
                        Some(e) => Some(e@),
                        None => None,
                    },
                );
                match r {
                    Ok(b) => {
                        &&& why is None
                        &&& b.wf()
                        &&& b.config == config
                        &&& b.max_batch == max_batch
                        &&& b.lane_capacity == lane_capacity
                    },
                    Err(e) => why == Some(e@),
                }
            }),
    {
        match check_batch_geometry(&config, max_batch, lane_capacity) {
            Ok(_) => {},
            Err(e) => {
                return Err(e);
            },
        }
        match lds {
            Some(e) => {
                let mut t: String = String::from_str("glimmer batch: LDS check: ");
                t.append(e);
                return Err(t);
            },
            None => {},
        }
        match plan_batch(&config, max_batch, lane_capacity) {
            Ok(plan) => Ok(GlimmerDecodeBatchState { config, max_batch, lane_capacity, plan }),
            Err(e) => Err(e),
        }
    }

    /// Parts of the batch: two caches, the per-lane buffers, the shared ones.
    pub open spec fn n_parts(&self) -> int {
        2 + self.plan.lane_buffers@.len() as int + self.plan.shared_buffers@.len()
    }

    /// The part to take after `taken` of them; `None` when the batch is whole.
    pub fn part_to_take(&self, taken: usize) -> (r: Option<BatchPart>)
        requires
            self.wf(),
        ensures
            r == if taken < self.n_parts() {
                Some(batch_part(taken as int))
            } else {
                None
            },
    {
        let lanes: usize = self.plan.lane_buffers.len();
        let shared: usize = self.plan.shared_buffers.len();
        if taken == 0 {
            Some(BatchPart::SlidingKv)
        } else if taken == 1 {
            Some(BatchPart::FullKv)
        } else if taken - 2 < lanes + shared {
            Some(BatchPart::Buffer(taken - 2))
        } else {
            None
        }
    }

    /// The plan of buffer `i`: the per-lane buffers first, then the shared ones.
    pub fn buffer(&self, i: usize) -> (r: Option<BufferPlan>)
        requires
            self.wf(),
        ensures
            r == if i < self.n_parts() - 2 {
                Some((self.plan.lane_buffers@ + self.plan.shared_buffers@)[i as int])
            } else {
                None
            },
    {
        let lanes: usize = self.plan.lane_buffers.len();
        if i < lanes {
            Some(self.plan.lane_buffers[i])
        } else if i - lanes < self.plan.shared_buffers.len() {
            Some(self.plan.shared_buffers[i - lanes])
        } else {
            None
        }
    }

    /// What goes back when the batch cannot be completed with `taken` of its
    /// parts taken: the buffers, then the full cache, then the sliding one.
    pub fn give_back(&self, taken: usize) -> (r: Vec<BatchPart>)
        requires
            self.wf(),
            taken <= self.n_parts(),
        ensures
            r@ == batch_rollback(taken as int),
    {
        let mut out: Vec<BatchPart> = Vec::new();
        let mut i: usize = 0;
        if taken > 2 {
            while i < taken - 2
                invariant
                    taken > 2,
                    i <= taken - 2,
                    out@ =~= Seq::new(i as nat, |i: int| BatchPart::Buffer(i as usize)),
                decreases taken - 2 - i,
            {
                out.push(BatchPart::Buffer(i));
                i = i + 1;
            }
        }
        if taken > 1 {
            out.push(BatchPart::FullKv);
        }
        if taken > 0 {
            out.push(BatchPart::SlidingKv);
        }
        assert(out@ =~= batch_rollback(taken as int));
        out
    }

    /// Why the batch failed when a part could not be had.
    pub fn part_failure(&self, part: BatchPart, error: &str) -> (r: String)
        requires
            self.wf(),
            part is Buffer ==> part->Buffer_0 < self.n_parts() - 2,
        ensures
            r@ == match part {
                BatchPart::SlidingKv => "glimmer batch: sliding kv: "@ + error@,
                BatchPart::FullKv => "glimmer batch: full kv: "@ + error@,
                BatchPart::Buffer(i) => "glimmer batch: alloc "@ + (self.plan.lane_buffers@
                    + self.plan.shared_buffers@)[i as int].label@ + ": "@ + error@,
            },
    {
        match part {
            BatchPart::SlidingKv => join2("glimmer batch: sliding kv: ", error),
            BatchPart::FullKv => join2("glimmer batch: full kv: ", error),
            BatchPart::Buffer(i) => {
                let mut t: String = String::from_str("glimmer batch: alloc ");
                match self.buffer(i) {
                    Some(b) => t.append(b.label),
                    None => {},
                }
                t.append(": ");
                t.append(error);
                t
            },
        }
    }

    /// The buffers that clearing the whole batch zeroes, beside the caches: the
    /// per-lane ones and the shared scratch, not the constant ones.
    pub fn reset(&self) -> (r: Vec<BufferPlan>)
        requires
            self.wf(),
        ensures
            r@ == self.plan.lane_buffers@ + self.plan.shared_buffers@.take(2),
    {
        let mut out: Vec<BufferPlan> = Vec::new();
        let mut i: usize = 0;
        while i < self.plan.lane_buffers.len()
            invariant
                i <= self.plan.lane_buffers@.len(),
                out@ =~= self.plan.lane_buffers@.take(i as int),
            decreases self.plan.lane_buffers@.len() - i,
        {
            out.push(self.plan.lane_buffers[i]);
            i = i + 1;
        }
        out.push(self.plan.shared_buffers[0]);
        out.push(self.plan.shared_buffers[1]);
        assert(out@ =~= self.plan.lane_buffers@ + self.plan.shared_buffers@.take(2));
        out
    }

    /// What clearing one lane zeroes: its part of the caches and its rows, and
    /// nothing of the other lanes.
    pub fn reset_lane(&self, lane: usize) -> (r: Result<LaneReset, String>)
        requires
            self.wf(),
            self.caches_fit(),
        ensures
            match r {
                Ok(z) => lane < self.max_batch && self.clears_lane(lane as int, z.kv, z.rows@),
                Err(e) => lane >= self.max_batch && e@ == "glimmer batch reset_lane: lane "@
                    + decimal_text(lane as int) + " >= max_batch "@ + decimal_text(
                    self.max_batch as int,
                ),
            },
    {
        proof {
            let bytes = lane_kv_bytes(self.config, self.lane_capacity as int);
            let tokens = kv_token_bytes(
                self.config.n_kv_heads as int,
                self.config.head_dim as int,
            );
            let blocks = self.config.head_dim as int / 32;
            assert(0 <= self.config.n_kv_heads * blocks) by (nonlinear_arith)
                requires
                    0 <= blocks,
                    0 <= self.config.n_kv_heads,
            ;
            assert(0 <= bytes) by (nonlinear_arith)
                requires
                    bytes == self.lane_capacity * tokens,
                    0 <= self.lane_capacity,
                    0 <= tokens,
            ;
            assert(bytes <= self.max_batch * bytes) by (nonlinear_arith)
                requires
                    1 <= self.max_batch,
                    0 <= bytes,
            ;
            if lane < self.max_batch {
                assert((lane + 1) * bytes <= self.max_batch * bytes) by (nonlinear_arith)
                    requires
                        lane + 1 <= self.max_batch,
                        0 <= bytes,
                ;
            }
        }
        match lane_kv_span(&self.config, self.max_batch, self.lane_capacity, lane) {
            Ok(kv) => {
                assert(size_refusal(self.config, self.max_batch, 0) is None) by {
                    assert(self.max_batch * 0 == 0) by (nonlinear_arith);
                }
                let rows: Vec<Span> = lane_rows(&self.config, self.max_batch, lane);
                Ok(LaneReset { kv, rows })
            },
            Err(e) => Err(e),
        }
    }

    /// Starts prefilling a prompt into a lane: the first step clears the lane.
    /// Whether cancellation has been asked for is handed to each step.
    pub fn prefill_lane_cancellable(
        &self,
        weights: &WeightFormats,
        lane: usize,
        prompt: Vec<u32>,
    ) -> (r: Result<LanePrefill, String>)
        requires
            self.wf(),
            self.caches_fit(),
        ensures
            match r {
                Ok(p) => {
                    &&& p.wf()
                    &&& prefill_refusal(
                        lane,
                        self.max_batch,
                        prompt.len(),
                        self.lane_capacity,
                    ) is None
                    &&& formats_refusal(*weights) is None
                    &&& p@.lane == lane
                    &&& p@.lane_capacity == self.lane_capacity
                    &&& p@.prompt == prompt@
                    &&& p@.next == 0
                    &&& !p@.cancelled
                    &&& p@.reset is Some
                    &&& self.clears_lane(lane as int, p@.reset->Some_0.0, p@.reset->Some_0.1)
                },
                Err(e) => match prefill_refusal(
                    lane,
                    self.max_batch,
                    prompt.len(),
                    self.lane_capacity,
                ) {
                    Some(t) => e@ == t,
                    None => formats_refusal(*weights) == Some(e@),
                },
            },
    {
        if lane >= self.max_batch {
            let mut t: String = String::from_str("glimmer prefill_lane: lane ");
            append_decimal(&mut t, lane as u64);
            t.append(" >= max_batch ");
            append_decimal(&mut t, self.max_batch as u64);
            return Err(t);
        }
        if prompt.len() == 0 {
            return Err(String::from_str("glimmer prefill_lane: prompt is empty"));
        }
        if prompt.len() >= self.lane_capacity {
            let mut t: String = String::from_str("glimmer prefill_lane: prompt len ");
            append_decimal(&mut t, prompt.len() as u64);
            t.append(" leaves no decode capacity (lane_capacity ");
            append_decimal(&mut t, self.lane_capacity as u64);
            t.append(")");
            return Err(t);
        }
        match batch_weight_formats_supported(weights) {
            Ok(_) => {},
            Err(e) => {
                return Err(e);
            },
        }
        assert((lane + 1) * self.lane_capacity <= self.max_batch * self.lane_capacity)
            by (nonlinear_arith)
            requires
                lane < self.max_batch,
                0 <= self.lane_capacity,
        ;
        match self.reset_lane(lane) {
            Ok(z) => Ok(
                LanePrefill {
                    lane,
                    lane_capacity: self.lane_capacity,
                    prompt,
                    reset: Some(z),
                    next: 0,
                    cancelled: false,
                },
            ),
            Err(e) => Err(e),
        }
    }

    /// Hands the sampled tokens to their lanes. `results` holds token and new
    /// random state of the active lanes in order. An inactive lane gets nothing
    /// and its random state is not advanced; a greedy pick leaves the random
    /// state of its lane as it is.
    pub fn sample_product(
        &self,
        active_mask: u64,
        greedy: bool,
        rng_states: &mut Vec<u32>,
        results: &[(u32, u32)],
    ) -> (r: Result<Vec<Option<(u32, u32)>>, String>)
        requires
            self.wf(),
            results@.len() >= active_before(active_mask, self.max_batch as int),
        ensures
            match r {
                Err(e) => {
                    &&& old(rng_states)@.len() < self.max_batch
                    &&& final(rng_states)@ == old(rng_states)@
                    &&& e@ == "sample_product rng_states len "@ + decimal_text(
                        old(rng_states)@.len() as int,
                    ) + " < max_batch "@ + decimal_text(self.max_batch as int)
                },
                Ok(out) => old(rng_states)@.len() >= self.max_batch && is_sampled(
                    self.max_batch,
                    active_mask,
                    greedy,
                    old(rng_states)@,
                    results@,
                    out@,
                    final(rng_states)@,
                ),
            },
    {
        hand_out_samples(self.max_batch, active_mask, greedy, rng_states, results)
    }

    /// The scores of a lane that is to be sampled on its own.
    pub fn sample_lane_product(&self, lane: usize) -> (r: Result<Span, String>)
        requires
            self.wf(),
        ensures
            match r {
                Ok(s) => {
                    &&& lane < self.max_batch
                    &&& s.offset == lane * self.config.vocab_size
                    &&& s.len == self.config.vocab_size
                },
                Err(e) => lane >= self.max_batch && e@ == "sample_lane_product lane "@
                    + decimal_text(lane as int) + " out of range"@,
            },
    {
        match check_sample_lane(lane, self.max_batch) {
            Ok(_) => {
                assert(lane * self.config.vocab_size <= self.max_batch * self.config.vocab_size)
                    by (nonlinear_arith)
                    requires
                        lane < self.max_batch,
                        0 <= self.config.vocab_size,
                ;
                Ok(lane_span(lane, self.config.vocab_size))
            },
            Err(e) => Err(e),
        }
    }
}

/// Clearing one lane leaves the others alone: their parts of the caches and of
/// every buffer do not meet its own.
pub proof fn law_reset_leaves_other_lanes(b: GlimmerDecodeBatchState, lane: int, other: int, i: int)
    requires
        b.wf(),
        b.caches_fit(),
        0 <= lane < b.max_batch,
        0 <= other < b.max_batch,
        lane != other,
        0 <= i < lane_buffers().len(),
    ensures
        ({
            let bytes = lane_kv_bytes(b.config, b.lane_capacity as int);
            let width = row_width(b.config, lane_buffers()[i].1);
            &&& lane * bytes + bytes <= other * bytes || other * bytes + bytes <= lane * bytes
            &&& lane * width + width <= other * width || other * width + width <= lane * width
        }),
{
    let bytes = lane_kv_bytes(b.config, b.lane_capacity as int);
    let tokens = kv_token_bytes(b.config.n_kv_heads as int, b.config.head_dim as int);
    let blocks = b.config.head_dim as int / 32;
    assert(0 <= b.config.n_kv_heads * blocks) by (nonlinear_arith)
        requires
            0 <= blocks,
            0 <= b.config.n_kv_heads,
    ;
    assert(0 <= bytes) by (nonlinear_arith)
        requires
            bytes == b.lane_capacity * tokens,
            0 <= b.lane_capacity,
            0 <= tokens,
    ;
    let width = row_width(b.config, lane_buffers()[i].1);
    if lane < other {
        law_lanes_are_disjoint(lane, other, b.max_batch as int, bytes);
        law_lanes_are_disjoint(lane, other, b.max_batch as int, width);
    } else {
        law_lanes_are_disjoint(other, lane, b.max_batch as int, bytes);
        law_lanes_are_disjoint(other, lane, b.max_batch as int, width);
    }
}

// ---- Laws of formats, shapes and lanes ----

/// A projection of this storage type runs batched.
pub open spec fn runs_batched(p: Projection) -> bool {
    let d = p.dtype@;
    d == "Q8_0"@ || d == "MQ4G256"@ || d == "HFQ4G256"@ || d == "MQ6G256"@ || d == "F32"@ || d
        == "BF16"@
}

/// Every projection of the layer runs batched, and those that share an input
/// share its rotation.
pub open spec fn layer_runs_batched(l: LayerFormats) -> bool {
    &&& runs_batched(l.q_proj) && runs_batched(l.k_proj) && runs_batched(l.v_proj)
        && runs_batched(l.attn_gate_proj)
    &&& runs_batched(l.gate_proj) && runs_batched(l.up_proj) && runs_batched(l.o_proj)
        && runs_batched(l.down_proj)
    &&& l.q_proj.plan@ == l.k_proj.plan@ && l.q_proj.plan@ == l.v_proj.plan@ && l.q_proj.plan@
        == l.attn_gate_proj.plan@
    &&& l.gate_proj.plan@ == l.up_proj.plan@
}

proof fn lemma_layers_refusal(layers: Seq<LayerFormats>, i: int)
    requires
        0 <= i <= layers.len(),
    ensures
        layers_refusal(layers, i) is None <==> forall|k: int|
            i <= k < layers.len() ==> layer_runs_batched(#[trigger] layers[k]),
    decreases layers.len() - i,
{
    if i < layers.len() {
        lemma_layers_refusal(layers, i + 1);
        assert(layer_refusal(layers[i], i) is None <==> layer_runs_batched(layers[i]));
    }
}

/// A model runs batched exactly where every part of it does: its embedding, its
/// output projection, and each projection of each layer.
pub proof fn law_models_run_batched_whole(w: WeightFormats)
    ensures
        formats_refusal(w) is None <==> {
            &&& w.embd_format != EmbeddingFormat::Q4K
            &&& w.lm_head@ == "Q8_0"@ || w.lm_head@ == "F32"@ || w.lm_head@ == "BF16"@
            &&& forall|k: int|
                0 <= k < w.layers@.len() ==> layer_runs_batched(#[trigger] w.layers@[k])
        },
{
    lemma_layers_refusal(w.layers@, 0);
}

/// A batch has one to sixty-four lanes with room, over a model that has every
/// dimension, whole groups of heads and whole blocks of 32 elements.
pub proof fn law_sound_shapes_pass(c: GlimmerConfig, max_batch: usize, lane_capacity: usize, g: int)
    requires
        c.n_kv_heads > 0 ==> c.n_heads == g * c.n_kv_heads,
    ensures
        geometry_refusal(c, max_batch, lane_capacity) is None <==> {
            &&& 1 <= max_batch <= 64
            &&& lane_capacity >= 1
            &&& c.n_heads > 0 && c.n_kv_heads > 0 && c.head_dim > 0 && c.dim > 0 && c.hidden_dim
                > 0 && c.vocab_size > 0 && c.n_layers > 0
            &&& c.head_dim as int % 32 == 0
        },
{
    if c.n_kv_heads > 0 {
        vstd::arithmetic::div_mod::lemma_fundamental_div_mod_converse(
            c.n_heads as int,
            c.n_kv_heads as int,
            g,
            0,
        );
    }
}

/// Heads that do not divide into groups are refused.
pub proof fn law_uneven_heads_are_refused(
    c: GlimmerConfig,
    max_batch: usize,
    lane_capacity: usize,
    g: int,
    rest: int,
)
    requires
        c.n_heads == g * c.n_kv_heads + rest,
        0 < rest < c.n_kv_heads,
    ensures
        geometry_refusal(c, max_batch, lane_capacity) is Some,
{
    vstd::arithmetic::div_mod::lemma_fundamental_div_mod_converse(
        c.n_heads as int,
        c.n_kv_heads as int,
        g,
        rest,
    );
}

/// A batch is refused for its size exactly where one of its buffers would not fit
/// a machine word.
pub proof fn law_sizes_that_fit_pass(c: GlimmerConfig, max_batch: usize, lane_capacity: usize)
    ensures
        size_refusal(c, max_batch, lane_capacity) is None <==> {
            &&& max_batch * lane_capacity <= usize::MAX
            &&& max_batch * c.dim <= usize::MAX
            &&& max_batch * c.q_dim <= usize::MAX
            &&& max_batch * c.kv_dim <= usize::MAX
            &&& max_batch * c.hidden_dim <= usize::MAX
            &&& max_batch * c.vocab_size <= usize::MAX
        },
{
}

/// A shape's fault comes before the device's, and the device's before the sizes'.
pub proof fn law_shapes_are_refused_first(
    c: GlimmerConfig,
    max_batch: usize,
    lane_capacity: usize,
    lds: Option<Seq<char>>,
)
    ensures
        batch_refusal(c, max_batch, lane_capacity, lds) is None <==> geometry_refusal(
            c,
            max_batch,
            lane_capacity,
        ) is None && lds is None && size_refusal(c, max_batch, lane_capacity) is None,
        geometry_refusal(c, max_batch, lane_capacity) is Some ==> batch_refusal(
            c,
            max_batch,
            lane_capacity,
            lds,
        ) == geometry_refusal(c, max_batch, lane_capacity),
        geometry_refusal(c, max_batch, lane_capacity) is None && lds is Some ==> batch_refusal(
            c,
            max_batch,
            lane_capacity,
            lds,
        ) == Some("glimmer batch: LDS check: "@ + lds->Some_0),
{
}

proof fn lemma_kinds_add_up(t: Seq<GlimmerLayerType>, n: int)
    requires
        0 <= n <= t.len(),
    ensures
        kind_count(t, GlimmerLayerType::Sliding, n) + kind_count(t, GlimmerLayerType::Full, n)
            == n,
        0 <= kind_count(t, GlimmerLayerType::Sliding, n),
        0 <= kind_count(t, GlimmerLayerType::Full, n),
    decreases n,
{
    if n > 0 {
        lemma_kinds_add_up(t, n - 1);
    }
}

/// Every layer has a cache of its kind, and there are no others: the caches of
/// both kinds are as many as the layers.
pub proof fn law_every_layer_has_a_cache(
    c: GlimmerConfig,
    max_batch: usize,
    lane_capacity: usize,
    p: BatchPlan,
    i: int,
)
    requires
        is_batch_plan(c, max_batch, lane_capacity, p),
        0 <= i < c.layer_types@.len(),
    ensures
        p.n_sliding + p.n_full == c.layer_types@.len(),
        p.kv_slot_for_layer@.len() == c.layer_types@.len(),
        c.layer_types@[i] == GlimmerLayerType::Sliding ==> p.kv_slot_for_layer@[i] < p.n_sliding,
        c.layer_types@[i] == GlimmerLayerType::Full ==> p.kv_slot_for_layer@[i] < p.n_full,
        p.total_capacity == max_batch * lane_capacity,
{
    let t = c.layer_types@;
    lemma_kinds_add_up(t, t.len() as int);
    lemma_kind_monotone(t, t[i], i + 1, t.len() as int);
    assert(p.kv_slot_for_layer@[i] == kind_count(t, t[i], i));
}

/// Each per-lane buffer has a row for every lane, as wide as what it holds.
pub proof fn law_buffers_have_a_row_per_lane(
    c: GlimmerConfig,
    max_batch: usize,
    lane_capacity: usize,
    p: BatchPlan,
    i: int,
)
    requires
        is_batch_plan(c, max_batch, lane_capacity, p),
        0 <= i < p.lane_buffers@.len(),
    ensures
        ({
            let b = p.lane_buffers@[i];
            let l = b.label@;
            &&& i <= 3 || i == 9 || i == 10 || i == 14 || i == 16 ==> b.len == max_batch * c.dim
            &&& i == 4 || i == 7 || i == 8 ==> b.len == max_batch * c.q_dim
            &&& i == 5 || i == 6 ==> b.len == max_batch * c.kv_dim
            &&& 11 <= i <= 13 || i == 15 || i == 22 ==> b.len == max_batch * c.hidden_dim
            &&& i == 0 ==> l == "x_batch"@
            &&& i == 4 ==> l == "q_batch"@
            &&& i == 5 ==> l == "k_batch"@
            &&& i == 6 ==> l == "v_batch"@
            &&& i == 17 ==> l == "logits"@ && b.len == max_batch * c.vocab_size
            &&& i == 18 ==> l == "sample_out"@ && b.len == max_batch * 2
            &&& i == 20 ==> l == "positions"@ && b.len == max_batch
            &&& i == 21 ==> l == "tokens"@ && b.len == max_batch
            &&& b.half <==> i == 22
        }),
        p.lane_buffers@.len() == 23,
{
    assert(p.lane_buffers@[i].label@ == lane_buffers()[i].0);
    assert(max_batch * 1 == max_batch);
}

/// A token's keys take 34 bytes for every 32 of their elements.
pub proof fn law_blocks_of_32_take_34_bytes(n_kv_heads: int, blocks: int)
    ensures
        kv_token_bytes(n_kv_heads, 32 * blocks) == n_kv_heads * blocks * 34,
{
    assert((32 * blocks) / 32 == blocks);
}

/// A prompt is taken exactly where the lane exists, the prompt has tokens, and
/// room for at least one more is left behind it.
pub proof fn law_prompts_that_leave_room_are_taken(
    lane: usize,
    max_batch: usize,
    prompt_len: usize,
    lane_capacity: usize,
)
    ensures
        prefill_refusal(lane, max_batch, prompt_len, lane_capacity) is None <==> lane < max_batch
            && 0 < prompt_len < lane_capacity,
{
}

/// A prefill that is not cancelled makes progress with every step until it is
/// done.
pub proof fn law_prefills_make_progress(p: PrefillView)
    requires
        p.reset is None,
        !p.cancelled,
        0 <= p.next <= p.prompt.len(),
    ensures
        p.next < p.prompt.len() ==> p.step(false).1 is Token && p.step(false).0.next == p.next + 1
            && p.step(false).1->token == p.prompt[p.next] && (p.step(false).1->last <==> p.next
            == p.prompt.len() - 1),
        p.next == p.prompt.len() ==> p.step(false).1 is Done,
        p.step(false).0.prompt == p.prompt,
{
}

proof fn lemma_active_grows(mask: u64, a: int, b: int)
    requires
        0 <= a <= b,
    ensures
        0 <= active_before(mask, a) <= active_before(mask, b),
        a < b && is_active(mask, a) ==> active_before(mask, a) < active_before(mask, b),
    decreases b,
{
    if a < b {
        lemma_active_grows(mask, a, b - 1);
    } else if a > 0 {
        lemma_active_grows(mask, a - 1, a - 1);
    }
}

/// Samples go to the active lanes in order, one each: lanes that are not active
/// get nothing and keep their random state, and greedy picks leave every random
/// state alone.
pub proof fn law_samples_go_to_the_active_lanes(
    max_batch: usize,
    mask: u64,
    greedy: bool,
    rng: Seq<u32>,
    results: Seq<(u32, u32)>,
    out: Seq<Option<(u32, u32)>>,
    after: Seq<u32>,
    a: int,
    b: int,
)
    requires
        is_sampled(max_batch, mask, greedy, rng, results, out, after),
        max_batch <= rng.len(),
        0 <= a < b < max_batch,
        results.len() >= active_before(mask, max_batch as int),
    ensures
        out.len() == max_batch,
        out[a] is Some <==> is_active(mask, a),
        !is_active(mask, a) || greedy ==> after[a] == rng[a],
        is_active(mask, a) ==> exists|i: int|
            0 <= i < results.len() && out[a]->Some_0.0 == (#[trigger] results[i]).0 && (!greedy
                ==> after[a] == results[i].1 && out[a]->Some_0.1 == results[i].1) && (greedy
                ==> out[a]->Some_0.1 == rng[a]),
        is_active(mask, a) && is_active(mask, b) ==> exists|i: int, j: int|
            0 <= i < j < results.len() && out[a]->Some_0.0 == (#[trigger] results[i]).0
                && out[b]->Some_0.0 == (#[trigger] results[j]).0,
{
    lemma_active_grows(mask, a, b);
    lemma_active_grows(mask, b, max_batch as int);
    lemma_active_grows(mask, a, max_batch as int);
    assert(out[a] is Some <==> is_active(mask, a));
    assert(out[b] is Some <==> is_active(mask, b));
    let i = active_before(mask, a);
    let j = active_before(mask, b);
    if is_active(mask, a) {
        assert(out[a]->Some_0.0 == results[i].0);
        assert(after[a] == if !greedy {
            results[i].1
        } else {
            rng[a]
        });
        if is_active(mask, b) {
            assert(out[b]->Some_0.0 == results[j].0);
        }
    }
}

/// Where every lane is active, lane `k` gets sample `k`.
pub proof fn law_full_batches_are_sampled_lane_by_lane(
    max_batch: usize,
    mask: u64,
    greedy: bool,
    rng: Seq<u32>,
    results: Seq<(u32, u32)>,
    out: Seq<Option<(u32, u32)>>,
    after: Seq<u32>,
    k: int,
)
    requires
        is_sampled(max_batch, mask, greedy, rng, results, out, after),
        forall|l: int| 0 <= l < max_batch ==> #[trigger] is_active(mask, l),
        0 <= k < max_batch,
    ensures
        out[k] is Some,
        out[k]->Some_0.0 == results[k].0,
{
    lemma_all_active(mask, k);
    assert(is_active(mask, k));
}

proof fn lemma_all_active(mask: u64, k: int)
    requires
        0 <= k,
        forall|l: int| 0 <= l < k ==> #[trigger] is_active(mask, l),
    ensures
        active_before(mask, k) == k,
    decreases k,
{
    if k > 0 {
        lemma_all_active(mask, k - 1);
        assert(is_active(mask, k - 1));
    }
}

/// A reset clears the whole of a lane: its part of the caches begins where that of
/// the lane before ends and holds every token the lane can, and its row in every
/// buffer is as wide as the buffer has room for each lane.
pub proof fn law_resets_clear_the_whole_lane(
    b: GlimmerDecodeBatchState,
    lane: int,
    kv: Span,
    rows: Seq<Span>,
    i: int,
)
    requires
        b.wf(),
        0 <= lane < b.max_batch,
        b.clears_lane(lane, kv, rows),
        0 <= i < b.plan.lane_buffers@.len(),
    ensures
        ({
            let bytes = b.lane_capacity * (b.config.n_kv_heads * (b.config.head_dim as int / 32)
                * 34);
            &&& kv.offset == lane * bytes
            &&& kv.offset + kv.len == (lane + 1) * bytes
            &&& rows.len() == b.plan.lane_buffers@.len()
            &&& rows[i].offset == lane * rows[i].len
            &&& rows[i].len * b.max_batch == b.plan.lane_buffers@[i].len
        }),
{
    let bytes = lane_kv_bytes(b.config, b.lane_capacity as int);
    assert((lane + 1) * bytes == lane * bytes + bytes) by (nonlinear_arith);
    assert(b.plan.lane_buffers@[i].len == b.max_batch * row_width(
        b.config,
        lane_buffers()[i].1,
    ));
    let w = row_width(b.config, lane_buffers()[i].1);
    assert(w * b.max_batch == b.max_batch * w) by (nonlinear_arith);
    assert(rows[i].len == w);
}

} // verus!
