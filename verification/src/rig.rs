//! Sizing and identity of the serving rig, computed before any device memory is
//! taken.

use crate::policy::REPEAT_WINDOW_MAX;
use crate::scheduler::{greatest, least};
use crate::serve_contract::{
    ArchPolicy, CacheDomain, DeviceTopology, DomainView, KvLayout, SharingNamespace,
    TemplateIdentity, TokenizerIdentity, PAGE_TOKENS,
};
use crate::text::{
    append_decimal, chars_of, decimal_text, parse_u64, same_text, trim_range, trimmed,
    unsigned_value,
};
use vstd::prelude::*;
use vstd::string::StringExecFns;

verus! {

/// What an engine is started with.
#[derive(Debug, Clone)]
pub struct EngineConfig {
    pub model_path: String,
    pub n_slots: usize,
    pub cap_tokens: usize,
    /// Prefill tokens taken from one slot per step. Bounds the batch scratch
    /// and keeps a long prompt from blocking other slots.
    pub prefill_chunk: usize,
    pub host_budget_bytes: u64,
    pub swap_dir: String,
    /// True when the model has vision support, inline or in a sidecar.
    pub is_vl: bool,
    /// Standalone file with only vision tower tensors.
    pub vl_path: Option<String>,
    /// Speculative decode depth (candidates per cycle). 0 means off.
    pub mtp_k: usize,
    /// Cache mode from the load request. Empty means the configured one.
    pub kv_mode_raw: String,
    /// Cross-session prefix cache. Requires a paged cache.
    pub prefix_cache: bool,
    /// Most device bytes of the checkpoint pool.
    pub prefix_cache_max_bytes: u64,
    /// Rows that one step may carry: prefill, decode and verify together.
    pub max_batch_tokens: usize,
    /// Least prompt rows of one prefilling slot per step.
    pub prefill_min_tokens: usize,
    /// Most queued requests of the waiting room.
    pub wait_max_count: usize,
    /// Most queued bytes of the waiting room.
    pub wait_max_bytes: u64,
    /// Ticks after which a waiter expires.
    pub wait_timeout_ticks: u64,
    /// Commit provably forced tokens of a constrained request unsampled.
    pub structured_jump_forward: bool,
}

/// Storage tier of the key and value cache.
#[derive(Debug, Clone, Copy, PartialEq, Eq, Structural)]
pub enum KvMode {
    Q8,
    Asym2,
    Asym3,
    Asym4,
    Fwht2,
    Fwht3,
    Fwht4,
    Bf16,
    /// Placeholder that must be resolved before a rig is built.
    Asym3Auto,
}

/// Developer settings that shape the cache, as raw text.
#[derive(Debug, Clone)]
pub struct PagingVars {
    /// Whether the cache is paged.
    pub slots_paged: Option<String>,
    /// Physical page count of a paged cache.
    pub slots_paged_pages: Option<String>,
    /// Whether image requests run on the sequential path.
    pub vl_sequential: Option<String>,
}

/// Facts of the model and the resolved cache tier.
#[derive(Debug, Clone, Copy, PartialEq, Eq, Structural)]
pub struct RigShape {
    pub n_fa_layers: usize,
    pub k_bytes_per_pos: usize,
    pub v_bytes_per_pos: usize,
    pub weight_bytes: u64,
}

/// Sizes of the rig.
#[derive(Debug, Clone, Copy, PartialEq, Eq, Structural)]
pub struct RigPlan {
    pub prefill_chunk: usize,
    /// Rows that the batch scratch holds.
    pub max_batch: usize,
    /// Physical pages of a paged cache; `None` for fixed slabs.
    pub paged_pages: Option<usize>,
    pub kv_pages: usize,
    pub kv_bytes: u64,
    /// Device bytes to admit: weights, cache, and headroom.
    pub planned_bytes: u64,
    pub vl_sequential: bool,
    pub max_batch_tokens: usize,
    pub prefill_min_tokens: usize,
}

/// Headroom on top of weights and cache: 768 MiB.
pub const RIG_HEADROOM_BYTES: u64 = 805306368;

/// `a` divided by `b`, rounded up.
pub open spec fn ceil_div(a: int, b: int) -> int {
    (a + b - 1) / b
}

/// A developer switch is on.
pub open spec fn switched_on(v: Option<Seq<char>>) -> bool {
    v == Some("1"@) || v == Some("on"@) || v == Some("true"@)
}

pub open spec fn text_of(v: Option<String>) -> Option<Seq<char>> {
    match v {
        Some(s) => Some(s@),
        None => None,
    }
}

/// A machine-word number in a developer setting, white space around it ignored.
pub open spec fn page_setting(v: Option<Seq<char>>) -> Option<int> {
    match v {
        Some(s) => match unsigned_value(trimmed(s)) {
            Some(n) => if n <= usize::MAX {
                Some(n)
            } else {
                None
            },
            None => None,
        },
        None => None,
    }
}

impl EngineConfig {
    /// Prompt rows of a slot per step: the configured number, at least 1 and at
    /// most what a slot can hold.
    pub open spec fn chunk(&self) -> int {
        least(greatest(self.prefill_chunk as int, 1), greatest(self.cap_tokens as int, 1))
    }

    /// Most rows of a step: per slot, a prompt chunk or a verify block.
    pub open spec fn batch_rows(&self) -> int {
        greatest(
            greatest(self.chunk(), self.mtp_k + 1) * self.n_slots,
            self.n_slots as int,
        )
    }

    /// Pages of all slots at full capacity.
    pub open spec fn slab_pages(&self) -> int {
        self.n_slots * ceil_div(self.cap_tokens as int, PAGE_TOKENS as int)
    }

    /// Physical pages of a paged cache; `None` for fixed slabs.
    pub open spec fn pages(&self, vars: PagingVars) -> Option<int> {
        let count = match page_setting(text_of(vars.slots_paged_pages)) {
            Some(n) => n,
            None => self.slab_pages(),
        };
        if self.prefix_cache {
            Some(count)
        } else if switched_on(text_of(vars.slots_paged)) && !(self.is_vl && switched_on(
            text_of(vars.vl_sequential),
        )) {
            Some(count)
        } else {
            None
        }
    }
}

/// The plan's numbers before they are cut to machine words.
pub struct PlanNumbers {
    pub chunk: int,
    pub batch: int,
    pub pages: Option<int>,
    pub kv_pages: int,
    pub kv_bytes: int,
    pub planned: int,
}

pub open spec fn plan_numbers(cfg: EngineConfig, vars: PagingVars, shape: RigShape) -> PlanNumbers {
    let pages = cfg.pages(vars);
    let kv_pages = match pages {
        Some(n) => n,
        None => cfg.slab_pages(),
    };
    let kv_bytes = shape.n_fa_layers * kv_pages * PAGE_TOKENS * (shape.k_bytes_per_pos
        + shape.v_bytes_per_pos);
    PlanNumbers {
        chunk: cfg.chunk(),
        batch: cfg.batch_rows(),
        pages,
        kv_pages,
        kv_bytes,
        planned: shape.weight_bytes + kv_bytes + RIG_HEADROOM_BYTES,
    }
}

/// The plan's sizes are machine words.
pub open spec fn plan_fits(cfg: EngineConfig, vars: PagingVars, shape: RigShape) -> bool {
    let p = plan_numbers(cfg, vars, shape);
    &&& cfg.mtp_k + 1 <= usize::MAX
    &&& p.batch <= usize::MAX
    &&& cfg.slab_pages() * PAGE_TOKENS <= usize::MAX
    &&& cfg.cap_tokens + PAGE_TOKENS <= usize::MAX
    &&& shape.n_fa_layers * p.kv_pages <= u64::MAX
    &&& shape.n_fa_layers * p.kv_pages * PAGE_TOKENS <= u64::MAX
    &&& shape.k_bytes_per_pos + shape.v_bytes_per_pos <= u64::MAX
    &&& p.planned <= u64::MAX
}

fn is_on(v: &Option<String>) -> (r: bool)
    ensures
        r == switched_on(text_of(*v)),
{
    match v {
        Some(s) => {
            same_text(s.as_str(), "1") || same_text(s.as_str(), "on") || same_text(
                s.as_str(),
                "true",
            )
        },
        None => false,
    }
}

fn page_count(v: &Option<String>) -> (r: Option<usize>)
    ensures
        match r {
            Some(n) => page_setting(text_of(*v)) == Some(n as int),
            None => page_setting(text_of(*v)) is None,
        },
{
    match v {
        Some(s) => {
            let chars: Vec<char> = chars_of(s.as_str());
            let (a, b): (usize, usize) = trim_range(&chars, 0, chars.len());
            assert(chars@.subrange(0, chars@.len() as int) =~= chars@);
            match parse_u64(&chars, a, b) {
                Some(n) => if n <= usize::MAX as u64 {
                    Some(n as usize)
                } else {
                    None
                },
                None => None,
            }
        },
        None => None,
    }
}

/// Plans the rig's sizes. A prefix cache forces a paged cache, because pages
/// are shared across sessions; otherwise paging is a developer switch, refused
/// when image requests need contiguous slots.
pub fn plan_rig(cfg: &EngineConfig, vars: &PagingVars, shape: &RigShape) -> (r: RigPlan)
    requires
        plan_fits(*cfg, *vars, *shape),
    ensures
        ({
            let p = plan_numbers(*cfg, *vars, *shape);
            &&& r.prefill_chunk == p.chunk
            &&& r.max_batch == p.batch
            &&& match r.paged_pages {
                Some(n) => p.pages == Some(n as int),
                None => p.pages is None,
            }
            &&& r.kv_pages == p.kv_pages
            &&& r.kv_bytes == p.kv_bytes
            &&& r.planned_bytes == p.planned
            &&& r.vl_sequential == switched_on(text_of(vars.vl_sequential))
            &&& r.max_batch_tokens == greatest(cfg.max_batch_tokens as int, 1)
            &&& r.prefill_min_tokens == greatest(cfg.prefill_min_tokens as int, 1)
        }),
{
    let chunk_low: usize = if cfg.prefill_chunk >= 1 {
        cfg.prefill_chunk
    } else {
        1
    };
    let cap_low: usize = if cfg.cap_tokens >= 1 {
        cfg.cap_tokens
    } else {
        1
    };
    let prefill_chunk: usize = if chunk_low <= cap_low {
        chunk_low
    } else {
        cap_low
    };
    let rows: usize = if prefill_chunk >= cfg.mtp_k + 1 {
        prefill_chunk
    } else {
        cfg.mtp_k + 1
    };
    assert(rows * cfg.n_slots <= cfg.batch_rows());
    let product: usize = rows * cfg.n_slots;
    let max_batch: usize = if product >= cfg.n_slots {
        product
    } else {
        cfg.n_slots
    };
    let cap_pages: usize = (cfg.cap_tokens + PAGE_TOKENS - 1) / PAGE_TOKENS;
    assert(cfg.n_slots * cap_pages <= usize::MAX) by (nonlinear_arith)
        requires
            cfg.n_slots * cap_pages * PAGE_TOKENS <= usize::MAX,
    ;
    let slab_pages: usize = cfg.n_slots * cap_pages;
    let vl_sequential: bool = is_on(&vars.vl_sequential);
    let paged: bool = cfg.prefix_cache || (is_on(&vars.slots_paged) && !(cfg.is_vl
        && vl_sequential));
    let paged_pages: Option<usize> = if paged {
        match page_count(&vars.slots_paged_pages) {
            Some(n) => Some(n),
            None => Some(slab_pages),
        }
    } else {
        None
    };
    let kv_pages: usize = match paged_pages {
        Some(n) => n,
        None => slab_pages,
    };
    let page_rows: u64 = (shape.n_fa_layers as u64) * (kv_pages as u64) * (PAGE_TOKENS as u64);
    let stride: u64 = shape.k_bytes_per_pos as u64 + shape.v_bytes_per_pos as u64;
    assert(page_rows * stride == plan_numbers(*cfg, *vars, *shape).kv_bytes);
    let kv_bytes: u64 = page_rows * stride;
    RigPlan {
        prefill_chunk,
        max_batch,
        paged_pages,
        kv_pages,
        kv_bytes,
        planned_bytes: shape.weight_bytes + kv_bytes + RIG_HEADROOM_BYTES,
        vl_sequential,
        max_batch_tokens: if cfg.max_batch_tokens >= 1 {
            cfg.max_batch_tokens
        } else {
            1
        },
        prefill_min_tokens: if cfg.prefill_min_tokens >= 1 {
            cfg.prefill_min_tokens
        } else {
            1
        },
    }
}

/// The batch scratch holds the largest step: a prompt chunk of every slot, or a
/// verify block of every slot, or any mix of them.
pub proof fn law_scratch_covers_every_step(cfg: EngineConfig, rows: Seq<int>)
    requires
        rows.len() == cfg.n_slots,
        forall|s: int|
            0 <= s < rows.len() ==> 0 <= #[trigger] rows[s] <= cfg.chunk() || 0 <= rows[s]
                <= cfg.mtp_k + 1,
    ensures
        rows.fold_left(0, |a: int, b: int| a + b) <= cfg.batch_rows(),
{
    let m = greatest(cfg.chunk(), cfg.mtp_k + 1);
    lemma_sum_bound(rows, m);
    assert(m * rows.len() <= cfg.batch_rows());
}

proof fn lemma_sum_bound(rows: Seq<int>, m: int)
    requires
        forall|s: int| 0 <= s < rows.len() ==> #[trigger] rows[s] <= m,
    ensures
        rows.fold_left(0, |a: int, b: int| a + b) <= m * rows.len(),
    decreases rows.len(),
{
    if rows.len() > 0 {
        lemma_sum_bound(rows.drop_last(), m);
        assert(m * rows.len() == m * (rows.len() - 1) + m) by (nonlinear_arith);
    }
}

/// Discriminant of a cache tier in snapshots; `None` for the placeholder.
pub open spec fn tier_tag(mode: KvMode) -> Option<u32> {
    match mode {
        KvMode::Q8 => Some(1),
        KvMode::Asym2 => Some(21),
        KvMode::Asym3 => Some(31),
        KvMode::Asym4 => Some(41),
        KvMode::Fwht2 => Some(22),
        KvMode::Fwht3 => Some(32),
        KvMode::Fwht4 => Some(42),
        KvMode::Bf16 => Some(12),
        KvMode::Asym3Auto => None,
    }
}

/// The discriminant that keeps a snapshot of one tier out of a rig that runs
/// another.
pub fn kv_dtype_tag(mode: KvMode) -> (r: Result<u32, String>)
    ensures
        match r {
            Ok(t) => tier_tag(mode) == Some(t),
            Err(e) => tier_tag(mode) is None && e@ == "Asym3Auto sentinel reached Rig::build"@,
        },
{
    match mode {
        KvMode::Q8 => Ok(1),
        KvMode::Asym2 => Ok(21),
        KvMode::Asym3 => Ok(31),
        KvMode::Asym4 => Ok(41),
        KvMode::Fwht2 => Ok(22),
        KvMode::Fwht3 => Ok(32),
        KvMode::Fwht4 => Ok(42),
        KvMode::Bf16 => Ok(12),
        KvMode::Asym3Auto => Err(String::from_str("Asym3Auto sentinel reached Rig::build")),
    }
}

/// A snapshot taken under one tier never carries the tag of another.
pub proof fn law_tier_tags_distinct(a: KvMode, b: KvMode)
    requires
        tier_tag(a) is Some,
        tier_tag(a) == tier_tag(b),
    ensures
        a == b,
{
}

/// Text of the refusal of the sequential image path under a rotated tier.
pub open spec fn sequential_vl_text() -> Seq<char> {
    "HIPFIRE_VL_SEQUENTIAL=1 writes KV through the q8-only flat slab view; it is not supported under a rotated KV tier. Drop the knob (the default batched VL path is tier-generic) or use q8 KV."@
}

/// The sequential image path writes through a flat 8-bit view, so it is refused
/// under every other tier.
pub fn check_sequential_vl(vl_sequential: bool, mode: KvMode) -> (r: Result<(), String>)
    ensures
        r is Err <==> vl_sequential && mode != KvMode::Q8,
        r is Err ==> r->Err_0@ == sequential_vl_text(),
{
    if vl_sequential && mode != KvMode::Q8 {
        Err(
            String::from_str(
                "HIPFIRE_VL_SEQUENTIAL=1 writes KV through the q8-only flat slab view; it is not supported under a rotated KV tier. Drop the knob (the default batched VL path is tier-generic) or use q8 KV.",
            ),
        )
    } else {
        Ok(())
    }
}

/// Why a rig cannot run on this tier, if it cannot.
pub open spec fn tier_fault(vl_sequential: bool, mode: KvMode) -> Option<Seq<char>> {
    if vl_sequential && mode != KvMode::Q8 {
        Some(sequential_vl_text())
    } else if tier_tag(mode) is None {
        Some("Asym3Auto sentinel reached Rig::build"@)
    } else {
        None
    }
}

/// Why a rig cannot run on this tier, if it cannot.
pub fn tier_refusal(vl_sequential: bool, mode: KvMode) -> (r: Option<String>)
    ensures
        match r {
            Some(text) => tier_fault(vl_sequential, mode) == Some(text@),
            None => tier_fault(vl_sequential, mode) is None,
        },
{
    match check_sequential_vl(vl_sequential, mode) {
        Err(text) => Some(text),
        Ok(_) => match kv_dtype_tag(mode) {
            Err(text) => Some(text),
            Ok(_) => None,
        },
    }
}

/// Name of a cache tier.
pub open spec fn tier_name(mode: KvMode) -> Seq<char> {
    match mode {
        KvMode::Q8 => "Q8"@,
        KvMode::Asym2 => "Asym2"@,
        KvMode::Asym3 => "Asym3"@,
        KvMode::Asym4 => "Asym4"@,
        KvMode::Fwht2 => "Fwht2"@,
        KvMode::Fwht3 => "Fwht3"@,
        KvMode::Fwht4 => "Fwht4"@,
        KvMode::Bf16 => "Bf16"@,
        KvMode::Asym3Auto => "Asym3Auto"@,
    }
}

/// Name of a cache tier.
pub fn kv_mode_name(mode: KvMode) -> (r: &'static str)
    ensures
        r@ == tier_name(mode),
{
    match mode {
        KvMode::Q8 => "Q8",
        KvMode::Asym2 => "Asym2",
        KvMode::Asym3 => "Asym3",
        KvMode::Asym4 => "Asym4",
        KvMode::Fwht2 => "Fwht2",
        KvMode::Fwht3 => "Fwht3",
        KvMode::Fwht4 => "Fwht4",
        KvMode::Bf16 => "Bf16",
        KvMode::Asym3Auto => "Asym3Auto",
    }
}

/// Identity of everything a slot snapshot depends on.
#[derive(Debug, Clone, Copy, PartialEq, Eq, Structural)]
pub struct SnapshotStamp {
    pub model_hash: u64,
    pub kv_dtype_tag: u32,
    pub per_pos_bytes: u32,
    pub per_pos_v_bytes: u32,
    pub n_fa_layers: u32,
    pub dn_layout_version: u32,
    pub cap: u32,
    pub dn_bytes: u64,
}

fn low_u32(x: usize) -> (r: u32)
    ensures
        r == x as int % 0x1_0000_0000,
{
    ((x as u64) % 0x1_0000_0000) as u32
}

/// The stamp of the rig's snapshots. Sizes are cut to their low 32 bits.
pub fn snapshot_stamp(
    shape: &RigShape,
    mode: KvMode,
    pool_cap_tokens: usize,
    dn_bytes: u64,
) -> (r: Result<SnapshotStamp, String>)
    ensures
        match r {
            Ok(s) => {
                &&& tier_tag(mode) == Some(s.kv_dtype_tag)
                &&& s.model_hash == shape.weight_bytes
                &&& s.per_pos_bytes == shape.k_bytes_per_pos as int % 0x1_0000_0000
                &&& s.per_pos_v_bytes == shape.v_bytes_per_pos as int % 0x1_0000_0000
                &&& s.n_fa_layers == shape.n_fa_layers as int % 0x1_0000_0000
                &&& s.dn_layout_version == 1
                &&& s.cap == pool_cap_tokens as int % 0x1_0000_0000
                &&& s.dn_bytes == dn_bytes
            },
            Err(e) => tier_tag(mode) is None && e@ == "Asym3Auto sentinel reached Rig::build"@,
        },
{
    match kv_dtype_tag(mode) {
        Ok(tag) => Ok(
            SnapshotStamp {
                model_hash: shape.weight_bytes,
                kv_dtype_tag: tag,
                per_pos_bytes: low_u32(shape.k_bytes_per_pos),
                per_pos_v_bytes: low_u32(shape.v_bytes_per_pos),
                n_fa_layers: low_u32(shape.n_fa_layers),
                dn_layout_version: 1,
                cap: low_u32(pool_cap_tokens),
                dn_bytes,
            },
        ),
        Err(e) => Err(e),
    }
}

/// Digests that identify a loaded model and its side files.
#[derive(Debug, Clone)]
pub struct ModelDigests {
    pub model: Vec<u8>,
    pub sidecars: Vec<Vec<u8>>,
    pub vocab: Vec<u8>,
    pub tokenizer_config: Vec<u8>,
    pub template: Vec<u8>,
}

/// The cache domain of a freshly built rig.
pub fn build_cache_domain(
    digests: ModelDigests,
    chat_template: &str,
    shape: &RigShape,
    mode: KvMode,
    device_id: u64,
) -> (d: CacheDomain)
    ensures
        d@ == (DomainView {
            model_content_digest: digests.model@,
            model_load_epoch: 1,
            sidecar_digests: Seq::new(
                digests.sidecars@.len(),
                |i: int| digests.sidecars@[i]@,
            ),
            tokenizer: (digests.vocab@, digests.tokenizer_config@),
            template: (
                digests.template@,
                if chat_template@.len() == 0 {
                    "prompt-frame"@
                } else {
                    "jinja"@
                },
            ),
            arch_policy: ("qwen35-deltanet"@, "dn-q8"@, "causal-mrope"@),
            kv_layout: (
                seq![shape.k_bytes_per_pos as u64],
                seq![shape.v_bytes_per_pos as u64],
                tier_name(mode),
            ),
            device: ("gpu-"@ + decimal_text(device_id as int), "single"@, 1),
            namespace: "default"@,
        }),
{
    let mut device: String = String::from_str("gpu-");
    append_decimal(&mut device, device_id);
    let mut k_stride: Vec<u64> = Vec::new();
    k_stride.push(shape.k_bytes_per_pos as u64);
    let mut v_stride: Vec<u64> = Vec::new();
    v_stride.push(shape.v_bytes_per_pos as u64);
    assert(k_stride@ =~= seq![shape.k_bytes_per_pos as u64]);
    assert(v_stride@ =~= seq![shape.v_bytes_per_pos as u64]);
    CacheDomain {
        model_content_digest: digests.model,
        model_load_epoch: 1,
        sidecar_digests: digests.sidecars,
        tokenizer: TokenizerIdentity {
            vocab_digest: digests.vocab,
            config_digest: digests.tokenizer_config,
        },
        template: TemplateIdentity {
            template_digest: digests.template,
            normalization_tag: if chat_template.is_empty() {
                String::from_str("prompt-frame")
            } else {
                String::from_str("jinja")
            },
        },
        arch_policy: ArchPolicy {
            arch_tag: String::from_str("qwen35-deltanet"),
            state_abi_tag: String::from_str("dn-q8"),
            position_attention_tag: String::from_str("causal-mrope"),
        },
        kv_layout: KvLayout {
            k_stride_bytes: k_stride,
            v_stride_bytes: v_stride,
            layout_tag: String::from_str(kv_mode_name(mode)),
        },
        device: DeviceTopology {
            device_id: device,
            topology_id: String::from_str("single"),
            allocation_epoch: 1,
        },
        namespace: SharingNamespace { domain_id: String::from_str("default") },
    }
}

/// What loading the speculative head from the model file itself gave.
#[derive(Debug, Clone, Copy, PartialEq, Eq, Structural)]
pub enum BundledHead {
    Loaded,
    Absent,
    Failed,
}

/// Where the speculative head comes from.
#[derive(Debug, Clone, Copy, PartialEq, Eq, Structural)]
pub enum HeadSource {
    /// Serve without speculation.
    Off,
    /// The head found in the model file.
    Bundled,
    /// The head in the side file, if it loads.
    Sidecar,
}

/// Chooses the speculative head: the one in the model file, else the side file,
/// also when the one in the model file failed to load.
pub fn head_source(mtp_k: usize, bundled: BundledHead, sidecar_found: bool) -> (r: HeadSource)
    ensures
        r == if mtp_k == 0 {
            HeadSource::Off
        } else if bundled == BundledHead::Loaded {
            HeadSource::Bundled
        } else if sidecar_found {
            HeadSource::Sidecar
        } else {
            HeadSource::Off
        },
{
    if mtp_k == 0 {
        HeadSource::Off
    } else {
        match bundled {
            BundledHead::Loaded => HeadSource::Bundled,
            _ => if sidecar_found {
                HeadSource::Sidecar
            } else {
                HeadSource::Off
            },
        }
    }
}

/// Rows per slot of the block-table staging: none without paging.
pub fn max_pages_per_slot(paged: bool, pool_cap_tokens: usize) -> (r: usize)
    requires
        pool_cap_tokens + PAGE_TOKENS <= usize::MAX,
    ensures
        r == if paged {
            ceil_div(pool_cap_tokens as int, PAGE_TOKENS as int)
        } else {
            0
        },
{
    if paged {
        (pool_cap_tokens + PAGE_TOKENS - 1) / PAGE_TOKENS
    } else {
        0
    }
}

/// Width of the widest row that the speculative head's prefill stages.
pub fn widest_head_row(dim: usize, n_ff: usize, n_head: usize, head_dim: usize) -> (r: usize)
    requires
        2 * dim <= usize::MAX,
        n_head * head_dim <= usize::MAX,
    ensures
        r == greatest(greatest(2 * dim, n_ff as int), n_head * head_dim),
{
    let a: usize = if 2 * dim >= n_ff {
        2 * dim
    } else {
        n_ff
    };
    let b: usize = n_head * head_dim;
    if a >= b {
        a
    } else {
        b
    }
}

// ---- Flat view of a slot ----

/// Kind of a model layer.
#[derive(Debug, Clone, Copy, PartialEq, Eq, Structural)]
pub enum LayerType {
    LinearAttention,
    FullAttention,
}

/// A slot's cache as flat slabs, one per layer.
#[derive(Debug)]
pub struct SlotKvView {
    /// First byte of the slot in every arena.
    pub base: usize,
    /// Bytes of the slot in every arena.
    pub span: usize,
    /// The arena of each layer; linear layers have none.
    pub arenas: Vec<Option<usize>>,
    pub kv_dim: usize,
    pub max_seq: usize,
}

/// Full-attention layers among the first `n`.
pub open spec fn full_layers(layers: Seq<LayerType>, n: int) -> int
    decreases n,
{
    if n <= 0 {
        0
    } else {
        full_layers(layers, n - 1) + if layers[n - 1] == LayerType::FullAttention {
            1int
        } else {
            0
        }
    }
}

/// Bytes of one position in the 8-bit tier: blocks of 32 values of 34 bytes.
pub open spec fn q8_bytes_per_pos(n_kv_heads: usize, head_dim: usize) -> int {
    n_kv_heads * (head_dim as int / 32) * 34
}

/// The flat view of a slot. A paged cache has no flat slab, and the view knows
/// the 8-bit layout only.
pub fn slot_kv_view(
    paged: bool,
    mode: KvMode,
    layers: &[LayerType],
    n_kv_heads: usize,
    head_dim: usize,
    cap_tokens: usize,
    slot_base: usize,
) -> (r: SlotKvView)
    requires
        !paged,
        mode == KvMode::Q8,
        n_kv_heads * head_dim <= usize::MAX,
        q8_bytes_per_pos(n_kv_heads, head_dim) <= usize::MAX,
        cap_tokens * q8_bytes_per_pos(n_kv_heads, head_dim) <= usize::MAX,
    ensures
        r.base == slot_base,
        r.span == cap_tokens * q8_bytes_per_pos(n_kv_heads, head_dim),
        r.kv_dim == n_kv_heads * head_dim,
        r.max_seq == cap_tokens,
        r.arenas@ == Seq::new(
            layers@.len(),
            |i: int|
                if layers@[i] == LayerType::FullAttention {
                    Some(full_layers(layers@, i) as usize)
                } else {
                    None
                },
        ),
{
    let mut arenas: Vec<Option<usize>> = Vec::new();
    let mut full: usize = 0;
    let mut i: usize = 0;
    while i < layers.len()
        invariant
            i <= layers@.len(),
            full <= i,
            full == full_layers(layers@, i as int),
            arenas@ =~= Seq::new(
                i as nat,
                |i: int|
                    if layers@[i] == LayerType::FullAttention {
                        Some(full_layers(layers@, i) as usize)
                    } else {
                        None
                    },
            ),
        decreases layers@.len() - i,
    {
        if layers[i] == LayerType::FullAttention {
            arenas.push(Some(full));
            full = full + 1;
        } else {
            arenas.push(None);
        }
        i = i + 1;
    }
    let blocks: usize = head_dim / 32;
    assert(n_kv_heads * blocks <= n_kv_heads * head_dim) by (nonlinear_arith)
        requires
            blocks <= head_dim,
            n_kv_heads >= 0,
    ;
    let per_pos: usize = n_kv_heads * blocks * 34;
    SlotKvView {
        base: slot_base,
        span: cap_tokens * per_pos,
        arenas,
        kv_dim: n_kv_heads * head_dim,
        max_seq: cap_tokens,
    }
}

/// Layers with a cache have an arena each, and no two share one.
pub proof fn law_layers_do_not_share_arenas(layers: Seq<LayerType>, a: int, b: int)
    requires
        0 <= a < b < layers.len(),
        layers[a] == LayerType::FullAttention,
    ensures
        full_layers(layers, a) < full_layers(layers, b),
    decreases b,
{
    if a + 1 < b {
        law_layers_do_not_share_arenas(layers, a, b - 1);
    }
}

// ---- The loaded model ----

/// Sizes of a loaded model.
#[derive(Debug, Clone, Copy, PartialEq, Eq, Structural)]
pub struct Qwen35Bundle {
    pub dim: usize,
    pub n_layers: usize,
    pub vocab_size: usize,
    /// Rows by which the cache has been compacted.
    pub compact_offset: usize,
}

impl Qwen35Bundle {
    /// Width of a hidden row.
    pub fn dim(&self) -> (r: usize)
        ensures
            r == self.dim,
    {
        self.dim
    }

    pub fn n_layers(&self) -> (r: usize)
        ensures
            r == self.n_layers,
    {
        self.n_layers
    }

    pub fn vocab_size(&self) -> (r: usize)
        ensures
            r == self.vocab_size,
    {
        self.vocab_size
    }

    /// Key of the model family.
    pub fn arch_key(&self) -> (r: &'static str)
        ensures
            r@ == "qwen35"@,
    {
        "qwen35"
    }

    /// Starts a session over once the recurrent state was reset: the cache is
    /// rewound. A failed reset leaves the cache alone.
    pub fn reset_session_state(&mut self, state_reset: Result<(), String>) -> (r: Result<
        (),
        String,
    >)
        ensures
            match state_reset {
                Ok(_) => r is Ok && *final(self) == (Qwen35Bundle {
                    compact_offset: 0,
                    ..*old(self)
                }),
                Err(e) => r is Err && r->Err_0@ == "qwen35 reset_session_state: "@ + e@
                    && *final(self) == *old(self),
            },
    {
        match state_reset {
            Ok(_) => {
                self.compact_offset = 0;
                Ok(())
            },
            Err(e) => Err(crate::text::join2("qwen35 reset_session_state: ", e.as_str())),
        }
    }
}

// ---- Choices of a build ----

/// The cache mode to resolve: the request's, or the configured one when the
/// request leaves it open.
pub fn chosen_kv_mode(requested: &str, configured: &str) -> (r: String)
    ensures
        r@ == if requested@.len() == 0 {
            configured@
        } else {
            requested@
        },
{
    if requested.is_empty() {
        configured.to_owned()
    } else {
        requested.to_owned()
    }
}

/// Whether the model file's pages are dropped from the page cache once read:
/// as the setting says, anything but "0" meaning yes; without one, only where
/// the device shares the host's memory.
pub fn evicts_page_cache(setting: Option<&str>, unified_memory: bool) -> (r: bool)
    ensures
        r == match setting {
            Some(s) => s@ != "0"@,
            None => unified_memory,
        },
{
    match setting {
        Some(s) => !same_text(s, "0"),
        None => unified_memory,
    }
}

/// Where the vision tower comes from.
#[derive(Debug, Clone, Copy, PartialEq, Eq, Structural)]
pub enum VisionSource {
    Off,
    /// The standalone file.
    Sidecar,
    /// The model file itself.
    Inline,
}

impl EngineConfig {
    /// Where the vision tower comes from.
    pub open spec fn vision(&self) -> VisionSource {
        if !self.is_vl {
            VisionSource::Off
        } else if self.vl_path is Some {
            VisionSource::Sidecar
        } else {
            VisionSource::Inline
        }
    }

    /// Chooses where the vision tower comes from.
    pub fn vision_source(&self) -> (r: VisionSource)
        ensures
            r == self.vision(),
    {
        if !self.is_vl {
            VisionSource::Off
        } else if self.vl_path.is_some() {
            VisionSource::Sidecar
        } else {
            VisionSource::Inline
        }
    }
}

/// Refuses a vision source whose file says nothing of a vision tower.
pub fn check_vision_config(source: VisionSource, has_config: bool) -> (r: Result<
    (),
    &'static str,
>)
    ensures
        r is Err <==> source != VisionSource::Off && !has_config,
        r is Err ==> r->Err_0@ == if source == VisionSource::Sidecar {
            ".vl file missing vision_config in metadata"@
        } else {
            "VL model missing vision_config in metadata"@
        },
{
    if has_config {
        return Ok(());
    }
    match source {
        VisionSource::Off => Ok(()),
        VisionSource::Sidecar => Err(".vl file missing vision_config in metadata"),
        VisionSource::Inline => Err("VL model missing vision_config in metadata"),
    }
}

/// Element counts of the rig's own buffers.
#[derive(Debug, Clone, Copy, PartialEq, Eq, Structural)]
pub struct RigBuffers {
    /// A row of scores per slot.
    pub logits: usize,
    /// A sampled token per slot.
    pub out_tokens: usize,
    /// A penalty window.
    pub repeat_window: usize,
    /// Hidden rows of one prompt chunk for the speculative head.
    pub head_hidden: usize,
    /// Widest rows of one prompt chunk for the speculative head.
    pub head_rotation: usize,
    /// Recurrent-state rows of every slot's verify block; none without a head.
    pub verify_rows: usize,
    /// Bytes that one token takes in the caches of all layers.
    pub kv_bytes_per_token: u64,
}

/// Sizes the rig's own buffers.
pub fn size_buffers(
    cfg: &EngineConfig,
    plan: &RigPlan,
    shape: &RigShape,
    vocab_size: usize,
    dim: usize,
    widest_row: usize,
    head_loaded: bool,
) -> (r: RigBuffers)
    requires
        cfg.n_slots * vocab_size <= usize::MAX,
        plan.prefill_chunk >= 1,
        plan.prefill_chunk * dim <= usize::MAX,
        plan.prefill_chunk * widest_row <= usize::MAX,
        cfg.mtp_k < usize::MAX,
        cfg.n_slots * (cfg.mtp_k + 1) <= usize::MAX,
        shape.k_bytes_per_pos + shape.v_bytes_per_pos <= usize::MAX,
        shape.n_fa_layers * (shape.k_bytes_per_pos + shape.v_bytes_per_pos) <= usize::MAX,
    ensures
        r == (RigBuffers {
            logits: (cfg.n_slots * vocab_size) as usize,
            out_tokens: cfg.n_slots,
            repeat_window: REPEAT_WINDOW_MAX,
            head_hidden: (plan.prefill_chunk * dim) as usize,
            head_rotation: (plan.prefill_chunk * widest_row) as usize,
            verify_rows: if head_loaded && cfg.mtp_k > 0 {
                (cfg.n_slots * (cfg.mtp_k + 1)) as usize
            } else {
                0
            },
            kv_bytes_per_token: (shape.n_fa_layers * (shape.k_bytes_per_pos
                + shape.v_bytes_per_pos)) as u64,
        }),
{
    RigBuffers {
        logits: cfg.n_slots * vocab_size,
        out_tokens: cfg.n_slots,
        repeat_window: REPEAT_WINDOW_MAX,
        head_hidden: plan.prefill_chunk * dim,
        head_rotation: plan.prefill_chunk * widest_row,
        verify_rows: if head_loaded && cfg.mtp_k > 0 {
            cfg.n_slots * (cfg.mtp_k + 1)
        } else {
            0
        },
        kv_bytes_per_token: (shape.n_fa_layers * (shape.k_bytes_per_pos + shape.v_bytes_per_pos))
            as u64,
    }
}

// ---- Queue settings ----

/// The row budget of a step cannot serve every slot and the least prompt
/// quantum, which is never below one row: fairness would deadlock.
pub open spec fn budget_too_small(cfg: EngineConfig) -> bool {
    cfg.max_batch_tokens < cfg.n_slots + greatest(cfg.prefill_min_tokens as int, 1)
}

/// The waiting room has no bound on its count or on its bytes.
pub open spec fn waiting_room_uncapped(cfg: EngineConfig) -> bool {
    cfg.wait_max_count == 0 || cfg.wait_max_bytes == 0
}

/// Why the queues cannot be built with these settings, if they cannot.
pub open spec fn queue_fault(cfg: EngineConfig) -> Option<Seq<char>> {
    if budget_too_small(cfg) {
        Some(
            "fairness queue: max_batch_tokens "@ + decimal_text(cfg.max_batch_tokens as int)
                + " is below n_slots "@ + decimal_text(cfg.n_slots as int)
                + " plus prefill_min_tokens "@ + decimal_text(
                greatest(cfg.prefill_min_tokens as int, 1),
            ),
        )
    } else if waiting_room_uncapped(cfg) {
        Some("wait queue: the caps on count and bytes must be non-zero"@)
    } else {
        None
    }
}

/// Refuses settings with which the queues would deadlock or grow without bound.
pub fn queue_refusal(cfg: &EngineConfig) -> (r: Option<String>)
    ensures
        r is Some <==> budget_too_small(*cfg) || cfg.wait_max_count == 0 || cfg.wait_max_bytes
            == 0,
        match r {
            Some(t) => queue_fault(*cfg) == Some(t@),
            None => queue_fault(*cfg) is None,
        },
{
    let quantum: usize = if cfg.prefill_min_tokens >= 1 {
        cfg.prefill_min_tokens
    } else {
        1
    };
    let short: bool = match cfg.n_slots.checked_add(quantum) {
        Some(rows) => cfg.max_batch_tokens < rows,
        None => true,
    };
    if short {
        let mut t: String = String::from_str("fairness queue: max_batch_tokens ");
        append_decimal(&mut t, cfg.max_batch_tokens as u64);
        t.append(" is below n_slots ");
        append_decimal(&mut t, cfg.n_slots as u64);
        t.append(" plus prefill_min_tokens ");
        append_decimal(&mut t, quantum as u64);
        return Some(t);
    }
    if cfg.wait_max_count == 0 || cfg.wait_max_bytes == 0 {
        return Some(
            String::from_str("wait queue: the caps on count and bytes must be non-zero"),
        );
    }
    None
}

// ---- Laws of the plan ----

/// A slot's chunk is what was configured, as far as a slot can hold it, and never
/// nothing.
pub proof fn law_chunks_are_as_configured(cfg: EngineConfig)
    ensures
        cfg.chunk() >= 1,
        1 <= cfg.prefill_chunk <= cfg.cap_tokens ==> cfg.chunk() == cfg.prefill_chunk,
        cfg.cap_tokens >= 1 && cfg.prefill_chunk > cfg.cap_tokens ==> cfg.chunk()
            == cfg.cap_tokens,
        cfg.prefill_chunk == 0 ==> cfg.chunk() == 1,
{
}

/// The scratch is no larger than the largest step: a chunk or a verify block for
/// each slot.
pub proof fn law_scratch_is_no_larger_than_needed(cfg: EngineConfig)
    requires
        cfg.n_slots > 0,
    ensures
        cfg.batch_rows() == cfg.chunk() * cfg.n_slots || cfg.batch_rows() == (cfg.mtp_k + 1)
            * cfg.n_slots,
        cfg.batch_rows() >= cfg.chunk() * cfg.n_slots,
        cfg.batch_rows() >= (cfg.mtp_k + 1) * cfg.n_slots,
{
    let n = cfg.n_slots as int;
    let c = cfg.chunk();
    let v = cfg.mtp_k + 1;
    assert(c <= v ==> c * n <= v * n) by (nonlinear_arith)
        requires
            n > 0,
    ;
    assert(v <= c ==> v * n <= c * n) by (nonlinear_arith)
        requires
            n > 0,
    ;
    assert(c * n >= n) by (nonlinear_arith)
        requires
            n > 0,
            c >= 1,
    ;
}

/// The pages of all slots hold every slot's full context, and with a page less for
/// each they would not.
pub proof fn law_slabs_hold_every_context(cfg: EngineConfig)
    requires
        cfg.cap_tokens > 0,
    ensures
        cfg.slab_pages() * PAGE_TOKENS >= cfg.n_slots * cfg.cap_tokens,
        cfg.n_slots > 0 ==> (cfg.slab_pages() - cfg.n_slots) * PAGE_TOKENS < cfg.n_slots
            * cfg.cap_tokens,
{
    let page = PAGE_TOKENS as int;
    let cap = cfg.cap_tokens as int;
    let n = cfg.n_slots as int;
    let p = ceil_div(cap, page);
    vstd::arithmetic::div_mod::lemma_fundamental_div_mod(cap + page - 1, page);
    vstd::arithmetic::div_mod::lemma_mod_bound(cap + page - 1, page);
    assert(page * p == p * page) by (nonlinear_arith);
    assert(cap <= p * page < cap + page);
    assert(n * p * page == n * (p * page)) by (nonlinear_arith);
    assert(n * (p * page) >= n * cap) by (nonlinear_arith)
        requires
            p * page >= cap,
            n >= 0,
    ;
    assert((n * p - n) * page == n * (p * page - page)) by (nonlinear_arith);
    assert(n > 0 ==> n * (p * page - page) < n * cap) by (nonlinear_arith)
        requires
            p * page - page < cap,
    ;
}

/// A cache is paged exactly where it has to be or may be: for a prefix cache
/// always, else by the switch, unless images run on the sequential path. A page
/// count that was set stands; otherwise there are pages for every slot.
pub proof fn law_caches_are_paged_where_asked(cfg: EngineConfig, vars: PagingVars)
    ensures
        cfg.prefix_cache ==> cfg.pages(vars) is Some,
        !cfg.prefix_cache && !switched_on(text_of(vars.slots_paged)) ==> cfg.pages(vars) is None,
        !cfg.prefix_cache && cfg.is_vl && switched_on(text_of(vars.vl_sequential)) ==> cfg.pages(
            vars,
        ) is None,
        !cfg.prefix_cache && switched_on(text_of(vars.slots_paged)) && (!cfg.is_vl
            || !switched_on(text_of(vars.vl_sequential))) ==> cfg.pages(vars) is Some,
        cfg.pages(vars) is Some && page_setting(text_of(vars.slots_paged_pages)) is Some
            ==> cfg.pages(vars) == page_setting(text_of(vars.slots_paged_pages)),
        cfg.pages(vars) is Some && page_setting(text_of(vars.slots_paged_pages)) is None
            ==> cfg.pages(vars) == Some(cfg.slab_pages()),
{
}

/// A page count may have white space round it; what is no number is no setting.
pub proof fn law_page_settings_are_numbers(front: Seq<char>, n: usize, back: Seq<char>)
    requires
        forall|i: int| 0 <= i < front.len() ==> crate::text::white_space(#[trigger] front[i]),
        forall|i: int| 0 <= i < back.len() ==> crate::text::white_space(#[trigger] back[i]),
    ensures
        page_setting(Some(front + decimal_text(n as int) + back)) == Some(n as int),
        page_setting(None) is None,
        page_setting(Some(front)) is None,
{
    let none = Seq::<char>::empty();
    let t = decimal_text(n as int);
    crate::text::lemma_decimal_nonempty(n as int);
    crate::text::lemma_decimal_digits(n as int, 0);
    crate::text::lemma_decimal_digits(n as int, t.len() - 1);
    crate::text::law_digits_are_no_white_space(t[0]);
    crate::text::law_digits_are_no_white_space(t.last());
    crate::text::law_trimming_takes_the_ends(front, t, back);
    crate::text::law_trimming_takes_the_ends(front, none, none);
    assert(front + none + none =~= front);
    crate::text::law_decimals_read_back(n as int, n as int);
}

/// A switch is on for three words and for no other.
pub proof fn law_switches_are_on_for_three_words(v: Option<Seq<char>>)
    ensures
        switched_on(v) <==> v is Some && (v->Some_0 == "1"@ || v->Some_0 == "on"@ || v->Some_0
            == "true"@),
{
}

/// The plan counts every byte: keys and values of every page of every layer, the
/// weights, and 768 MiB on top.
pub proof fn law_plans_count_every_byte(
    cfg: EngineConfig,
    vars: PagingVars,
    shape: RigShape,
    pages: int,
)
    requires
        cfg.pages(vars) == Some(pages) || (cfg.pages(vars) is None && pages == cfg.slab_pages()),
    ensures
        ({
            let p = plan_numbers(cfg, vars, shape);
            let k = shape.n_fa_layers * pages * PAGE_TOKENS * shape.k_bytes_per_pos;
            let v = shape.n_fa_layers * pages * PAGE_TOKENS * shape.v_bytes_per_pos;
            &&& p.kv_pages == pages
            &&& p.kv_bytes == k + v
            &&& p.planned == shape.weight_bytes + k + v + 768 * 1024 * 1024
            &&& p.chunk == cfg.chunk()
            &&& p.batch == cfg.batch_rows()
        }),
{
    let a = shape.n_fa_layers * pages * PAGE_TOKENS;
    let (k, v) = (shape.k_bytes_per_pos as int, shape.v_bytes_per_pos as int);
    assert(a * (k + v) == a * k + a * v) by (nonlinear_arith);
}

/// Every tier but the placeholder can run, and only the 8-bit one with images on
/// the sequential path.
pub proof fn law_tiers_that_can_run(vl_sequential: bool, mode: KvMode)
    ensures
        tier_fault(vl_sequential, mode) is None <==> mode == KvMode::Q8 || (!vl_sequential && mode
            != KvMode::Asym3Auto),
        tier_tag(mode) is None <==> mode == KvMode::Asym3Auto,
{
}

/// Settings pass exactly where a step can serve every slot and one prompt quantum,
/// and the waiting room is bounded both ways.
pub proof fn law_sound_queue_settings_pass(cfg: EngineConfig)
    ensures
        queue_fault(cfg) is None <==> {
            &&& cfg.max_batch_tokens >= cfg.n_slots + 1
            &&& cfg.max_batch_tokens >= cfg.n_slots + cfg.prefill_min_tokens
            &&& cfg.wait_max_count > 0
            &&& cfg.wait_max_bytes > 0
        },
{
}

/// The vision tower comes from its own file where one is named, else from the
/// model's, and from nowhere without images.
pub proof fn law_towers_come_from_their_file(cfg: EngineConfig)
    ensures
        cfg.vision() == VisionSource::Off <==> !cfg.is_vl,
        cfg.vision() == VisionSource::Sidecar <==> cfg.is_vl && cfg.vl_path is Some,
{
}

/// Each tier has a name of its own, and an 8-bit position takes 34 bytes for every
/// 32 values of a head.
pub proof fn law_tiers_have_names_of_their_own(a: KvMode, b: KvMode, heads: usize, head_dim: usize, k: int)
    requires
        head_dim == 32 * k,
    ensures
        tier_name(a) == tier_name(b) ==> a == b,
        q8_bytes_per_pos(heads, head_dim) == heads * k * 34,
{
    reveal_strlit("Q8");
    reveal_strlit("Asym2");
    reveal_strlit("Asym3");
    reveal_strlit("Asym4");
    reveal_strlit("Fwht2");
    reveal_strlit("Fwht3");
    reveal_strlit("Fwht4");
    reveal_strlit("Bf16");
    reveal_strlit("Asym3Auto");
    assert("Q8"@.len() == 2);
    assert("Asym2"@.len() == 5 && "Asym2"@[0] == 'A' && "Asym2"@[4] == '2');
    assert("Asym3"@.len() == 5 && "Asym3"@[0] == 'A' && "Asym3"@[4] == '3');
    assert("Asym4"@.len() == 5 && "Asym4"@[0] == 'A' && "Asym4"@[4] == '4');
    assert("Fwht2"@.len() == 5 && "Fwht2"@[0] == 'F' && "Fwht2"@[4] == '2');
    assert("Fwht3"@.len() == 5 && "Fwht3"@[0] == 'F' && "Fwht3"@[4] == '3');
    assert("Fwht4"@.len() == 5 && "Fwht4"@[0] == 'F' && "Fwht4"@[4] == '4');
    assert("Bf16"@.len() == 4);
    assert("Asym3Auto"@.len() == 9);
    if tier_name(a) == tier_name(b) {
        assert(tier_name(a).len() == tier_name(b).len());
        if tier_name(a).len() == 5 {
            assert(tier_name(a)[0] == tier_name(b)[0] && tier_name(a)[4] == tier_name(b)[4]);
        }
    }
}

} // verus!
