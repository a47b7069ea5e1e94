//! Shared vocabulary of the prefix cache: cache domains, checkpoint ids, and
//! the plan for resuming a request from a cached boundary.

use vstd::prelude::*;

verus! {

/// Tokens per cache page.
pub const PAGE_TOKENS: usize = 128;

/// Identity of the tokenizer that produced the cached tokens.
#[derive(Debug, Clone, PartialEq, Eq)]
pub struct TokenizerIdentity {
    pub vocab_digest: Vec<u8>,
    pub config_digest: Vec<u8>,
}

/// Identity of the chat template and its text normalisation.
#[derive(Debug, Clone, PartialEq, Eq)]
pub struct TemplateIdentity {
    pub template_digest: Vec<u8>,
    pub normalization_tag: String,
}

/// Architecture, state layout and attention policy.
#[derive(Debug, Clone, PartialEq, Eq)]
pub struct ArchPolicy {
    pub arch_tag: String,
    pub state_abi_tag: String,
    pub position_attention_tag: String,
}

/// Byte layout of the key and value rows.
#[derive(Debug, Clone, PartialEq, Eq)]
pub struct KvLayout {
    pub k_stride_bytes: Vec<u64>,
    pub v_stride_bytes: Vec<u64>,
    pub layout_tag: String,
}

/// Device and allocation the cached state lives on.
#[derive(Debug, Clone, PartialEq, Eq)]
pub struct DeviceTopology {
    pub device_id: String,
    pub topology_id: String,
    pub allocation_epoch: u64,
}

/// Tenancy boundary of the cache.
#[derive(Debug, Clone, PartialEq, Eq)]
pub struct SharingNamespace {
    pub domain_id: String,
}

/// Everything that must agree before one request may reuse another's state.
#[derive(Debug, Clone, PartialEq, Eq)]
pub struct CacheDomain {
    pub model_content_digest: Vec<u8>,
    pub model_load_epoch: u64,
    pub sidecar_digests: Vec<Vec<u8>>,
    pub tokenizer: TokenizerIdentity,
    pub template: TemplateIdentity,
    pub arch_policy: ArchPolicy,
    pub kv_layout: KvLayout,
    pub device: DeviceTopology,
    pub namespace: SharingNamespace,
}

/// A cache domain as a mathematical value.
pub struct DomainView {
    pub model_content_digest: Seq<u8>,
    pub model_load_epoch: u64,
    pub sidecar_digests: Seq<Seq<u8>>,
    pub tokenizer: (Seq<u8>, Seq<u8>),
    pub template: (Seq<u8>, Seq<char>),
    pub arch_policy: (Seq<char>, Seq<char>, Seq<char>),
    pub kv_layout: (Seq<u64>, Seq<u64>, Seq<char>),
    pub device: (Seq<char>, Seq<char>, u64),
    pub namespace: Seq<char>,
}

impl View for CacheDomain {
    type V = DomainView;

    open spec fn view(&self) -> DomainView {
        DomainView {
            model_content_digest: self.model_content_digest@,
            model_load_epoch: self.model_load_epoch,
            sidecar_digests: Seq::new(
                self.sidecar_digests@.len(),
                |i: int| self.sidecar_digests@[i]@,
            ),
            tokenizer: (self.tokenizer.vocab_digest@, self.tokenizer.config_digest@),
            template: (self.template.template_digest@, self.template.normalization_tag@),
            arch_policy: (
                self.arch_policy.arch_tag@,
                self.arch_policy.state_abi_tag@,
                self.arch_policy.position_attention_tag@,
            ),
            kv_layout: (
                self.kv_layout.k_stride_bytes@,
                self.kv_layout.v_stride_bytes@,
                self.kv_layout.layout_tag@,
            ),
            device: (
                self.device.device_id@,
                self.device.topology_id@,
                self.device.allocation_epoch,
            ),
            namespace: self.namespace.domain_id@,
        }
    }
}

fn same_bytes(a: &Vec<u8>, b: &Vec<u8>) -> (r: bool)
    ensures
        r == (a@ == b@),
{
    if a.len() != b.len() {
        return false;
    }
    let mut i: usize = 0;
    while i < a.len()
        invariant
            i <= a@.len(),
            a@.len() == b@.len(),
            forall|j: int| 0 <= j < i ==> a@[j] == b@[j],
        decreases a@.len() - i,
    {
        if a[i] != b[i] {
            return false;
        }
        i = i + 1;
    }
    assert(a@ =~= b@);
    true
}

fn same_words(a: &Vec<u64>, b: &Vec<u64>) -> (r: bool)
    ensures
        r == (a@ == b@),
{
    if a.len() != b.len() {
        return false;
    }
    let mut i: usize = 0;
    while i < a.len()
        invariant
            i <= a@.len(),
            a@.len() == b@.len(),
            forall|j: int| 0 <= j < i ==> a@[j] == b@[j],
        decreases a@.len() - i,
    {
        if a[i] != b[i] {
            return false;
        }
        i = i + 1;
    }
    assert(a@ =~= b@);
    true
}

fn same_digests(a: &Vec<Vec<u8>>, b: &Vec<Vec<u8>>) -> (r: bool)
    ensures
        r == (Seq::new(a@.len(), |i: int| a@[i]@) == Seq::new(b@.len(), |i: int| b@[i]@)),
{
    let ghost va = Seq::new(a@.len(), |i: int| a@[i]@);
    let ghost vb = Seq::new(b@.len(), |i: int| b@[i]@);
    if a.len() != b.len() {
        assert(va.len() != vb.len());
        return false;
    }
    let mut i: usize = 0;
    while i < a.len()
        invariant
            i <= a@.len(),
            a@.len() == b@.len(),
            va == Seq::new(a@.len(), |i: int| a@[i]@),
            vb == Seq::new(b@.len(), |i: int| b@[i]@),
            forall|j: int| 0 <= j < i ==> a@[j]@ == b@[j]@,
        decreases a@.len() - i,
    {
        if !same_bytes(&a[i], &b[i]) {
            assert(va[i as int] != vb[i as int]);
            return false;
        }
        i = i + 1;
    }
    assert(va =~= vb);
    true
}

impl CacheDomain {
    /// Whether two domains are the same value.
    pub fn same(&self, other: &CacheDomain) -> (r: bool)
        ensures
            r == (self@ == other@),
    {
        same_bytes(&self.model_content_digest, &other.model_content_digest)
            && self.model_load_epoch == other.model_load_epoch
            && same_digests(&self.sidecar_digests, &other.sidecar_digests)
            && same_bytes(&self.tokenizer.vocab_digest, &other.tokenizer.vocab_digest)
            && same_bytes(&self.tokenizer.config_digest, &other.tokenizer.config_digest)
            && same_bytes(&self.template.template_digest, &other.template.template_digest)
            && self.template.normalization_tag == other.template.normalization_tag
            && self.arch_policy.arch_tag == other.arch_policy.arch_tag
            && self.arch_policy.state_abi_tag == other.arch_policy.state_abi_tag
            && self.arch_policy.position_attention_tag == other.arch_policy.position_attention_tag
            && same_words(&self.kv_layout.k_stride_bytes, &other.kv_layout.k_stride_bytes)
            && same_words(&self.kv_layout.v_stride_bytes, &other.kv_layout.v_stride_bytes)
            && self.kv_layout.layout_tag == other.kv_layout.layout_tag
            && self.device.device_id == other.device.device_id
            && self.device.topology_id == other.device.topology_id
            && self.device.allocation_epoch == other.device.allocation_epoch
            && self.namespace.domain_id == other.namespace.domain_id
    }
}

/// Id of a stored checkpoint; 0 stands for "no checkpoint".
#[derive(Debug, Clone, Copy, PartialEq, Eq, Structural, PartialOrd, Ord, Hash)]
pub struct CheckpointId(pub u64);

impl CheckpointId {
    /// The id that stands for "no checkpoint".
    pub fn none() -> (id: CheckpointId)
        ensures
            id == CheckpointId(0),
    {
        CheckpointId(0)
    }
}

/// How the drafter of a resumed request gets its state.
#[derive(Debug, Clone, Copy, PartialEq, Eq, Structural)]
pub enum DrafterDecision {
    /// No drafter: plain autoregressive decoding.
    Ar,
    /// The drafter has a checkpoint of its own.
    Checkpoint,
    /// The drafter is seeded anew.
    Reseed,
}

/// How a resumed request obtains the logits of its first new token.
#[derive(Debug, Clone, Copy, PartialEq, Eq, Structural)]
pub enum LastTokenHandling {
    /// Tokens past the boundary are recomputed.
    SuffixRecompute,
    /// The prompt ends on a boundary, so an earlier one is restored.
    EarlierBoundary,
}

/// Why no checkpoint could be resumed.
#[derive(Debug, Clone, Copy, PartialEq, Eq, Structural)]
pub enum MissReason {
    NoCheckpoint,
    Evicted,
}

/// What the prefix index found for a prompt.
#[derive(Debug, Clone, Copy, PartialEq, Eq, Structural)]
pub struct PrefixLookup {
    pub matched_tokens: u64,
    pub resident_kv_tokens: u64,
    pub resumable_tokens: u64,
}

/// Which parts of the hybrid state are at hand.
#[derive(Debug, Clone, Copy, PartialEq, Eq, Structural)]
pub struct ResumeBundle {
    pub attention_pages: bool,
    pub dn_matrices_scales: bool,
    pub conv_rings: bool,
    pub ef_residual: bool,
    pub drafter: DrafterDecision,
}

/// A part of the hybrid state.
#[derive(Debug, Clone, Copy, PartialEq, Eq, Structural)]
pub enum BundleComponent {
    AttentionPages,
    DnMatricesScales,
    ConvRings,
    EfResidual,
}

/// Why a resume plan was refused.
#[derive(Debug, Clone, Copy, PartialEq, Eq, Structural)]
pub enum ResumePlanError {
    MissingComponent(BundleComponent),
}

/// A decision to resume at `boundary` with a complete bundle.
#[derive(Debug, Clone, Copy, PartialEq, Eq, Structural)]
pub struct ResumePlan {
    /// Tokens `[0, boundary)` that the target has processed.
    pub boundary: u64,
    pub bundle: ResumeBundle,
    /// Bytes of the checkpoint to restore.
    pub byte_cost: u64,
    pub last_token: LastTokenHandling,
}

impl ResumeBundle {
    /// The first part that is missing, if any.
    pub open spec fn first_missing(self) -> Option<BundleComponent> {
        if !self.attention_pages {
            Some(BundleComponent::AttentionPages)
        } else if !self.dn_matrices_scales {
            Some(BundleComponent::DnMatricesScales)
        } else if !self.conv_rings {
            Some(BundleComponent::ConvRings)
        } else if !self.ef_residual {
            Some(BundleComponent::EfResidual)
        } else {
            None
        }
    }
}

impl ResumePlan {
    /// A plan, refused when a part of the state is missing.
    pub fn new(
        boundary: u64,
        bundle: ResumeBundle,
        byte_cost: u64,
        last_token: LastTokenHandling,
    ) -> (r: Result<ResumePlan, ResumePlanError>)
        ensures
            r == match bundle.first_missing() {
                Some(c) => Err(ResumePlanError::MissingComponent(c)),
                None => Ok(ResumePlan { boundary, bundle, byte_cost, last_token }),
            },
    {
        if !bundle.attention_pages {
            Err(ResumePlanError::MissingComponent(BundleComponent::AttentionPages))
        } else if !bundle.dn_matrices_scales {
            Err(ResumePlanError::MissingComponent(BundleComponent::DnMatricesScales))
        } else if !bundle.conv_rings {
            Err(ResumePlanError::MissingComponent(BundleComponent::ConvRings))
        } else if !bundle.ef_residual {
            Err(ResumePlanError::MissingComponent(BundleComponent::EfResidual))
        } else {
            Ok(ResumePlan { boundary, bundle, byte_cost, last_token })
        }
    }
}

/// A bundle is complete exactly where all four parts of the state are there, and
/// the part it is refused for is one that is missing.
pub proof fn law_bundles_need_every_part(b: ResumeBundle)
    ensures
        b.first_missing() is None <==> b.attention_pages && b.dn_matrices_scales && b.conv_rings
            && b.ef_residual,
        match b.first_missing() {
            Some(BundleComponent::AttentionPages) => !b.attention_pages,
            Some(BundleComponent::DnMatricesScales) => !b.dn_matrices_scales,
            Some(BundleComponent::ConvRings) => !b.conv_rings,
            Some(BundleComponent::EfResidual) => !b.ef_residual,
            None => true,
        },
{
}

} // verus!
