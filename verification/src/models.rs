//! Configuration of external model endpoints and the boundary checks applied to
//! what a structured-generation model proposes.
use vstd::prelude::*;
use vstd::string::*;
use crate::error::Error;
use crate::text::{str_eq, is_blank, all_white_space};
use crate::authority::EpistemicClass;

verus! {

/// The scheme of `text` when it parses as an absolute URL.
pub uninterp spec fn url_scheme_of(text: Seq<char>) -> Option<Seq<char>>;

/// `reqwest::Url::parse(text)` followed by `Url::scheme`: the URL's scheme when the
/// text parses, nothing when it does not.
#[verifier::external_body]
fn parse_url_scheme(text: &str) -> (scheme: Option<String>)
    ensures
        match scheme {
            Some(s) => url_scheme_of(text@) == Some(s@),
            None => url_scheme_of(text@) is None,
        },
{
    match reqwest::Url::parse(text) {
        Ok(url) => Some(url.scheme().to_string()),
        Err(_) => None,
    }
}

/// The length in bytes of the UTF-8 encoding of `chars`.
pub open spec fn utf8_len(chars: Seq<char>) -> nat {
    vstd::utf8::encode_utf8(chars).len()
}

/// The UTF-8 length of a string, in bytes.
pub fn byte_len(s: &String) -> (n: usize)
    ensures
        n == utf8_len(s@),
{
    s.as_str().as_bytes().len()
}

/// One model role: where it is served and which model identity it must report.
pub struct ModelEndpoint {
    pub enabled: bool,
    /// Full HTTP operation URL.
    pub endpoint: String,
    pub model: String,
    pub revision: String,
    pub preprocessing: String,
    pub timeout_seconds: u64,
    pub max_response_bytes: usize,
}

/// Whether an enabled endpoint is complete: an http(s) URL, a nonblank model
/// identity, revision and preprocessing, and positive timeout and response budget.
pub open spec fn endpoint_complete(e: ModelEndpoint) -> bool {
    &&& url_scheme_of(e.endpoint@) matches Some(s) && (s == "http"@ || s == "https"@)
    &&& !all_white_space(e.model@)
    &&& !all_white_space(e.revision@)
    &&& !all_white_space(e.preprocessing@)
    &&& e.timeout_seconds > 0
    &&& e.max_response_bytes > 0
}

impl ModelEndpoint {
    /// Accepts a disabled endpoint, and an enabled one exactly when it is complete.
    pub fn validate(&self) -> (result: Result<(), Error>)
        ensures
            result is Ok <==> (!self.enabled || endpoint_complete(*self)),
            result is Err ==> (result matches Err(Error::Invalid(_))),
    {
        if !self.enabled {
            return Ok(());
        }
        let scheme = match parse_url_scheme(self.endpoint.as_str()) {
            Some(s) => s,
            None => return Err(Error::Invalid("invalid model endpoint URL".to_owned())),
        };
        let web = str_eq(scheme.as_str(), "http") || str_eq(scheme.as_str(), "https");
        if !web || is_blank(self.model.as_str()) || is_blank(self.revision.as_str()) || is_blank(
            self.preprocessing.as_str(),
        ) || self.timeout_seconds == 0 || self.max_response_bytes == 0 {
            return Err(
                Error::Invalid("enabled model role requires complete identity and positive timeout/response budget".to_owned()),
            );
        }
        Ok(())
    }
}

/// Retained material handed to a structured-generation model.
pub struct ExtractionMaterial {
    pub source_id: u128,
    pub artifact_id: u128,
    pub text: String,
    pub epistemic_class: EpistemicClass,
}

/// The kind of a memory.
#[derive(Debug, Clone, Copy, PartialEq, Eq, Structural)]
pub enum MemoryKind {
    Reference,
    Episode,
    Semantic,
}

/// One memory a model proposes from the material.
pub struct ProposedMemory {
    pub kind: MemoryKind,
    pub title: String,
    pub text: String,
    pub source_refs: Vec<u128>,
    pub artifact_refs: Vec<u128>,
    pub entities: Vec<String>,
}

/// What a structured-generation model returned.
pub struct ExtractionResult {
    pub model: String,
    pub revision: String,
    pub memories: Vec<ProposedMemory>,
}

/// Whether `id` is the source of some material item.
pub open spec fn material_has_source(material: Seq<ExtractionMaterial>, id: u128) -> bool {
    exists|i: int| 0 <= i < material.len() && #[trigger] material[i].source_id == id
}

/// Whether `id` is the artifact of some material item.
pub open spec fn material_has_artifact(material: Seq<ExtractionMaterial>, id: u128) -> bool {
    exists|i: int| 0 <= i < material.len() && #[trigger] material[i].artifact_id == id
}

/// A proposal stays within content bounds and cites only the material it was given.
pub open spec fn proposal_within_bounds(p: ProposedMemory, material: Seq<ExtractionMaterial>) -> bool {
    &&& 0 < utf8_len(p.title@) <= 4096
    &&& utf8_len(p.text@) <= 65536
    &&& p.source_refs@.len() > 0
    &&& p.artifact_refs@.len() > 0
    &&& p.entities@.len() <= 128
    &&& forall|i: int| 0 <= i < p.source_refs@.len() ==> material_has_source(material, #[trigger] p.source_refs@[i])
    &&& forall|i: int|
        0 <= i < p.artifact_refs@.len() ==> material_has_artifact(material, #[trigger] p.artifact_refs@[i])
}

/// A result comes from the configured model and revision, proposes at most 128
/// memories, and every proposal is within bounds.
pub open spec fn extraction_acceptable(
    result: ExtractionResult,
    model: Seq<char>,
    revision: Seq<char>,
    material: Seq<ExtractionMaterial>,
) -> bool {
    &&& result.model@ == model
    &&& result.revision@ == revision
    &&& result.memories@.len() <= 128
    &&& forall|i: int| 0 <= i < result.memories@.len() ==> proposal_within_bounds(#[trigger] result.memories@[i], material)
}

fn has_source(material: &[ExtractionMaterial], id: u128) -> (found: bool)
    ensures
        found == material_has_source(material@, id),
{
    let mut i: usize = 0;
    while i < material.len()
        invariant
            i <= material@.len(),
            forall|j: int| 0 <= j < i ==> #[trigger] material@[j].source_id != id,
        decreases material@.len() - i,
    {
        if material[i].source_id == id {
            return true;
        }
        i = i + 1;
    }
    false
}

fn has_artifact(material: &[ExtractionMaterial], id: u128) -> (found: bool)
    ensures
        found == material_has_artifact(material@, id),
{
    let mut i: usize = 0;
    while i < material.len()
        invariant
            i <= material@.len(),
            forall|j: int| 0 <= j < i ==> #[trigger] material@[j].artifact_id != id,
        decreases material@.len() - i,
    {
        if material[i].artifact_id == id {
            return true;
        }
        i = i + 1;
    }
    false
}

fn proposal_ok(p: &ProposedMemory, material: &[ExtractionMaterial]) -> (ok: bool)
    ensures
        ok == proposal_within_bounds(*p, material@),
{
    let title = byte_len(&p.title);
    if title == 0 || title > 4096 || byte_len(&p.text) > 65536 || p.source_refs.len() == 0
        || p.artifact_refs.len() == 0 || p.entities.len() > 128 {
        return false;
    }
    let mut i: usize = 0;
    while i < p.source_refs.len()
        invariant
            i <= p.source_refs@.len(),
            forall|j: int| 0 <= j < i ==> material_has_source(material@, #[trigger] p.source_refs@[j]),
        decreases p.source_refs@.len() - i,
    {
        if !has_source(material, p.source_refs[i]) {
            return false;
        }
        i = i + 1;
    }
    let mut k: usize = 0;
    while k < p.artifact_refs.len()
        invariant
            k <= p.artifact_refs@.len(),
            forall|j: int| 0 <= j < k ==> material_has_artifact(material@, #[trigger] p.artifact_refs@[j]),
        decreases p.artifact_refs@.len() - k,
    {
        if !has_artifact(material, p.artifact_refs[k]) {
            return false;
        }
        k = k + 1;
    }
    true
}

/// Checks a structured-generation result against the configured identity and the
/// material it was given.
pub fn check_extraction(
    result: &ExtractionResult,
    config: &ModelEndpoint,
    material: &[ExtractionMaterial],
) -> (checked: Result<(), Error>)
    ensures
        checked is Ok <==> extraction_acceptable(*result, config.model@, config.revision@, material@),
        checked is Err ==> (checked matches Err(Error::Invalid(_))),
{
    if result.model != config.model || result.revision != config.revision || result.memories.len()
        > 128 {
        return Err(Error::Invalid("generation identity or proposal count is invalid".to_owned()));
    }
    let mut i: usize = 0;
    while i < result.memories.len()
        invariant
            i <= result.memories@.len(),
            forall|j: int| 0 <= j < i ==> proposal_within_bounds(#[trigger] result.memories@[j], material@),
        decreases result.memories@.len() - i,
    {
        if !proposal_ok(&result.memories[i], material) {
            return Err(Error::Invalid("model proposal violates source or content boundaries".to_owned()));
        }
        i = i + 1;
    }
    Ok(())
}

/// The model role whose response is being read.
#[derive(Debug, Clone, Copy, PartialEq, Eq, Structural)]
pub enum ModelRole {
    Embedding,
    Rerank,
    Generation,
}

/// Byte accounting of one model response read chunk by chunk against the role's
/// response budget.
pub struct ResponseBudget {
    received: usize,
    max_response_bytes: usize,
}

impl ResponseBudget {
    /// Bytes accepted so far.
    pub closed spec fn received_bytes(&self) -> nat {
        self.received as nat
    }

    /// The response budget.
    pub closed spec fn limit(&self) -> nat {
        self.max_response_bytes as nat
    }

    /// The accepted bytes never exceed the budget.
    pub closed spec fn wf(&self) -> bool {
        self.received <= self.max_response_bytes
    }

    /// A budget of `max_response_bytes` with nothing read yet.
    pub fn new(max_response_bytes: usize) -> (budget: ResponseBudget)
        ensures
            budget.wf(),
            budget.received_bytes() == 0,
            budget.limit() == max_response_bytes,
    {
        ResponseBudget { received: 0, max_response_bytes }
    }

    /// Accepts the next chunk when it fits in what is left of the budget; a chunk
    /// that does not fit fails the response and leaves the count unchanged.
    pub fn accept_chunk(&mut self, chunk_len: usize, role: ModelRole) -> (result: Result<(), Error>)
        requires
            old(self).wf(),
        ensures
            final(self).wf(),
            final(self).limit() == old(self).limit(),
            result is Ok <==> chunk_len <= old(self).limit() - old(self).received_bytes(),
            result is Ok ==> final(self).received_bytes() == old(self).received_bytes() + chunk_len,
            result is Err ==> final(self).received_bytes() == old(self).received_bytes() && (
            result matches Err(Error::Invalid(_))),
    {
        if chunk_len > self.max_response_bytes - self.received {
            return Err(
                match role {
                    ModelRole::Embedding => Error::Invalid("embedding response exceeds budget".to_owned()),
                    ModelRole::Rerank => Error::Invalid("rerank response exceeds budget".to_owned()),
                    ModelRole::Generation => Error::Invalid("generation response exceeds budget".to_owned()),
                },
            );
        }
        self.received = self.received + chunk_len;
        Ok(())
    }

    /// Bytes accepted so far.
    pub fn received(&self) -> (n: usize)
        ensures
            n == self.received_bytes(),
    {
        self.received
    }
}

/// However a response is chunked, the bytes a budget accepts stay within it.
pub proof fn accepted_response_bytes_stay_within_budget(budget: ResponseBudget)
    requires
        budget.wf(),
    ensures
        budget.received_bytes() <= budget.limit(),
{
}

/// One entry of a rerank response: the document index it ranks and whether its
/// score is a finite number.
#[derive(Debug, Clone, Copy, PartialEq, Eq, Structural)]
pub struct RankedIndex {
    pub index: usize,
    pub score_finite: bool,
}

/// What a rerank model returned.
pub struct RerankResult {
    pub model: String,
    pub revision: String,
    pub ranked: Vec<RankedIndex>,
}

/// A rerank response comes from the configured model and revision and ranks each of
/// the `documents` documents once, with a finite score.
pub open spec fn rerank_acceptable(
    result: RerankResult,
    model: Seq<char>,
    revision: Seq<char>,
    documents: nat,
) -> bool {
    &&& result.model@ == model
    &&& result.revision@ == revision
    &&& result.ranked@.len() == documents
    &&& forall|i: int| 0 <= i < result.ranked@.len() ==> #[trigger] result.ranked@[i].index < documents
        && result.ranked@[i].score_finite
    &&& forall|i: int, j: int|
        0 <= i < j < result.ranked@.len() ==> #[trigger] result.ranked@[i].index
            != #[trigger] result.ranked@[j].index
}

/// Checks a rerank response against the configured identity and the documents sent.
pub fn check_rerank(result: &RerankResult, config: &ModelEndpoint, documents: usize) -> (checked:
    Result<(), Error>)
    ensures
        checked is Ok <==> rerank_acceptable(*result, config.model@, config.revision@, documents as nat),
        checked is Err ==> (checked matches Err(Error::Invalid(_))),
{
    if result.model != config.model || result.revision != config.revision || result.ranked.len()
        != documents {
        return Err(Error::Invalid("rerank identity, indices or scores are invalid".to_owned()));
    }
    let mut i: usize = 0;
    while i < result.ranked.len()
        invariant
            i <= result.ranked@.len(),
            forall|a: int| 0 <= a < i ==> #[trigger] result.ranked@[a].index < documents
                && result.ranked@[a].score_finite,
            forall|a: int, b: int|
                0 <= a < b < i ==> #[trigger] result.ranked@[a].index != #[trigger] result.ranked@[b].index,
        decreases result.ranked@.len() - i,
    {
        let entry = result.ranked[i];
        if entry.index >= documents || !entry.score_finite {
            return Err(Error::Invalid("rerank identity, indices or scores are invalid".to_owned()));
        }
        let mut j: usize = 0;
        while j < i
            invariant
                i < result.ranked@.len(),
                j <= i,
                entry == result.ranked@[i as int],
                forall|a: int| 0 <= a < j ==> #[trigger] result.ranked@[a].index != entry.index,
            decreases i - j,
        {
            if result.ranked[j].index == entry.index {
                return Err(Error::Invalid("rerank identity, indices or scores are invalid".to_owned()));
            }
            j = j + 1;
        }
        i = i + 1;
    }
    Ok(())
}

/// An accepted rerank response is a permutation of the documents: every document
/// index below `documents` is ranked, and by exactly one entry.
pub proof fn accepted_rerank_ranks_each_document_once(
    result: RerankResult,
    model: Seq<char>,
    revision: Seq<char>,
    documents: nat,
    d: int,
)
    requires
        rerank_acceptable(result, model, revision, documents),
        0 <= d < documents,
    ensures
        exists|i: int| 0 <= i < result.ranked@.len() && #[trigger] result.ranked@[i].index == d,
{
    let indices = result.ranked@.map_values(|r: RankedIndex| r.index as int);
    assert(indices.no_duplicates()) by {
        assert forall|i: int, j: int| 0 <= i < indices.len() && 0 <= j < indices.len() && i != j
            implies indices[i] != indices[j] by {
            if i < j {
                assert(result.ranked@[i].index != result.ranked@[j].index);
            } else {
                assert(result.ranked@[j].index != result.ranked@[i].index);
            }
        }
    }
    indices.unique_seq_to_set();
    let range = vstd::set_lib::set_int_range(0, documents as int);
    vstd::set_lib::lemma_int_range(0, documents as int);
    assert(indices.to_set().subset_of(range)) by {
        assert forall|x: int| indices.to_set().contains(x) implies range.contains(x) by {
            let i = choose|i: int| 0 <= i < indices.len() && indices[i] == x;
            assert(result.ranked@[i].index < documents);
        }
    }
    vstd::seq_lib::seq_to_set_is_finite(indices);
    vstd::set_lib::lemma_subset_equality(indices.to_set(), range);
    assert(range.contains(d));
    assert(indices.to_set().contains(d));
    let i = choose|i: int| 0 <= i < indices.len() && indices[i] == d;
    assert(result.ranked@[i].index == d);
}

/// The shape of one returned embedding: its dimension and whether every value is a
/// finite number.
#[derive(Debug, Clone, Copy, PartialEq, Eq, Structural)]
pub struct VectorShape {
    pub dimension: usize,
    pub values_finite: bool,
}

/// What an embedding model returned, one shape per embedded text.
pub struct EmbeddingResult {
    pub model: String,
    pub revision: String,
    pub vectors: Vec<VectorShape>,
}

/// An embedding response comes from the configured model and revision, embeds each
/// of the `expected` texts, and all its vectors share one dimension of 1 to 65536
/// with finite values.
pub open spec fn embedding_acceptable(
    result: EmbeddingResult,
    model: Seq<char>,
    revision: Seq<char>,
    expected: nat,
) -> bool {
    &&& result.model@ == model
    &&& result.revision@ == revision
    &&& result.vectors@.len() == expected
    &&& expected > 0
    &&& 0 < result.vectors@[0].dimension <= 65536
    &&& forall|i: int| 0 <= i < result.vectors@.len() ==> #[trigger] result.vectors@[i].dimension
        == result.vectors@[0].dimension && result.vectors@[i].values_finite
}

/// Checks an embedding response against the configured identity and the number of
/// texts sent.
pub fn validate_embedding(result: &EmbeddingResult, config: &ModelEndpoint, expected: usize) -> (checked:
    Result<(), Error>)
    ensures
        checked is Ok <==> embedding_acceptable(*result, config.model@, config.revision@, expected as nat),
        checked is Err ==> (checked matches Err(Error::Invalid(_))),
{
    let dimension = if result.vectors.len() == 0 {
        0
    } else {
        result.vectors[0].dimension
    };
    if result.model != config.model || result.revision != config.revision || result.vectors.len()
        != expected || dimension == 0 || dimension > 65536 {
        return Err(Error::Invalid("embedding identity, count, dimensions or values are invalid".to_owned()));
    }
    let mut i: usize = 0;
    while i < result.vectors.len()
        invariant
            i <= result.vectors@.len(),
            result.vectors@.len() > 0,
            dimension == result.vectors@[0].dimension,
            forall|a: int|
                #![trigger result.vectors@[a]]
                0 <= a < i ==> result.vectors@[a].dimension == dimension && result.vectors@[a].values_finite,
        decreases result.vectors@.len() - i,
    {
        let shape = result.vectors[i];
        if shape.dimension != dimension || !shape.values_finite {
            return Err(Error::Invalid("embedding identity, count, dimensions or values are invalid".to_owned()));
        }
        assert(result.vectors@[i as int] == shape);
        i = i + 1;
    }
    Ok(())
}

/// An accepted extraction cites only the material it was given: every source and
/// every artifact a proposal names is the source or the artifact of some material
/// item. A result that cites anything else is refused.
pub proof fn accepted_extractions_cite_only_given_material(
    result: ExtractionResult,
    model: Seq<char>,
    revision: Seq<char>,
    material: Seq<ExtractionMaterial>,
    i: int,
    k: int,
)
    requires
        extraction_acceptable(result, model, revision, material),
        0 <= i < result.memories@.len(),
    ensures
        0 <= k < result.memories@[i].source_refs@.len() ==> exists|j: int|
            0 <= j < material.len() && material[j].source_id == result.memories@[i].source_refs@[k],
        0 <= k < result.memories@[i].artifact_refs@.len() ==> exists|j: int|
            0 <= j < material.len() && material[j].artifact_id == result.memories@[i].artifact_refs@[k],
        result.model@ == model && result.revision@ == revision,
        result.memories@[i].source_refs@.len() > 0 && result.memories@[i].artifact_refs@.len() > 0,
{
    let p = result.memories@[i];
    assert(proposal_within_bounds(p, material));
    if 0 <= k < p.source_refs@.len() {
        assert(material_has_source(material, p.source_refs@[k]));
    }
    if 0 <= k < p.artifact_refs@.len() {
        assert(material_has_artifact(material, p.artifact_refs@[k]));
    }
}

} // verus!
