//! How a cognitive query's capability requirements meet what is ready to serve:
//! which unmet requirements refuse the query and which degrade it.
use vstd::prelude::*;
use crate::error::Error;

verus! {

/// How strongly a query asks for a capability.
#[derive(Debug, Clone, Copy, PartialEq, Eq, Structural)]
pub enum RequirementStrength {
    Forbidden,
    Optional,
    Preferred,
    Required,
}

/// The capabilities a query asks for.
#[derive(Debug, Clone, Copy, PartialEq, Eq, Structural)]
pub struct CapabilityRequest {
    pub text_embedding: RequirementStrength,
    pub residual_sensing: RequirementStrength,
    pub text_rerank: RequirementStrength,
}

/// What is ready to serve the query.
#[derive(Debug, Clone, Copy, PartialEq, Eq, Structural)]
pub struct ServingReadiness {
    /// The query carries a text or example cue.
    pub has_text_cue: bool,
    /// A dense generation is published and an embedding model is configured.
    pub dense_ready: bool,
    /// A wave generation is published.
    pub wave_ready: bool,
    /// The query asks for exploration.
    pub exploring: bool,
}

/// A way in which the query is answered with less than it asked for.
pub struct Degradation {
    pub code: &'static str,
    pub detail: &'static str,
}

/// Why the query is refused, if a required capability is missing; the first
/// missing one in the order embedding, residual sensing, rerank is reported.
pub open spec fn capability_refusal(request: CapabilityRequest, ready: ServingReadiness) -> Option<
    Seq<char>,
> {
    let dense_missing = ready.has_text_cue && !ready.dense_ready;
    if request.text_embedding == RequirementStrength::Required && dense_missing {
        Some("text embedding capability/generation is unavailable"@)
    } else if request.residual_sensing == RequirementStrength::Required && dense_missing {
        Some("residual sensing requires a compatible dense generation"@)
    } else if request.text_rerank == RequirementStrength::Required {
        Some("text rerank capability is not configured"@)
    } else {
        None
    }
}

/// The degradations, code and detail, of a query that is not refused, in order.
pub open spec fn capability_degradations(request: CapabilityRequest, ready: ServingReadiness) -> Seq<
    (Seq<char>, Seq<char>),
> {
    let dense_missing = ready.has_text_cue && !ready.dense_ready;
    (if request.text_embedding == RequirementStrength::Preferred && dense_missing {
        seq![("text_embedding_unavailable"@, "exact and structured lanes continue"@)]
    } else {
        Seq::empty()
    }) + (if request.residual_sensing == RequirementStrength::Preferred && dense_missing {
        seq![("residual_sensing_unavailable"@, "compatible dense Tag vectors are not ready"@)]
    } else {
        Seq::empty()
    }) + (if request.text_rerank == RequirementStrength::Preferred {
        seq![("rerank_unavailable"@, "no text reranker is configured"@)]
    } else {
        Seq::empty()
    }) + (if !ready.wave_ready && ready.exploring {
        seq![("wave_generation_unavailable"@, "topology lane was not published"@)]
    } else {
        Seq::empty()
    })
}

/// The code and detail of each degradation.
pub open spec fn degradation_views(list: Seq<Degradation>) -> Seq<(Seq<char>, Seq<char>)> {
    list.map_values(|d: Degradation| (d.code@, d.detail@))
}

/// Refuses a query whose required capability is missing, and otherwise lists how it
/// is degraded. No text reranker is ever configured, so a required one refuses the
/// query and a preferred one degrades it.
pub fn plan_capabilities(request: CapabilityRequest, ready: ServingReadiness) -> (planned: Result<
    Vec<Degradation>,
    Error,
>)
    ensures
        match capability_refusal(request, ready) {
            Some(reason) => planned matches Err(Error::Unavailable(m)) && m@ == reason,
            None => planned matches Ok(list) && degradation_views(list@) == capability_degradations(
                request,
                ready,
            ),
        },
{
    let dense_missing = ready.has_text_cue && !ready.dense_ready;
    if request.text_embedding == RequirementStrength::Required && dense_missing {
        return Err(Error::Unavailable("text embedding capability/generation is unavailable".to_owned()));
    }
    if request.residual_sensing == RequirementStrength::Required && dense_missing {
        return Err(Error::Unavailable("residual sensing requires a compatible dense generation".to_owned()));
    }
    if request.text_rerank == RequirementStrength::Required {
        return Err(Error::Unavailable("text rerank capability is not configured".to_owned()));
    }
    let mut list: Vec<Degradation> = Vec::new();
    if request.text_embedding == RequirementStrength::Preferred && dense_missing {
        list.push(
            Degradation {
                code: "text_embedding_unavailable",
                detail: "exact and structured lanes continue",
            },
        );
    }
    if request.residual_sensing == RequirementStrength::Preferred && dense_missing {
        list.push(
            Degradation {
                code: "residual_sensing_unavailable",
                detail: "compatible dense Tag vectors are not ready",
            },
        );
    }
    if request.text_rerank == RequirementStrength::Preferred {
        list.push(Degradation { code: "rerank_unavailable", detail: "no text reranker is configured" });
    }
    if !ready.wave_ready && ready.exploring {
        list.push(
            Degradation {
                code: "wave_generation_unavailable",
                detail: "topology lane was not published",
            },
        );
    }
    assert(degradation_views(list@) =~= capability_degradations(request, ready));
    Ok(list)
}

/// A query is refused only for a capability it requires: when it requires none, it
/// is answered, degraded at most.
pub proof fn preferences_never_refuse(request: CapabilityRequest, ready: ServingReadiness)
    requires
        request.text_embedding != RequirementStrength::Required,
        request.residual_sensing != RequirementStrength::Required,
        request.text_rerank != RequirementStrength::Required,
    ensures
        capability_refusal(request, ready) is None,
{
}

/// A query that neither prefers nor requires any capability and does not explore is
/// answered without degradation.
pub proof fn undemanding_queries_are_not_degraded(request: CapabilityRequest, ready: ServingReadiness)
    requires
        request.text_embedding != RequirementStrength::Required && request.text_embedding
            != RequirementStrength::Preferred,
        request.residual_sensing != RequirementStrength::Required && request.residual_sensing
            != RequirementStrength::Preferred,
        request.text_rerank != RequirementStrength::Required && request.text_rerank
            != RequirementStrength::Preferred,
        !ready.exploring,
    ensures
        capability_refusal(request, ready) is None,
        capability_degradations(request, ready).len() == 0,
{
}

} // verus!
