use nous_memory::capabilities::{plan_capabilities, CapabilityRequest, RequirementStrength, ServingReadiness};
use nous_memory::capabilities::RequirementStrength::{Forbidden, Optional, Preferred, Required};
use nous_memory::error::Error;

fn request(embedding: RequirementStrength, residual: RequirementStrength, rerank: RequirementStrength) -> CapabilityRequest {
    CapabilityRequest { text_embedding: embedding, residual_sensing: residual, text_rerank: rerank }
}

fn codes(request: CapabilityRequest, ready: ServingReadiness) -> Vec<&'static str> {
    plan_capabilities(request, ready).expect("answered").iter().map(|d| d.code).collect()
}

const NOTHING_READY: ServingReadiness = ServingReadiness { has_text_cue: true, dense_ready: false, wave_ready: false, exploring: true };
const ALL_READY: ServingReadiness = ServingReadiness { has_text_cue: true, dense_ready: true, wave_ready: true, exploring: true };

#[test]
fn required_capabilities_refuse_and_preferred_ones_degrade() {
    assert!(matches!(
        plan_capabilities(request(Required, Optional, Optional), NOTHING_READY),
        Err(Error::Unavailable(m)) if m == "text embedding capability/generation is unavailable"
    ));
    assert!(matches!(
        plan_capabilities(request(Preferred, Required, Optional), NOTHING_READY),
        Err(Error::Unavailable(m)) if m == "residual sensing requires a compatible dense generation"
    ));
    assert!(matches!(
        plan_capabilities(request(Optional, Optional, Required), ALL_READY),
        Err(Error::Unavailable(m)) if m == "text rerank capability is not configured"
    ));
    assert_eq!(
        codes(request(Preferred, Preferred, Preferred), NOTHING_READY),
        vec!["text_embedding_unavailable", "residual_sensing_unavailable", "rerank_unavailable", "wave_generation_unavailable"]
    );
    assert_eq!(codes(request(Required, Required, Preferred), ALL_READY), vec!["rerank_unavailable"]);
    assert!(codes(request(Forbidden, Optional, Forbidden), ALL_READY).is_empty());
    let no_text = ServingReadiness { has_text_cue: false, dense_ready: false, wave_ready: true, exploring: false };
    assert!(codes(request(Required, Required, Optional), no_text).is_empty());
}
