//! Decoding of stored authority vocabularies, API version checks and the rule
//! deciding whether a memory's tags carry a declared semantic order.
use vstd::prelude::*;
use vstd::string::*;
use crate::error::Error;
use crate::text::str_eq;

verus! {

/// The API version this service speaks.
pub const API_VERSION: u32 = 1;

/// Accepts exactly the supported API version.
pub fn check_version(version: u32) -> (result: Result<(), Error>)
    ensures
        result is Ok <==> version == API_VERSION,
        version != API_VERSION ==> (result matches Err(Error::Invalid(_))),
{
    if version != API_VERSION {
        return Err(Error::Invalid("unsupported API version".to_owned()));
    }
    Ok(())
}

/// Memory formation is enabled for a new Subject unless stated otherwise.
pub fn memory_default() -> (enabled: bool)
    ensures
        enabled,
{
    true
}

/// The origin recorded for a tag a host creates without naming one.
pub fn default_explicit_origin() -> (origin: String)
    ensures
        origin@ == "explicit"@,
{
    "explicit".to_owned()
}

/// The class of a memory.
#[derive(Debug, Clone, Copy, PartialEq, Eq, Structural)]
pub enum MemoryClass {
    Specific,
    Integrative,
    Procedural,
}

/// The lifecycle status of a memory object.
#[derive(Debug, Clone, Copy, PartialEq, Eq, Structural)]
pub enum MemoryStatus {
    Active,
    Suppressed,
    Purging,
}

/// The lifecycle of one revision of a memory.
#[derive(Debug, Clone, Copy, PartialEq, Eq, Structural)]
pub enum RevisionLifecycle {
    Current,
    Superseded,
    Revoked,
}

/// How the content of a memory came to be known.
#[derive(Debug, Clone, Copy, PartialEq, Eq, Structural)]
pub enum EpistemicClass {
    Observed,
    Reported,
    Derived,
    Inferred,
    Narrative,
    Simulated,
}

/// The role a piece of evidence plays for a memory revision.
#[derive(Debug, Clone, Copy, PartialEq, Eq, Structural)]
pub enum SupportRole {
    Direct,
    Corroborating,
    Interpretation,
    Contradiction,
    Contextual,
}

/// The stored name of each memory class.
pub open spec fn memory_class_name(c: MemoryClass) -> Seq<char> {
    match c {
        MemoryClass::Specific => "specific"@,
        MemoryClass::Integrative => "integrative"@,
        MemoryClass::Procedural => "procedural"@,
    }
}

/// The stored name of each memory status.
pub open spec fn memory_status_name(s: MemoryStatus) -> Seq<char> {
    match s {
        MemoryStatus::Active => "active"@,
        MemoryStatus::Suppressed => "suppressed"@,
        MemoryStatus::Purging => "purging"@,
    }
}

/// The stored name of each revision lifecycle.
pub open spec fn revision_lifecycle_name(l: RevisionLifecycle) -> Seq<char> {
    match l {
        RevisionLifecycle::Current => "current"@,
        RevisionLifecycle::Superseded => "superseded"@,
        RevisionLifecycle::Revoked => "revoked"@,
    }
}

/// The stored name of each epistemic class.
pub open spec fn epistemic_name(e: EpistemicClass) -> Seq<char> {
    match e {
        EpistemicClass::Observed => "observed"@,
        EpistemicClass::Reported => "reported"@,
        EpistemicClass::Derived => "derived"@,
        EpistemicClass::Inferred => "inferred"@,
        EpistemicClass::Narrative => "narrative"@,
        EpistemicClass::Simulated => "simulated"@,
    }
}

/// The stored name of each support role.
pub open spec fn support_role_name(r: SupportRole) -> Seq<char> {
    match r {
        SupportRole::Direct => "direct"@,
        SupportRole::Corroborating => "corroborating"@,
        SupportRole::Interpretation => "interpretation"@,
        SupportRole::Contradiction => "contradiction"@,
        SupportRole::Contextual => "contextual"@,
    }
}

/// The memory class a stored name denotes, if any.
pub open spec fn spec_parse_memory_class(v: Seq<char>) -> Option<MemoryClass> {
    if v == "specific"@ {
        Some(MemoryClass::Specific)
    } else if v == "integrative"@ {
        Some(MemoryClass::Integrative)
    } else if v == "procedural"@ {
        Some(MemoryClass::Procedural)
    } else {
        None
    }
}

/// The memory status a stored name denotes, if any.
pub open spec fn spec_parse_memory_status(v: Seq<char>) -> Option<MemoryStatus> {
    if v == "active"@ {
        Some(MemoryStatus::Active)
    } else if v == "suppressed"@ {
        Some(MemoryStatus::Suppressed)
    } else if v == "purging"@ {
        Some(MemoryStatus::Purging)
    } else {
        None
    }
}

/// The revision lifecycle a stored name denotes, if any.
pub open spec fn spec_parse_revision_lifecycle(v: Seq<char>) -> Option<RevisionLifecycle> {
    if v == "current"@ {
        Some(RevisionLifecycle::Current)
    } else if v == "superseded"@ {
        Some(RevisionLifecycle::Superseded)
    } else if v == "revoked"@ {
        Some(RevisionLifecycle::Revoked)
    } else {
        None
    }
}

/// The epistemic class a stored name denotes, if any.
pub open spec fn spec_parse_epistemic(v: Seq<char>) -> Option<EpistemicClass> {
    if v == "observed"@ {
        Some(EpistemicClass::Observed)
    } else if v == "reported"@ {
        Some(EpistemicClass::Reported)
    } else if v == "derived"@ {
        Some(EpistemicClass::Derived)
    } else if v == "inferred"@ {
        Some(EpistemicClass::Inferred)
    } else if v == "narrative"@ {
        Some(EpistemicClass::Narrative)
    } else if v == "simulated"@ {
        Some(EpistemicClass::Simulated)
    } else {
        None
    }
}

/// The support role a stored name denotes, if any.
pub open spec fn spec_parse_support(v: Seq<char>) -> Option<SupportRole> {
    if v == "direct"@ {
        Some(SupportRole::Direct)
    } else if v == "corroborating"@ {
        Some(SupportRole::Corroborating)
    } else if v == "interpretation"@ {
        Some(SupportRole::Interpretation)
    } else if v == "contradiction"@ {
        Some(SupportRole::Contradiction)
    } else if v == "contextual"@ {
        Some(SupportRole::Contextual)
    } else {
        None
    }
}

/// Decodes a stored memory class; an unknown name is an authority inconsistency.
pub fn parse_memory_class(value: &str) -> (result: Result<MemoryClass, Error>)
    ensures
        match spec_parse_memory_class(value@) {
            Some(c) => result == Ok::<MemoryClass, Error>(c),
            None => result matches Err(Error::Infrastructure(_)),
        },
{
    if str_eq(value, "specific") {
        Ok(MemoryClass::Specific)
    } else if str_eq(value, "integrative") {
        Ok(MemoryClass::Integrative)
    } else if str_eq(value, "procedural") {
        Ok(MemoryClass::Procedural)
    } else {
        Err(Error::Infrastructure("invalid memory class in Authority".to_owned()))
    }
}

/// Decodes a stored memory status; an unknown name is an authority inconsistency.
pub fn parse_memory_status(value: &str) -> (result: Result<MemoryStatus, Error>)
    ensures
        match spec_parse_memory_status(value@) {
            Some(s) => result == Ok::<MemoryStatus, Error>(s),
            None => result matches Err(Error::Infrastructure(_)),
        },
{
    if str_eq(value, "active") {
        Ok(MemoryStatus::Active)
    } else if str_eq(value, "suppressed") {
        Ok(MemoryStatus::Suppressed)
    } else if str_eq(value, "purging") {
        Ok(MemoryStatus::Purging)
    } else {
        Err(Error::Infrastructure("invalid memory status in Authority".to_owned()))
    }
}

/// Decodes a stored revision lifecycle; an unknown name is an authority inconsistency.
pub fn parse_revision_lifecycle(value: &str) -> (result: Result<RevisionLifecycle, Error>)
    ensures
        match spec_parse_revision_lifecycle(value@) {
            Some(l) => result == Ok::<RevisionLifecycle, Error>(l),
            None => result matches Err(Error::Infrastructure(_)),
        },
{
    if str_eq(value, "current") {
        Ok(RevisionLifecycle::Current)
    } else if str_eq(value, "superseded") {
        Ok(RevisionLifecycle::Superseded)
    } else if str_eq(value, "revoked") {
        Ok(RevisionLifecycle::Revoked)
    } else {
        Err(Error::Infrastructure("invalid revision state in Authority".to_owned()))
    }
}

/// Decodes a stored epistemic class; an unknown name is an authority inconsistency.
pub fn parse_epistemic(value: &str) -> (result: Result<EpistemicClass, Error>)
    ensures
        match spec_parse_epistemic(value@) {
            Some(e) => result == Ok::<EpistemicClass, Error>(e),
            None => result matches Err(Error::Infrastructure(_)),
        },
{
    if str_eq(value, "observed") {
        Ok(EpistemicClass::Observed)
    } else if str_eq(value, "reported") {
        Ok(EpistemicClass::Reported)
    } else if str_eq(value, "derived") {
        Ok(EpistemicClass::Derived)
    } else if str_eq(value, "inferred") {
        Ok(EpistemicClass::Inferred)
    } else if str_eq(value, "narrative") {
        Ok(EpistemicClass::Narrative)
    } else if str_eq(value, "simulated") {
        Ok(EpistemicClass::Simulated)
    } else {
        Err(Error::Infrastructure("invalid epistemic class in Authority".to_owned()))
    }
}

/// Decodes a stored support role; an unknown name is an authority inconsistency.
pub fn parse_support(value: &str) -> (result: Result<SupportRole, Error>)
    ensures
        match spec_parse_support(value@) {
            Some(r) => result == Ok::<SupportRole, Error>(r),
            None => result matches Err(Error::Infrastructure(_)),
        },
{
    if str_eq(value, "direct") {
        Ok(SupportRole::Direct)
    } else if str_eq(value, "corroborating") {
        Ok(SupportRole::Corroborating)
    } else if str_eq(value, "interpretation") {
        Ok(SupportRole::Interpretation)
    } else if str_eq(value, "contradiction") {
        Ok(SupportRole::Contradiction)
    } else if str_eq(value, "contextual") {
        Ok(SupportRole::Contextual)
    } else {
        Err(Error::Infrastructure("invalid support role in Authority".to_owned()))
    }
}

impl SupportRole {
    /// The name under which a support role is stored with its evidence.
    pub fn storage_name(self) -> (name: &'static str)
        ensures
            name@ == support_role_name(self),
    {
        match self {
            SupportRole::Direct => "direct",
            SupportRole::Corroborating => "corroborating",
            SupportRole::Interpretation => "interpretation",
            SupportRole::Contradiction => "contradiction",
            SupportRole::Contextual => "contextual",
        }
    }
}

/// Length, first and third character of a stored name: enough to tell apart the
/// names of each vocabulary.
pub open spec fn name_key(name: Seq<char>) -> (nat, char, char) {
    (name.len(), name[0], name[2])
}

proof fn stored_name_keys()
    ensures
        name_key("specific"@) == (8nat, 's', 'e'),
        name_key("integrative"@) == (11nat, 'i', 't'),
        name_key("procedural"@) == (10nat, 'p', 'o'),
        name_key("active"@) == (6nat, 'a', 't'),
        name_key("suppressed"@) == (10nat, 's', 'p'),
        name_key("purging"@) == (7nat, 'p', 'r'),
        name_key("current"@) == (7nat, 'c', 'r'),
        name_key("superseded"@) == (10nat, 's', 'p'),
        name_key("revoked"@) == (7nat, 'r', 'v'),
        name_key("observed"@) == (8nat, 'o', 's'),
        name_key("reported"@) == (8nat, 'r', 'p'),
        name_key("derived"@) == (7nat, 'd', 'r'),
        name_key("inferred"@) == (8nat, 'i', 'f'),
        name_key("narrative"@) == (9nat, 'n', 'r'),
        name_key("simulated"@) == (9nat, 's', 'm'),
        name_key("direct"@) == (6nat, 'd', 'r'),
        name_key("corroborating"@) == (13nat, 'c', 'r'),
        name_key("interpretation"@) == (14nat, 'i', 't'),
        name_key("contradiction"@) == (13nat, 'c', 'n'),
        name_key("contextual"@) == (10nat, 'c', 'n'),
{
    reveal_strlit("specific");
    assert(name_key("specific"@) == (8nat, 's', 'e'));
    reveal_strlit("integrative");
    assert(name_key("integrative"@) == (11nat, 'i', 't'));
    reveal_strlit("procedural");
    assert(name_key("procedural"@) == (10nat, 'p', 'o'));
    reveal_strlit("active");
    assert(name_key("active"@) == (6nat, 'a', 't'));
    reveal_strlit("suppressed");
    assert(name_key("suppressed"@) == (10nat, 's', 'p'));
    reveal_strlit("purging");
    assert(name_key("purging"@) == (7nat, 'p', 'r'));
    reveal_strlit("current");
    assert(name_key("current"@) == (7nat, 'c', 'r'));
    reveal_strlit("superseded");
    assert(name_key("superseded"@) == (10nat, 's', 'p'));
    reveal_strlit("revoked");
    assert(name_key("revoked"@) == (7nat, 'r', 'v'));
    reveal_strlit("observed");
    assert(name_key("observed"@) == (8nat, 'o', 's'));
    reveal_strlit("reported");
    assert(name_key("reported"@) == (8nat, 'r', 'p'));
    reveal_strlit("derived");
    assert(name_key("derived"@) == (7nat, 'd', 'r'));
    reveal_strlit("inferred");
    assert(name_key("inferred"@) == (8nat, 'i', 'f'));
    reveal_strlit("narrative");
    assert(name_key("narrative"@) == (9nat, 'n', 'r'));
    reveal_strlit("simulated");
    assert(name_key("simulated"@) == (9nat, 's', 'm'));
    reveal_strlit("direct");
    assert(name_key("direct"@) == (6nat, 'd', 'r'));
    reveal_strlit("corroborating");
    assert(name_key("corroborating"@) == (13nat, 'c', 'r'));
    reveal_strlit("interpretation");
    assert(name_key("interpretation"@) == (14nat, 'i', 't'));
    reveal_strlit("contradiction");
    assert(name_key("contradiction"@) == (13nat, 'c', 'n'));
    reveal_strlit("contextual");
    assert(name_key("contextual"@) == (10nat, 'c', 'n'));
}

/// Decoding the stored name of every vocabulary value gives the value back, so
/// what is written into the authority store is read back unchanged.
pub proof fn stored_names_round_trip(
    c: MemoryClass,
    s: MemoryStatus,
    l: RevisionLifecycle,
    e: EpistemicClass,
    r: SupportRole,
)
    ensures
        spec_parse_memory_class(memory_class_name(c)) == Some(c),
        spec_parse_memory_status(memory_status_name(s)) == Some(s),
        spec_parse_revision_lifecycle(revision_lifecycle_name(l)) == Some(l),
        spec_parse_epistemic(epistemic_name(e)) == Some(e),
        spec_parse_support(support_role_name(r)) == Some(r),
{
    stored_name_keys();
}

/// Whether the ordinals `ordinals` of a memory's tags, each with the flag telling
/// whether its order provenance is declared (present and not null), form a
/// declared semantic order: at least two tags, every tag with an ordinal and a
/// declared provenance, and no ordinal repeated.
pub open spec fn spec_order_is_declared(ordinals: Seq<Option<i32>>, declared: Seq<bool>) -> bool {
    &&& ordinals.len() >= 2
    &&& ordinals.len() == declared.len()
    &&& forall|i: int| 0 <= i < ordinals.len() ==> #[trigger] ordinals[i] is Some
    &&& forall|i: int, j: int|
        0 <= i < j < ordinals.len() ==> #[trigger] ordinals[i] != #[trigger] ordinals[j]
    &&& forall|i: int| 0 <= i < declared.len() ==> #[trigger] declared[i]
}

/// Whether a memory's tags carry an explicitly declared semantic order.
pub fn semantic_order_is_declared(ordinals: &[Option<i32>], declared: &[bool]) -> (ordered: bool)
    ensures
        ordered == spec_order_is_declared(ordinals@, declared@),
{
    let n = ordinals.len();
    if n < 2 || n != declared.len() {
        return false;
    }
    let mut i: usize = 0;
    while i < n
        invariant
            n == ordinals@.len(),
            n == declared@.len(),
            i <= n,
            forall|k: int| 0 <= k < i ==> #[trigger] ordinals@[k] is Some,
            forall|k: int| 0 <= k < i ==> #[trigger] declared@[k],
            forall|k: int, j: int| 0 <= k < j < i ==> #[trigger] ordinals@[k] != #[trigger] ordinals@[j],
        decreases n - i,
    {
        let current = match ordinals[i] {
            Some(v) => v,
            None => return false,
        };
        if !declared[i] {
            return false;
        }
        let mut j: usize = 0;
        while j < i
            invariant
                n == ordinals@.len(),
                i < n,
                j <= i,
                ordinals@[i as int] == Some(current),
                forall|k: int| 0 <= k < j ==> ordinals@[k] != ordinals@[i as int],
            decreases i - j,
        {
            if ordinals[j] == Some(current) {
                return false;
            }
            j = j + 1;
        }
        i = i + 1;
    }
    true
}

} // verus!
