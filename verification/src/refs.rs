//! References to cognitive objects, identified by 128-bit identifiers or by
//! host-assigned textual identities.
use vstd::prelude::*;
use vstd::string::*;
use vstd::arithmetic::power::pow;

verus! {

/// A reference to an object of the Subject's cognition or evidence.
#[derive(Debug)]
pub enum CognitiveRef {
    Memory(u128),
    MemoryRevision(u128),
    Artifact(u128),
    SourceRegion(u128),
    DerivedRepresentation(u128),
    DerivedRegion(u128),
    Tag(u128),
    Anchor(u128),
    Occurrence(u128),
    Session(u128),
    Resource(String),
    ExternalObject(String),
    Entity(String),
}

/// Mathematical value of a [`CognitiveRef`]: textual identities by their characters.
pub enum RefView {
    Memory(u128),
    MemoryRevision(u128),
    Artifact(u128),
    SourceRegion(u128),
    DerivedRepresentation(u128),
    DerivedRegion(u128),
    Tag(u128),
    Anchor(u128),
    Occurrence(u128),
    Session(u128),
    Resource(Seq<char>),
    ExternalObject(Seq<char>),
    Entity(Seq<char>),
}

impl View for CognitiveRef {
    type V = RefView;

    open spec fn view(&self) -> RefView {
        match self {
            CognitiveRef::Memory(id) => RefView::Memory(*id),
            CognitiveRef::MemoryRevision(id) => RefView::MemoryRevision(*id),
            CognitiveRef::Artifact(id) => RefView::Artifact(*id),
            CognitiveRef::SourceRegion(id) => RefView::SourceRegion(*id),
            CognitiveRef::DerivedRepresentation(id) => RefView::DerivedRepresentation(*id),
            CognitiveRef::DerivedRegion(id) => RefView::DerivedRegion(*id),
            CognitiveRef::Tag(id) => RefView::Tag(*id),
            CognitiveRef::Anchor(id) => RefView::Anchor(*id),
            CognitiveRef::Occurrence(id) => RefView::Occurrence(*id),
            CognitiveRef::Session(id) => RefView::Session(*id),
            CognitiveRef::Resource(s) => RefView::Resource(s@),
            CognitiveRef::ExternalObject(s) => RefView::ExternalObject(s@),
            CognitiveRef::Entity(s) => RefView::Entity(s@),
        }
    }
}

/// The views of a sequence of references.
pub open spec fn ref_views(refs: Seq<CognitiveRef>) -> Seq<RefView> {
    refs.map_values(|r: CognitiveRef| r@)
}

impl CognitiveRef {
    /// Whether two references denote the same object.
    pub fn same_as(&self, other: &CognitiveRef) -> (same: bool)
        ensures
            same == (self@ == other@),
    {
        match (self, other) {
            (CognitiveRef::Memory(a), CognitiveRef::Memory(b)) => *a == *b,
            (CognitiveRef::MemoryRevision(a), CognitiveRef::MemoryRevision(b)) => *a == *b,
            (CognitiveRef::Artifact(a), CognitiveRef::Artifact(b)) => *a == *b,
            (CognitiveRef::SourceRegion(a), CognitiveRef::SourceRegion(b)) => *a == *b,
            (
                CognitiveRef::DerivedRepresentation(a),
                CognitiveRef::DerivedRepresentation(b),
            ) => *a == *b,
            (CognitiveRef::DerivedRegion(a), CognitiveRef::DerivedRegion(b)) => *a == *b,
            (CognitiveRef::Tag(a), CognitiveRef::Tag(b)) => *a == *b,
            (CognitiveRef::Anchor(a), CognitiveRef::Anchor(b)) => *a == *b,
            (CognitiveRef::Occurrence(a), CognitiveRef::Occurrence(b)) => *a == *b,
            (CognitiveRef::Session(a), CognitiveRef::Session(b)) => *a == *b,
            (CognitiveRef::Resource(a), CognitiveRef::Resource(b)) => *a == *b,
            (CognitiveRef::ExternalObject(a), CognitiveRef::ExternalObject(b)) => *a == *b,
            (CognitiveRef::Entity(a), CognitiveRef::Entity(b)) => *a == *b,
            _ => false,
        }
    }

    /// A copy of this reference.
    pub fn duplicate(&self) -> (copy: CognitiveRef)
        ensures
            copy@ == self@,
    {
        match self {
            CognitiveRef::Memory(id) => CognitiveRef::Memory(*id),
            CognitiveRef::MemoryRevision(id) => CognitiveRef::MemoryRevision(*id),
            CognitiveRef::Artifact(id) => CognitiveRef::Artifact(*id),
            CognitiveRef::SourceRegion(id) => CognitiveRef::SourceRegion(*id),
            CognitiveRef::DerivedRepresentation(id) => CognitiveRef::DerivedRepresentation(*id),
            CognitiveRef::DerivedRegion(id) => CognitiveRef::DerivedRegion(*id),
            CognitiveRef::Tag(id) => CognitiveRef::Tag(*id),
            CognitiveRef::Anchor(id) => CognitiveRef::Anchor(*id),
            CognitiveRef::Occurrence(id) => CognitiveRef::Occurrence(*id),
            CognitiveRef::Session(id) => CognitiveRef::Session(*id),
            CognitiveRef::Resource(s) => CognitiveRef::Resource(s.clone()),
            CognitiveRef::ExternalObject(s) => CognitiveRef::ExternalObject(s.clone()),
            CognitiveRef::Entity(s) => CognitiveRef::Entity(s.clone()),
        }
    }
}

/// Copies of a slice of references, in order.
pub fn duplicate_all(refs: &[CognitiveRef]) -> (copies: Vec<CognitiveRef>)
    ensures
        ref_views(copies@) == ref_views(refs@),
{
    let mut copies: Vec<CognitiveRef> = Vec::new();
    let mut i: usize = 0;
    while i < refs.len()
        invariant
            i <= refs.len(),
            ref_views(copies@) == ref_views(refs@.subrange(0, i as int)),
        decreases refs.len() - i,
    {
        let copy = refs[i].duplicate();
        proof {
            assert(refs@.subrange(0, i + 1) == refs@.subrange(0, i as int).push(refs@[i as int]));
            assert(ref_views(copies@.push(copy)) == ref_views(copies@).push(copy@));
            assert(ref_views(refs@.subrange(0, i as int).push(refs@[i as int])) == ref_views(
                refs@.subrange(0, i as int),
            ).push(refs@[i as int]@));
        }
        copies.push(copy);
        i = i + 1;
    }
    assert(refs@.subrange(0, refs.len() as int) == refs@);
    copies
}

/// Whether `r` occurs, by value, in `refs`.
pub fn contains_ref(refs: &[CognitiveRef], r: &CognitiveRef) -> (found: bool)
    ensures
        found == ref_views(refs@).contains(r@),
{
    let mut i: usize = 0;
    while i < refs.len()
        invariant
            i <= refs.len(),
            forall|j: int| 0 <= j < i ==> refs@[j]@ != r@,
        decreases refs.len() - i,
    {
        if refs[i].same_as(r) {
            assert(ref_views(refs@)[i as int] == r@);
            return true;
        }
        i = i + 1;
    }
    proof {
        if ref_views(refs@).contains(r@) {
            let k = choose|k: int| 0 <= k < ref_views(refs@).len() && ref_views(refs@)[k] == r@;
            assert(refs@[k]@ == r@);
        }
    }
    false
}


/// The lowercase hexadecimal digit for `d`, which is below 16.
pub open spec fn hex_digit(d: int) -> char {
    if d < 10 {
        (48 + d) as char
    } else {
        (87 + d) as char
    }
}

/// The canonical text of a 128-bit identifier: its 32 lowercase hexadecimal digits,
/// most significant first, in groups of 8, 4, 4, 4 and 12 joined by hyphens.
pub open spec fn uuid_text(id: u128) -> Seq<char> {
    Seq::new(
        36,
        |i: int|
            if i == 8 || i == 13 || i == 18 || i == 23 {
                '-'
            } else {
                let k = if i < 8 {
                    i
                } else if i < 13 {
                    i - 1
                } else if i < 18 {
                    i - 2
                } else if i < 23 {
                    i - 3
                } else {
                    i - 4
                };
                hex_digit((id as int / pow(16, (31 - k) as nat)) % 16)
            },
    )
}

/// `uuid::Uuid::from_u128(id).to_string()`: the crate's `Display` writes the
/// hyphenated lowercase form of the big-endian bytes of `id`, which `uuid_text` states.
#[verifier::external_body]
pub(crate) fn uuid_string(id: u128) -> (text: String)
    ensures
        text@ == uuid_text(id),
{
    uuid::Uuid::from_u128(id).to_string()
}

/// The identifier that `uuid::Uuid::parse_str` reads from a text, or `None` where the
/// parser refuses it.
pub uninterp spec fn parsed_uuid(text: Seq<char>) -> Option<u128>;

/// `uuid::Uuid::parse_str(text)`, taken as its 128-bit value. The crate's parser reads
/// the simple, hyphenated, braced and URN forms with hex digits of either case, and
/// builds the value from the digits most significant first; the contract names the
/// outcome and states that the canonical text of an identifier reads back as it. Which
/// other texts are accepted is left to the name.
#[verifier::external_body]
pub(crate) fn parse_uuid(text: &str) -> (id: Option<u128>)
    ensures
        id == parsed_uuid(text@),
        forall|x: u128| text@ == uuid_text(x) ==> id == Some(x),
{
    uuid::Uuid::parse_str(text).ok().map(|u| u.as_u128())
}

/// The kind under which a reference is stored and named.
pub open spec fn ref_kind(r: RefView) -> Seq<char> {
    match r {
        RefView::Memory(_) => "memory"@,
        RefView::MemoryRevision(_) => "memory_revision"@,
        RefView::Artifact(_) => "artifact"@,
        RefView::SourceRegion(_) => "source_region"@,
        RefView::DerivedRepresentation(_) => "derived_representation"@,
        RefView::DerivedRegion(_) => "derived_region"@,
        RefView::Tag(_) => "tag"@,
        RefView::Anchor(_) => "anchor"@,
        RefView::Occurrence(_) => "occurrence"@,
        RefView::Session(_) => "session"@,
        RefView::Resource(_) => "resource"@,
        RefView::ExternalObject(_) => "external_object"@,
        RefView::Entity(_) => "entity"@,
    }
}

/// The value under which a reference is stored: the identifier's canonical text,
/// or the host's textual identity.
pub open spec fn ref_value(r: RefView) -> Seq<char> {
    match r {
        RefView::Memory(id) => uuid_text(id),
        RefView::MemoryRevision(id) => uuid_text(id),
        RefView::Artifact(id) => uuid_text(id),
        RefView::SourceRegion(id) => uuid_text(id),
        RefView::DerivedRepresentation(id) => uuid_text(id),
        RefView::DerivedRegion(id) => uuid_text(id),
        RefView::Tag(id) => uuid_text(id),
        RefView::Anchor(id) => uuid_text(id),
        RefView::Occurrence(id) => uuid_text(id),
        RefView::Session(id) => uuid_text(id),
        RefView::Resource(s) => s,
        RefView::ExternalObject(s) => s,
        RefView::Entity(s) => s,
    }
}

/// The support root of a reference: `kind:value`.
pub open spec fn root_text(r: RefView) -> Seq<char> {
    ref_kind(r) + ":"@ + ref_value(r)
}

impl CognitiveRef {
    /// The stored kind of this reference.
    pub fn kind(&self) -> (kind: &'static str)
        ensures
            kind@ == ref_kind(self@),
    {
        match self {
            CognitiveRef::Memory(_) => "memory",
            CognitiveRef::MemoryRevision(_) => "memory_revision",
            CognitiveRef::Artifact(_) => "artifact",
            CognitiveRef::SourceRegion(_) => "source_region",
            CognitiveRef::DerivedRepresentation(_) => "derived_representation",
            CognitiveRef::DerivedRegion(_) => "derived_region",
            CognitiveRef::Tag(_) => "tag",
            CognitiveRef::Anchor(_) => "anchor",
            CognitiveRef::Occurrence(_) => "occurrence",
            CognitiveRef::Session(_) => "session",
            CognitiveRef::Resource(_) => "resource",
            CognitiveRef::ExternalObject(_) => "external_object",
            CognitiveRef::Entity(_) => "entity",
        }
    }

    /// The stored value of this reference.
    pub fn value(&self) -> (value: String)
        ensures
            value@ == ref_value(self@),
    {
        match self {
            CognitiveRef::Memory(id) => uuid_string(*id),
            CognitiveRef::MemoryRevision(id) => uuid_string(*id),
            CognitiveRef::Artifact(id) => uuid_string(*id),
            CognitiveRef::SourceRegion(id) => uuid_string(*id),
            CognitiveRef::DerivedRepresentation(id) => uuid_string(*id),
            CognitiveRef::DerivedRegion(id) => uuid_string(*id),
            CognitiveRef::Tag(id) => uuid_string(*id),
            CognitiveRef::Anchor(id) => uuid_string(*id),
            CognitiveRef::Occurrence(id) => uuid_string(*id),
            CognitiveRef::Session(id) => uuid_string(*id),
            CognitiveRef::Resource(s) => s.clone(),
            CognitiveRef::ExternalObject(s) => s.clone(),
            CognitiveRef::Entity(s) => s.clone(),
        }
    }
}

/// The support root of `reference`, `kind:value`; every reference has one.
pub fn support_root(reference: &CognitiveRef) -> (root: Option<String>)
    ensures
        root matches Some(text) && text@ == root_text(reference@),
{
    let mut text = reference.kind().to_owned();
    text.append(":");
    let value = reference.value();
    text.append(value.as_str());
    Some(text)
}

} // verus!
