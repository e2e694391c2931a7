//! The elements of the legacy Dublin Core namespace.
use vstd::prelude::*;
use crate::bs::{ascii, bytes_eq};

verus! {

/// An element of the legacy Dublin Core namespace.
#[derive(Debug, PartialEq, Eq, Structural, Clone, Copy)]
pub enum DublinCoreLegacyNamespace {
    Contributor,
    Coverage,
    Creator,
    Date,
    Description,
    Format,
    Identifier,
    Language,
    Publisher,
    Relation,
    Rights,
    Subject,
    Title,
    Type,
    Unknown,
}

/// The Dublin Core element a local name stands for.
pub open spec fn dublin_core_element(name: Seq<u8>) -> DublinCoreLegacyNamespace {
    if name == ascii("contributor"@) {
        DublinCoreLegacyNamespace::Contributor
    } else if name == ascii("coverage"@) {
        DublinCoreLegacyNamespace::Coverage
    } else if name == ascii("creator"@) {
        DublinCoreLegacyNamespace::Creator
    } else if name == ascii("date"@) {
        DublinCoreLegacyNamespace::Date
    } else if name == ascii("description"@) {
        DublinCoreLegacyNamespace::Description
    } else if name == ascii("format"@) {
        DublinCoreLegacyNamespace::Format
    } else if name == ascii("identifier"@) {
        DublinCoreLegacyNamespace::Identifier
    } else if name == ascii("language"@) {
        DublinCoreLegacyNamespace::Language
    } else if name == ascii("publisher"@) {
        DublinCoreLegacyNamespace::Publisher
    } else if name == ascii("relation"@) {
        DublinCoreLegacyNamespace::Relation
    } else if name == ascii("rights"@) {
        DublinCoreLegacyNamespace::Rights
    } else if name == ascii("subject"@) {
        DublinCoreLegacyNamespace::Subject
    } else if name == ascii("title"@) {
        DublinCoreLegacyNamespace::Title
    } else if name == ascii("type"@) {
        DublinCoreLegacyNamespace::Type
    } else {
        DublinCoreLegacyNamespace::Unknown
    }
}

/// The Dublin Core element a local name stands for.
fn dublin_core_element_of(name: &[u8]) -> (r: DublinCoreLegacyNamespace)
    ensures
        r == dublin_core_element(name@),
{
    let k0: [u8; 11] = [0x63, 0x6f, 0x6e, 0x74, 0x72, 0x69, 0x62, 0x75, 0x74, 0x6f, 0x72];
    proof {
        reveal_strlit("contributor");
        assert(k0@ =~= ascii("contributor"@));
    }
    if bytes_eq(name, k0.as_slice()) {
        return DublinCoreLegacyNamespace::Contributor;
    }
    let k1: [u8; 8] = [0x63, 0x6f, 0x76, 0x65, 0x72, 0x61, 0x67, 0x65];
    proof {
        reveal_strlit("coverage");
        assert(k1@ =~= ascii("coverage"@));
    }
    if bytes_eq(name, k1.as_slice()) {
        return DublinCoreLegacyNamespace::Coverage;
    }
    let k2: [u8; 7] = [0x63, 0x72, 0x65, 0x61, 0x74, 0x6f, 0x72];
    proof {
        reveal_strlit("creator");
        assert(k2@ =~= ascii("creator"@));
    }
    if bytes_eq(name, k2.as_slice()) {
        return DublinCoreLegacyNamespace::Creator;
    }
    let k3: [u8; 4] = [0x64, 0x61, 0x74, 0x65];
    proof {
        reveal_strlit("date");
        assert(k3@ =~= ascii("date"@));
    }
    if bytes_eq(name, k3.as_slice()) {
        return DublinCoreLegacyNamespace::Date;
    }
    let k4: [u8; 11] = [0x64, 0x65, 0x73, 0x63, 0x72, 0x69, 0x70, 0x74, 0x69, 0x6f, 0x6e];
    proof {
        reveal_strlit("description");
        assert(k4@ =~= ascii("description"@));
    }
    if bytes_eq(name, k4.as_slice()) {
        return DublinCoreLegacyNamespace::Description;
    }
    let k5: [u8; 6] = [0x66, 0x6f, 0x72, 0x6d, 0x61, 0x74];
    proof {
        reveal_strlit("format");
        assert(k5@ =~= ascii("format"@));
    }
    if bytes_eq(name, k5.as_slice()) {
        return DublinCoreLegacyNamespace::Format;
    }
    let k6: [u8; 10] = [0x69, 0x64, 0x65, 0x6e, 0x74, 0x69, 0x66, 0x69, 0x65, 0x72];
    proof {
        reveal_strlit("identifier");
        assert(k6@ =~= ascii("identifier"@));
    }
    if bytes_eq(name, k6.as_slice()) {
        return DublinCoreLegacyNamespace::Identifier;
    }
    let k7: [u8; 8] = [0x6c, 0x61, 0x6e, 0x67, 0x75, 0x61, 0x67, 0x65];
    proof {
        reveal_strlit("language");
        assert(k7@ =~= ascii("language"@));
    }
    if bytes_eq(name, k7.as_slice()) {
        return DublinCoreLegacyNamespace::Language;
    }
    let k8: [u8; 9] = [0x70, 0x75, 0x62, 0x6c, 0x69, 0x73, 0x68, 0x65, 0x72];
    proof {
        reveal_strlit("publisher");
        assert(k8@ =~= ascii("publisher"@));
    }
    if bytes_eq(name, k8.as_slice()) {
        return DublinCoreLegacyNamespace::Publisher;
    }
    let k9: [u8; 8] = [0x72, 0x65, 0x6c, 0x61, 0x74, 0x69, 0x6f, 0x6e];
    proof {
        reveal_strlit("relation");
        assert(k9@ =~= ascii("relation"@));
    }
    if bytes_eq(name, k9.as_slice()) {
        return DublinCoreLegacyNamespace::Relation;
    }
    let k10: [u8; 6] = [0x72, 0x69, 0x67, 0x68, 0x74, 0x73];
    proof {
        reveal_strlit("rights");
        assert(k10@ =~= ascii("rights"@));
    }
    if bytes_eq(name, k10.as_slice()) {
        return DublinCoreLegacyNamespace::Rights;
    }
    let k11: [u8; 7] = [0x73, 0x75, 0x62, 0x6a, 0x65, 0x63, 0x74];
    proof {
        reveal_strlit("subject");
        assert(k11@ =~= ascii("subject"@));
    }
    if bytes_eq(name, k11.as_slice()) {
        return DublinCoreLegacyNamespace::Subject;
    }
    let k12: [u8; 5] = [0x74, 0x69, 0x74, 0x6c, 0x65];
    proof {
        reveal_strlit("title");
        assert(k12@ =~= ascii("title"@));
    }
    if bytes_eq(name, k12.as_slice()) {
        return DublinCoreLegacyNamespace::Title;
    }
    let k13: [u8; 4] = [0x74, 0x79, 0x70, 0x65];
    proof {
        reveal_strlit("type");
        assert(k13@ =~= ascii("type"@));
    }
    if bytes_eq(name, k13.as_slice()) {
        return DublinCoreLegacyNamespace::Type;
    }
    DublinCoreLegacyNamespace::Unknown
}

impl<'a> From<&'a [u8]> for DublinCoreLegacyNamespace {
    fn from(value: &'a [u8]) -> Self {
        dublin_core_element_of(value)
    }
}

impl<'a> vstd::std_specs::convert::FromSpecImpl<&'a [u8]> for DublinCoreLegacyNamespace {
    open spec fn obeys_from_spec() -> bool {
        true
    }

    open spec fn from_spec(v: &'a [u8]) -> Self {
        dublin_core_element(v@)
    }
}

/// Each Dublin Core element's local name stands for that element, and no
/// other name does.
pub proof fn law_dublin_core_element_names(n: Seq<u8>)
    ensures
        (dublin_core_element(n) == DublinCoreLegacyNamespace::Contributor) == (n == seq![0x63u8, 0x6fu8, 0x6eu8, 0x74u8, 0x72u8, 0x69u8, 0x62u8, 0x75u8, 0x74u8, 0x6fu8, 0x72u8]),
        (dublin_core_element(n) == DublinCoreLegacyNamespace::Coverage) == (n == seq![0x63u8, 0x6fu8, 0x76u8, 0x65u8, 0x72u8, 0x61u8, 0x67u8, 0x65u8]),
        (dublin_core_element(n) == DublinCoreLegacyNamespace::Creator) == (n == seq![0x63u8, 0x72u8, 0x65u8, 0x61u8, 0x74u8, 0x6fu8, 0x72u8]),
        (dublin_core_element(n) == DublinCoreLegacyNamespace::Date) == (n == seq![0x64u8, 0x61u8, 0x74u8, 0x65u8]),
        (dublin_core_element(n) == DublinCoreLegacyNamespace::Description) == (n == seq![0x64u8, 0x65u8, 0x73u8, 0x63u8, 0x72u8, 0x69u8, 0x70u8, 0x74u8, 0x69u8, 0x6fu8, 0x6eu8]),
        (dublin_core_element(n) == DublinCoreLegacyNamespace::Format) == (n == seq![0x66u8, 0x6fu8, 0x72u8, 0x6du8, 0x61u8, 0x74u8]),
        (dublin_core_element(n) == DublinCoreLegacyNamespace::Identifier) == (n == seq![0x69u8, 0x64u8, 0x65u8, 0x6eu8, 0x74u8, 0x69u8, 0x66u8, 0x69u8, 0x65u8, 0x72u8]),
        (dublin_core_element(n) == DublinCoreLegacyNamespace::Language) == (n == seq![0x6cu8, 0x61u8, 0x6eu8, 0x67u8, 0x75u8, 0x61u8, 0x67u8, 0x65u8]),
        (dublin_core_element(n) == DublinCoreLegacyNamespace::Publisher) == (n == seq![0x70u8, 0x75u8, 0x62u8, 0x6cu8, 0x69u8, 0x73u8, 0x68u8, 0x65u8, 0x72u8]),
        (dublin_core_element(n) == DublinCoreLegacyNamespace::Relation) == (n == seq![0x72u8, 0x65u8, 0x6cu8, 0x61u8, 0x74u8, 0x69u8, 0x6fu8, 0x6eu8]),
        (dublin_core_element(n) == DublinCoreLegacyNamespace::Rights) == (n == seq![0x72u8, 0x69u8, 0x67u8, 0x68u8, 0x74u8, 0x73u8]),
        (dublin_core_element(n) == DublinCoreLegacyNamespace::Subject) == (n == seq![0x73u8, 0x75u8, 0x62u8, 0x6au8, 0x65u8, 0x63u8, 0x74u8]),
        (dublin_core_element(n) == DublinCoreLegacyNamespace::Title) == (n == seq![0x74u8, 0x69u8, 0x74u8, 0x6cu8, 0x65u8]),
        (dublin_core_element(n) == DublinCoreLegacyNamespace::Type) == (n == seq![0x74u8, 0x79u8, 0x70u8, 0x65u8]),
{
    reveal_strlit("contributor");
    assert(ascii("contributor"@) =~= seq![0x63u8, 0x6fu8, 0x6eu8, 0x74u8, 0x72u8, 0x69u8, 0x62u8, 0x75u8, 0x74u8, 0x6fu8, 0x72u8]);
    reveal_strlit("coverage");
    assert(ascii("coverage"@) =~= seq![0x63u8, 0x6fu8, 0x76u8, 0x65u8, 0x72u8, 0x61u8, 0x67u8, 0x65u8]);
    reveal_strlit("creator");
    assert(ascii("creator"@) =~= seq![0x63u8, 0x72u8, 0x65u8, 0x61u8, 0x74u8, 0x6fu8, 0x72u8]);
    reveal_strlit("date");
    assert(ascii("date"@) =~= seq![0x64u8, 0x61u8, 0x74u8, 0x65u8]);
    reveal_strlit("description");
    assert(ascii("description"@) =~= seq![0x64u8, 0x65u8, 0x73u8, 0x63u8, 0x72u8, 0x69u8, 0x70u8, 0x74u8, 0x69u8, 0x6fu8, 0x6eu8]);
    reveal_strlit("format");
    assert(ascii("format"@) =~= seq![0x66u8, 0x6fu8, 0x72u8, 0x6du8, 0x61u8, 0x74u8]);
    reveal_strlit("identifier");
    assert(ascii("identifier"@) =~= seq![0x69u8, 0x64u8, 0x65u8, 0x6eu8, 0x74u8, 0x69u8, 0x66u8, 0x69u8, 0x65u8, 0x72u8]);
    reveal_strlit("language");
    assert(ascii("language"@) =~= seq![0x6cu8, 0x61u8, 0x6eu8, 0x67u8, 0x75u8, 0x61u8, 0x67u8, 0x65u8]);
    reveal_strlit("publisher");
    assert(ascii("publisher"@) =~= seq![0x70u8, 0x75u8, 0x62u8, 0x6cu8, 0x69u8, 0x73u8, 0x68u8, 0x65u8, 0x72u8]);
    reveal_strlit("relation");
    assert(ascii("relation"@) =~= seq![0x72u8, 0x65u8, 0x6cu8, 0x61u8, 0x74u8, 0x69u8, 0x6fu8, 0x6eu8]);
    reveal_strlit("rights");
    assert(ascii("rights"@) =~= seq![0x72u8, 0x69u8, 0x67u8, 0x68u8, 0x74u8, 0x73u8]);
    reveal_strlit("subject");
    assert(ascii("subject"@) =~= seq![0x73u8, 0x75u8, 0x62u8, 0x6au8, 0x65u8, 0x63u8, 0x74u8]);
    reveal_strlit("title");
    assert(ascii("title"@) =~= seq![0x74u8, 0x69u8, 0x74u8, 0x6cu8, 0x65u8]);
    reveal_strlit("type");
    assert(ascii("type"@) =~= seq![0x74u8, 0x79u8, 0x70u8, 0x65u8]);
}

} // verus!
