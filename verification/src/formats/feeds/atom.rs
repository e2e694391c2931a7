//! The elements of the Atom namespace.
use vstd::prelude::*;
use crate::bs::{ascii, bytes_eq};

verus! {

/// An element of the Atom namespace.
#[derive(Debug, PartialEq, Eq, Structural, Clone, Copy)]
pub enum AtomElement {
    Feed,
    Id,
    Link,
    Title,
    Published,
    Updated,
    Entry,
    Content,
    Unknown,
}

/// The Atom element a local name stands for.
pub open spec fn atom_element(name: Seq<u8>) -> AtomElement {
    if name == ascii("feed"@) {
        AtomElement::Feed
    } else if name == ascii("id"@) {
        AtomElement::Id
    } else if name == ascii("link"@) {
        AtomElement::Link
    } else if name == ascii("title"@) {
        AtomElement::Title
    } else if name == ascii("published"@) {
        AtomElement::Published
    } else if name == ascii("updated"@) {
        AtomElement::Updated
    } else if name == ascii("entry"@) {
        AtomElement::Entry
    } else if name == ascii("content"@) {
        AtomElement::Content
    } else {
        AtomElement::Unknown
    }
}

/// The Atom element a local name stands for.
fn atom_element_of(name: &[u8]) -> (r: AtomElement)
    ensures
        r == atom_element(name@),
{
    let k0: [u8; 4] = [0x66, 0x65, 0x65, 0x64];
    proof {
        reveal_strlit("feed");
        assert(k0@ =~= ascii("feed"@));
    }
    if bytes_eq(name, k0.as_slice()) {
        return AtomElement::Feed;
    }
    let k1: [u8; 2] = [0x69, 0x64];
    proof {
        reveal_strlit("id");
        assert(k1@ =~= ascii("id"@));
    }
    if bytes_eq(name, k1.as_slice()) {
        return AtomElement::Id;
    }
    let k2: [u8; 4] = [0x6c, 0x69, 0x6e, 0x6b];
    proof {
        reveal_strlit("link");
        assert(k2@ =~= ascii("link"@));
    }
    if bytes_eq(name, k2.as_slice()) {
        return AtomElement::Link;
    }
    let k3: [u8; 5] = [0x74, 0x69, 0x74, 0x6c, 0x65];
    proof {
        reveal_strlit("title");
        assert(k3@ =~= ascii("title"@));
    }
    if bytes_eq(name, k3.as_slice()) {
        return AtomElement::Title;
    }
    let k4: [u8; 9] = [0x70, 0x75, 0x62, 0x6c, 0x69, 0x73, 0x68, 0x65, 0x64];
    proof {
        reveal_strlit("published");
        assert(k4@ =~= ascii("published"@));
    }
    if bytes_eq(name, k4.as_slice()) {
        return AtomElement::Published;
    }
    let k5: [u8; 7] = [0x75, 0x70, 0x64, 0x61, 0x74, 0x65, 0x64];
    proof {
        reveal_strlit("updated");
        assert(k5@ =~= ascii("updated"@));
    }
    if bytes_eq(name, k5.as_slice()) {
        return AtomElement::Updated;
    }
    let k6: [u8; 5] = [0x65, 0x6e, 0x74, 0x72, 0x79];
    proof {
        reveal_strlit("entry");
        assert(k6@ =~= ascii("entry"@));
    }
    if bytes_eq(name, k6.as_slice()) {
        return AtomElement::Entry;
    }
    let k7: [u8; 7] = [0x63, 0x6f, 0x6e, 0x74, 0x65, 0x6e, 0x74];
    proof {
        reveal_strlit("content");
        assert(k7@ =~= ascii("content"@));
    }
    if bytes_eq(name, k7.as_slice()) {
        return AtomElement::Content;
    }
    AtomElement::Unknown
}

impl<'a> From<&'a [u8]> for AtomElement {
    fn from(value: &'a [u8]) -> Self {
        atom_element_of(value)
    }
}

impl<'a> vstd::std_specs::convert::FromSpecImpl<&'a [u8]> for AtomElement {
    open spec fn obeys_from_spec() -> bool {
        true
    }

    open spec fn from_spec(v: &'a [u8]) -> Self {
        atom_element(v@)
    }
}

/// An Atom link: its relation, target and media type.
#[derive(Debug, Default)]
pub struct AtomLink<'a> {
    rel: Option<&'a str>,
    href: Option<&'a str>,
    kind: Option<&'a str>,
}

/// Each Atom element's local name stands for that element, and no other
/// name does.
pub proof fn law_atom_element_names(n: Seq<u8>)
    ensures
        (atom_element(n) == AtomElement::Feed) == (n == seq![0x66u8, 0x65u8, 0x65u8, 0x64u8]),
        (atom_element(n) == AtomElement::Id) == (n == seq![0x69u8, 0x64u8]),
        (atom_element(n) == AtomElement::Link) == (n == seq![0x6cu8, 0x69u8, 0x6eu8, 0x6bu8]),
        (atom_element(n) == AtomElement::Title) == (n == seq![0x74u8, 0x69u8, 0x74u8, 0x6cu8, 0x65u8]),
        (atom_element(n) == AtomElement::Published) == (n == seq![0x70u8, 0x75u8, 0x62u8, 0x6cu8, 0x69u8, 0x73u8, 0x68u8, 0x65u8, 0x64u8]),
        (atom_element(n) == AtomElement::Updated) == (n == seq![0x75u8, 0x70u8, 0x64u8, 0x61u8, 0x74u8, 0x65u8, 0x64u8]),
        (atom_element(n) == AtomElement::Entry) == (n == seq![0x65u8, 0x6eu8, 0x74u8, 0x72u8, 0x79u8]),
        (atom_element(n) == AtomElement::Content) == (n == seq![0x63u8, 0x6fu8, 0x6eu8, 0x74u8, 0x65u8, 0x6eu8, 0x74u8]),
{
    reveal_strlit("feed");
    assert(ascii("feed"@) =~= seq![0x66u8, 0x65u8, 0x65u8, 0x64u8]);
    reveal_strlit("id");
    assert(ascii("id"@) =~= seq![0x69u8, 0x64u8]);
    reveal_strlit("link");
    assert(ascii("link"@) =~= seq![0x6cu8, 0x69u8, 0x6eu8, 0x6bu8]);
    reveal_strlit("title");
    assert(ascii("title"@) =~= seq![0x74u8, 0x69u8, 0x74u8, 0x6cu8, 0x65u8]);
    reveal_strlit("published");
    assert(ascii("published"@) =~= seq![0x70u8, 0x75u8, 0x62u8, 0x6cu8, 0x69u8, 0x73u8, 0x68u8, 0x65u8, 0x64u8]);
    reveal_strlit("updated");
    assert(ascii("updated"@) =~= seq![0x75u8, 0x70u8, 0x64u8, 0x61u8, 0x74u8, 0x65u8, 0x64u8]);
    reveal_strlit("entry");
    assert(ascii("entry"@) =~= seq![0x65u8, 0x6eu8, 0x74u8, 0x72u8, 0x79u8]);
    reveal_strlit("content");
    assert(ascii("content"@) =~= seq![0x63u8, 0x6fu8, 0x6eu8, 0x74u8, 0x65u8, 0x6eu8, 0x74u8]);
}

} // verus!
