//! XML parse events as plain values, and the attribute resolver.

use vstd::prelude::*;

verus! {

/// Model of one element attribute.
#[verifier::ext_equal]
pub ghost struct AttrV {
    pub name: Seq<char>,
    pub value: Seq<char>,
}

/// One attribute of an element, by its local name.
pub struct Attr {
    pub name: String,
    pub value: String,
}

impl View for Attr {
    type V = AttrV;

    open spec fn view(&self) -> AttrV {
        AttrV { name: self.name@, value: self.value@ }
    }
}

/// The model of an attribute list.
pub open spec fn attrs_view(s: Seq<Attr>) -> Seq<AttrV> {
    Seq::new(s.len(), |i: int| s[i]@)
}

/// Model of one low-level XML parse event.
#[verifier::ext_equal]
pub ghost enum EventV {
    ElementStart { name: Seq<char>, attributes: Seq<AttrV> },
    ElementEnd { name: Seq<char> },
    Text { data: Seq<char> },
    DocumentEnd,
    Other,
}

/// One low-level XML parse event, reduced to what the decoder reads:
/// element boundaries by local name, character data, and end of document.
/// Everything else (comments, processing instructions, whitespace-only
/// events, the document start) is `Other`.
pub enum Event {
    ElementStart { name: String, attributes: Vec<Attr> },
    ElementEnd { name: String },
    Text { data: String },
    DocumentEnd,
    Other,
}

impl View for Event {
    type V = EventV;

    open spec fn view(&self) -> EventV {
        match self {
            Event::ElementStart { name, attributes } => EventV::ElementStart {
                name: name@,
                attributes: attrs_view(attributes@),
            },
            Event::ElementEnd { name } => EventV::ElementEnd { name: name@ },
            Event::Text { data } => EventV::Text { data: data@ },
            Event::DocumentEnd => EventV::DocumentEnd,
            Event::Other => EventV::Other,
        }
    }
}

/// Character-by-character string equality.
pub fn str_eq(a: &str, b: &str) -> (r: bool)
    ensures
        r == (a@ == b@),
{
    let alen: usize = a.unicode_len();
    let blen: usize = b.unicode_len();
    if alen != blen {
        return false;
    }
    let mut i: usize = 0;
    while i < alen
        invariant
            0 <= i <= alen,
            alen == a@.len(),
            alen == b@.len(),
            forall|j: int| 0 <= j < i ==> a@[j] == b@[j],
        decreases alen - i,
    {
        if a.get_char(i) != b.get_char(i) {
            return false;
        }
        i = i + 1;
    }
    proof {
        assert(a@ =~= b@);
    }
    true
}

/// The value of the first attribute with the given name, or the default
/// when no attribute carries that name.
pub open spec fn spec_attr_or(attrs: Seq<AttrV>, name: Seq<char>, default: Seq<char>) -> Seq<char>
    decreases attrs.len(),
{
    if attrs.len() == 0 {
        default
    } else if attrs[0].name == name {
        attrs[0].value
    } else {
        spec_attr_or(attrs.drop_first(), name, default)
    }
}

/// When no attribute in the list carries the name, the resolver falls back
/// to the default.
pub proof fn lemma_attr_or_absent(attrs: Seq<AttrV>, name: Seq<char>, default: Seq<char>)
    requires
        forall|i: int| 0 <= i < attrs.len() ==> attrs[i].name != name,
    ensures
        spec_attr_or(attrs, name, default) == default,
    decreases attrs.len(),
{
    if attrs.len() > 0 {
        lemma_attr_or_absent(attrs.drop_first(), name, default);
    }
}

/// Looks a named attribute up in an element's attribute list; absence is
/// not an error, the supplied default is returned instead.
pub fn find_attribute_or(attrs: &Vec<Attr>, name: &str, default: &str) -> (r: String)
    ensures
        r@ == spec_attr_or(attrs_view(attrs@), name@, default@),
{
    let n: usize = attrs.len();
    let mut i: usize = 0;
    proof {
        assert(attrs_view(attrs@).skip(0) =~= attrs_view(attrs@));
    }
    while i < n
        invariant
            0 <= i <= n,
            n == attrs@.len(),
            forall|j: int| 0 <= j < i ==> attrs@[j].name@ != name@,
            spec_attr_or(attrs_view(attrs@), name@, default@) == spec_attr_or(
                attrs_view(attrs@).skip(i as int),
                name@,
                default@,
            ),
        decreases n - i,
    {
        if str_eq(attrs[i].name.as_str(), name) {
            proof {
                assert(attrs_view(attrs@).skip(i as int)[0] == attrs@[i as int]@);
            }
            return attrs[i].value.clone();
        }
        proof {
            assert(attrs_view(attrs@).skip(i as int).drop_first() =~= attrs_view(attrs@).skip(
                i as int + 1,
            ));
            assert(attrs_view(attrs@).skip(i as int)[0] == attrs@[i as int]@);
        }
        i = i + 1;
    }
    proof {
        assert(attrs_view(attrs@).skip(n as int) =~= Seq::<AttrV>::empty());
    }
    String::from_str(default)
}

} // verus!
