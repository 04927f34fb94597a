use vstd::prelude::*;
use std::collections::HashMap;
use crate::lang::str_eq;
use crate::types::RequestedLangs;

verus! {

/// A translation-memory document: opaque header metadata and a body of units.
#[derive(Debug)]
pub struct Tmx {
    pub header: Header,
    pub body: Body,
}

/// The header of a document: metadata attributes, order irrelevant.
#[derive(Debug)]
pub struct Header {
    pub attributes: HashMap<String, String>,
}

/// The body of a document: its translation units, in order.
#[derive(Debug)]
pub struct Body {
    pub translation_units: Vec<TranslationUnit>,
}

/// One text together with its translations into several languages.
#[derive(Debug)]
pub struct TranslationUnit {
    pub props: Vec<Prop>,
    pub segments: Vec<Tuv>,
}

/// A key/value metadata entry of a unit; the document name is one of them.
#[derive(Debug, Clone)]
pub struct Prop {
    pub key: String,
    pub value: String,
}

/// One language's text of a unit.
#[derive(Debug)]
pub struct Tuv {
    pub lang: String,
    pub content: String,
}

/// The key of the property that names a unit's document.
pub const DOC_NAME_KEY: &'static str = "Txt::Doc. No.";

/// The index of the first property keyed by the document-name marker.
pub open spec fn doc_name_index(props: Seq<Prop>) -> Option<int> {
    if exists|i: int| 0 <= i < props.len() && props[i].key@ == DOC_NAME_KEY@ {
        let i = choose|i: int|
            0 <= i < props.len() && props[i].key@ == DOC_NAME_KEY@ && forall|j: int|
                0 <= j < i ==> props[j].key@ != DOC_NAME_KEY@;
        Some(i)
    } else {
        None
    }
}

/// Whether some segment is written in `lang`.
pub open spec fn has_lang(segments: Seq<Tuv>, lang: Seq<char>) -> bool {
    exists|i: int| 0 <= i < segments.len() && #[trigger] segments[i].lang@ == lang
}

/// Whether the segments cover every language of `langs`.
pub open spec fn has_each_lang(segments: Seq<Tuv>, langs: Seq<String>) -> bool {
    forall|k: int| 0 <= k < langs.len() ==> has_lang(segments, #[trigger] langs[k]@)
}

/// Whether the segments cover at least one language of `langs`.
pub open spec fn has_any_lang(segments: Seq<Tuv>, langs: Seq<String>) -> bool {
    exists|k: int| 0 <= k < langs.len() && has_lang(segments, #[trigger] langs[k]@)
}

/// Whether some segment is written in `lang`.
fn segments_have_lang(segments: &Vec<Tuv>, lang: &String) -> (r: bool)
    ensures
        r == has_lang(segments@, lang@),
{
    let mut i: usize = 0;
    while i < segments.len()
        invariant
            i <= segments@.len(),
            forall|j: int| 0 <= j < i ==> #[trigger] segments@[j].lang@ != lang@,
        decreases segments@.len() - i,
    {
        if str_eq(segments[i].lang.as_str(), lang.as_str()) {
            return true;
        }
        i = i + 1;
    }
    false
}

proof fn lemma_first_index_exists(props: Seq<Prop>, i: int)
    requires
        0 <= i < props.len(),
        props[i].key@ == DOC_NAME_KEY@,
        forall|j: int| 0 <= j < i ==> props[j].key@ != DOC_NAME_KEY@,
    ensures
        doc_name_index(props) == Some(i),
{
    let k = choose|k: int|
        0 <= k < props.len() && props[k].key@ == DOC_NAME_KEY@ && forall|j: int|
            0 <= j < k ==> props[j].key@ != DOC_NAME_KEY@;
    assert(k == i) by {
        if k < i {
            assert(props[k].key@ != DOC_NAME_KEY@);
        }
        if i < k {
            assert(props[i].key@ != DOC_NAME_KEY@);
        }
    }
}

/// Whether the segments cover every language of `langs`.
fn segments_have_each_lang(segments: &Vec<Tuv>, langs: &Vec<String>) -> (r: bool)
    ensures
        r == has_each_lang(segments@, langs@),
{
    let mut k: usize = 0;
    while k < langs.len()
        invariant
            k <= langs@.len(),
            forall|j: int| 0 <= j < k ==> has_lang(segments@, #[trigger] langs@[j]@),
        decreases langs@.len() - k,
    {
        if !segments_have_lang(segments, &langs[k]) {
            assert(!has_lang(segments@, langs@[k as int]@));
            return false;
        }
        k = k + 1;
    }
    true
}

/// Whether the segments cover at least one language of `langs`.
fn segments_have_any_lang(segments: &Vec<Tuv>, langs: &Vec<String>) -> (r: bool)
    ensures
        r == has_any_lang(segments@, langs@),
{
    let mut k: usize = 0;
    while k < langs.len()
        invariant
            k <= langs@.len(),
            forall|j: int| 0 <= j < k ==> !has_lang(segments@, #[trigger] langs@[j]@),
        decreases langs@.len() - k,
    {
        if segments_have_lang(segments, &langs[k]) {
            assert(has_lang(segments@, langs@[k as int]@));
            return true;
        }
        k = k + 1;
    }
    false
}

impl TranslationUnit {
    /// The name of the document the unit belongs to: the value of its first
    /// property keyed by the document-name marker, if it has one.
    pub fn doc_name(&self) -> (r: Option<&String>)
        ensures
            match doc_name_index(self.props@) {
                Some(i) => r matches Some(n) && n@ == self.props@[i].value@,
                None => r is None,
            },
    {
        let mut i: usize = 0;
        while i < self.props.len()
            invariant
                i <= self.props@.len(),
                forall|j: int| 0 <= j < i ==> #[trigger] self.props@[j].key@ != DOC_NAME_KEY@,
            decreases self.props@.len() - i,
        {
            if str_eq(self.props[i].key.as_str(), DOC_NAME_KEY) {
                proof {
                    lemma_first_index_exists(self.props@, i as int);
                }
                return Some(&self.props[i].value);
            }
            i = i + 1;
        }
        None
    }

    /// Whether the unit holds a text in **each** of the requested languages;
    /// always true when no language is requested.
    pub fn contains_each_lang(&self, langs: &RequestedLangs) -> (r: bool)
        ensures
            r == match langs {
                RequestedLangs::Unlimited => true,
                RequestedLangs::Each(l) => has_each_lang(self.segments@, l@),
                RequestedLangs::Any(l) => has_each_lang(self.segments@, l@),
            },
    {
        match langs {
            RequestedLangs::Unlimited => true,
            RequestedLangs::Each(l) => segments_have_each_lang(&self.segments, l),
            RequestedLangs::Any(l) => segments_have_each_lang(&self.segments, l),
        }
    }

    /// Whether the unit holds a text in **at least one** of the requested
    /// languages; always true when no language is requested.
    pub fn contains_any_lang(&self, langs: &RequestedLangs) -> (r: bool)
        ensures
            r == match langs {
                RequestedLangs::Unlimited => true,
                RequestedLangs::Each(l) => has_any_lang(self.segments@, l@),
                RequestedLangs::Any(l) => has_any_lang(self.segments@, l@),
            },
    {
        match langs {
            RequestedLangs::Unlimited => true,
            RequestedLangs::Each(l) => segments_have_any_lang(&self.segments, l),
            RequestedLangs::Any(l) => segments_have_any_lang(&self.segments, l),
        }
    }
}

} // verus!
