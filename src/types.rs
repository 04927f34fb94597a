use vstd::prelude::*;
use crate::tmx::{TranslationUnit, has_any_lang, has_each_lang};

verus! {

/// Which languages go into the output, and which translation units are kept.
/// Language codes are written as in the source documents (`EN-GB`, `PL-01`).
#[derive(Clone, Debug)]
pub enum RequestedLangs {
    /// Every language is written and no translation unit is skipped.
    Unlimited,
    /// Only the listed languages are written; a unit is kept when it holds
    /// **at least one** of them.
    Any(Vec<String>),
    /// Only the listed languages are written; a unit is kept when it holds
    /// **each** of them.
    Each(Vec<String>),
}

/// Whether a unit passes the filter: always under `Unlimited`, when it
/// holds one requested language under `Any`, each of them under `Each`.
pub open spec fn includes(langs: RequestedLangs, tu: TranslationUnit) -> bool {
    match langs {
        RequestedLangs::Unlimited => true,
        RequestedLangs::Any(l) => has_any_lang(tu.segments@, l@),
        RequestedLangs::Each(l) => has_each_lang(tu.segments@, l@),
    }
}

impl RequestedLangs {
    /// Whether a unit passes the filter.
    pub fn includes(&self, tu: &TranslationUnit) -> (r: bool)
        ensures
            r == includes(*self, *tu),
    {
        match self {
            RequestedLangs::Unlimited => true,
            RequestedLangs::Any(_) => tu.contains_any_lang(self),
            RequestedLangs::Each(_) => tu.contains_each_lang(self),
        }
    }
}

/// Receives the translation units that pass the language filter.
pub trait TranslationUnitHandler {
    /// Processes one unit, e.g. stores it; `sequential_number_in_doc` is its
    /// zero-based position in its document.
    fn handle(&mut self, translation_unit: TranslationUnit, sequential_number_in_doc: u32);
}

} // verus!
