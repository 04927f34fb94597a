use vstd::prelude::*;
use crate::lang::{coerce_lang_codes, coerced};
use crate::types::RequestedLangs;

verus! {

/// The command line: where the archives are, which languages to keep, and
/// what to write.
pub struct Cli {
    pub command: Commands,
    /// Directory holding a flat collection of ZIP archives.
    pub input_dir: String,
    /// Languages to include in the output.
    pub langs: Option<Vec<String>>,
    /// Keep only units holding each of the requested languages.
    pub require_each_lang: bool,
}

/// The output to produce.
pub enum Commands {
    /// Save translation units in an SQLite database.
    Sqlite { output_file: String },
}

/// Whether `v` holds the coerced forms of `l`, in order.
pub open spec fn coerced_all(v: Seq<String>, l: Seq<String>) -> bool {
    v.len() == l.len() && forall|i: int| 0 <= i < v.len() ==> #[trigger] v[i]@ == coerced(l[i]@)
}

/// The language filter the command line asks for: none without languages,
/// otherwise the coerced codes, required each or any.
pub fn requested_langs(langs: Option<Vec<String>>, require_each_lang: bool) -> (r: RequestedLangs)
    ensures
        match langs {
            None => r is Unlimited,
            Some(l) => if require_each_lang {
                r matches RequestedLangs::Each(v) && coerced_all(v@, l@)
            } else {
                r matches RequestedLangs::Any(v) && coerced_all(v@, l@)
            },
        },
{
    match langs {
        None => RequestedLangs::Unlimited,
        Some(l) => {
            let v = coerce_lang_codes(l);
            if require_each_lang {
                RequestedLangs::Each(v)
            } else {
                RequestedLangs::Any(v)
            }
        },
    }
}

} // verus!
