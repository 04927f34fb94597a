use vstd::prelude::*;
use vstd::string::*;
use crate::writer::WriterError;

verus! {

/// ASCII upper-case letters become lower-case; any other character is kept.
pub open spec fn ascii_lower(c: char) -> char {
    if 'A' <= c && c <= 'Z' {
        ((c as u8) + 32u8) as char
    } else {
        c
    }
}

/// A string with its ASCII letters in lower case.
pub open spec fn lowered(s: Seq<char>) -> Seq<char> {
    s.map_values(|c: char| ascii_lower(c))
}

/// The character that stands for `c` in a column identifier: ASCII upper-case
/// letters become lower-case, `-` becomes `_`, anything else is kept.
pub open spec fn column_char(c: char) -> char {
    if c == '-' {
        '_'
    } else {
        ascii_lower(c)
    }
}

/// The column identifier of a language code, before it is validated.
pub open spec fn normalized(code: Seq<char>) -> Seq<char> {
    code.map_values(|c: char| column_char(c))
}

/// Normalizing an identifier that is already normalized changes nothing.
pub proof fn lemma_normalize_idempotent(code: Seq<char>)
    ensures
        normalized(normalized(code)) == normalized(code),
{
    assert(normalized(normalized(code)) =~= normalized(code));
}

/// The corpus's own variant of a language code: the common two-letter ISO
/// codes, in any case, map to the code the documents use; others pass through.
pub open spec fn coerced(code: Seq<char>) -> Seq<char> {
    let l = lowered(code);
    if l == "en"@ { "EN-GB"@ }
    else if l == "pl"@ { "PL-01"@ }
    else if l == "de"@ { "DE-DE"@ }
    else if l == "da"@ { "DA-01"@ }
    else if l == "el"@ { "EL-01"@ }
    else if l == "es"@ { "ES-ES"@ }
    else if l == "fi"@ { "FI-01"@ }
    else if l == "fr"@ { "FR-FR"@ }
    else if l == "it"@ { "IT-IT"@ }
    else if l == "nl"@ { "NL-NL"@ }
    else if l == "pt"@ { "PT-PT"@ }
    else if l == "sv"@ { "SV-SE"@ }
    else if l == "lv"@ { "LV-01"@ }
    else if l == "cs"@ { "CS-01"@ }
    else if l == "et"@ { "ET-01"@ }
    else if l == "hu"@ { "HU-01"@ }
    else if l == "sl"@ { "SL-01"@ }
    else if l == "lt"@ { "LT-01"@ }
    else if l == "mt"@ { "MT-01"@ }
    else if l == "sk"@ { "SK-01"@ }
    else if l == "ro"@ { "RO-RO"@ }
    else if l == "bg"@ { "BG-01"@ }
    else if l == "hr"@ { "HR-HR"@ }
    else if l == "ga"@ { "GA-IE"@ }
    else { code }
}

/// Relies on String::push: appends one character.
#[verifier::external_body]
pub(crate) fn push_char(s: &mut String, c: char)
    ensures
        final(s)@ == old(s)@.push(c),
{
    s.push(c)
}

/// Whether two strings hold the same characters.
pub fn str_eq(a: &str, b: &str) -> (r: bool)
    ensures
        r == (a@ == b@),
{
    let n = a.unicode_len();
    if n != b.unicode_len() {
        return false;
    }
    let mut i: usize = 0;
    while i < n
        invariant
            n == a@.len(),
            n == b@.len(),
            i <= n,
            a@.subrange(0, i as int) == b@.subrange(0, i as int),
        decreases n - i,
    {
        if a.get_char(i) != b.get_char(i) {
            return false;
        }
        assert(a@.subrange(0, i + 1) =~= a@.subrange(0, i as int).push(a@[i as int]));
        assert(b@.subrange(0, i + 1) =~= b@.subrange(0, i as int).push(b@[i as int]));
        i = i + 1;
    }
    assert(a@ =~= a@.subrange(0, n as int));
    assert(b@ =~= b@.subrange(0, n as int));
    true
}

/// A string mapped character by character, either to lower case or to a
/// column identifier.
fn map_chars(s: &str, to_column: bool) -> (r: String)
    ensures
        to_column ==> r@ == normalized(s@),
        !to_column ==> r@ == lowered(s@),
{
    let n = s.unicode_len();
    let mut r = String::new();
    let mut i: usize = 0;
    while i < n
        invariant
            n == s@.len(),
            i <= n,
            to_column ==> r@ == normalized(s@.subrange(0, i as int)),
            !to_column ==> r@ == lowered(s@.subrange(0, i as int)),
        decreases n - i,
    {
        let c = s.get_char(i);
        let d = if to_column && c == '-' {
            '_'
        } else if 'A' <= c && c <= 'Z' {
            ((c as u8) + 32u8) as char
        } else {
            c
        };
        push_char(&mut r, d);
        assert(s@.subrange(0, i + 1) =~= s@.subrange(0, i as int).push(c));
        assert(normalized(s@.subrange(0, i + 1)) =~= normalized(s@.subrange(0, i as int)).push(column_char(c)));
        assert(lowered(s@.subrange(0, i + 1)) =~= lowered(s@.subrange(0, i as int)).push(ascii_lower(c)));
        i = i + 1;
    }
    assert(s@ =~= s@.subrange(0, n as int));
    r
}

/// A language code turned into a column identifier: lower case, with `-`
/// folded to `_` (`EN-GB` becomes `en_gb`).
pub fn normalize_lang_code(code: &str) -> (r: String)
    ensures
        r@ == normalized(code@),
{
    map_chars(code, true)
}

/// Maps a common two-letter ISO code to the variant the corpus uses
/// (`en` to `EN-GB`, `pl` to `PL-01`); other codes pass through unchanged.
pub fn coerce_lang_code(input: &String) -> (r: String)
    ensures
        r@ == coerced(input@),
{
    let l = map_chars(input.as_str(), false);
    let l = l.as_str();
    if str_eq(l, "en") { String::from_str("EN-GB") }
    else if str_eq(l, "pl") { String::from_str("PL-01") }
    else if str_eq(l, "de") { String::from_str("DE-DE") }
    else if str_eq(l, "da") { String::from_str("DA-01") }
    else if str_eq(l, "el") { String::from_str("EL-01") }
    else if str_eq(l, "es") { String::from_str("ES-ES") }
    else if str_eq(l, "fi") { String::from_str("FI-01") }
    else if str_eq(l, "fr") { String::from_str("FR-FR") }
    else if str_eq(l, "it") { String::from_str("IT-IT") }
    else if str_eq(l, "nl") { String::from_str("NL-NL") }
    else if str_eq(l, "pt") { String::from_str("PT-PT") }
    else if str_eq(l, "sv") { String::from_str("SV-SE") }
    else if str_eq(l, "lv") { String::from_str("LV-01") }
    else if str_eq(l, "cs") { String::from_str("CS-01") }
    else if str_eq(l, "et") { String::from_str("ET-01") }
    else if str_eq(l, "hu") { String::from_str("HU-01") }
    else if str_eq(l, "sl") { String::from_str("SL-01") }
    else if str_eq(l, "lt") { String::from_str("LT-01") }
    else if str_eq(l, "mt") { String::from_str("MT-01") }
    else if str_eq(l, "sk") { String::from_str("SK-01") }
    else if str_eq(l, "ro") { String::from_str("RO-RO") }
    else if str_eq(l, "bg") { String::from_str("BG-01") }
    else if str_eq(l, "hr") { String::from_str("HR-HR") }
    else if str_eq(l, "ga") { String::from_str("GA-IE") }
    else { input.clone() }
}

/// Coerces each language code of a list, keeping the order.
pub fn coerce_lang_codes(input: Vec<String>) -> (r: Vec<String>)
    ensures
        r@.len() == input@.len(),
        forall|i: int| 0 <= i < r@.len() ==> #[trigger] r@[i]@ == coerced(input@[i]@),
{
    let mut r: Vec<String> = Vec::new();
    let mut i: usize = 0;
    while i < input.len()
        invariant
            i <= input@.len(),
            r@.len() == i,
            forall|k: int| 0 <= k < i ==> #[trigger] r@[k]@ == coerced(input@[k]@),
        decreases input@.len() - i,
    {
        r.push(coerce_lang_code(&input[i]));
        i = i + 1;
    }
    r
}

/// The pattern a column identifier must match: two word characters, one
/// separator, then two word characters or digits.
pub const COLUMN_PATTERN: &'static str = "^\\w{2}(-|_)(\\w|\\d){2}$";

#[verifier::external_type_specification]
#[verifier::external_body]
pub struct ExRegexError(regex::Error);

/// Whether the regex crate accepts `pattern`: it is well formed and within
/// the default size limit.
pub uninterp spec fn regex_compiles(pattern: Seq<char>) -> bool;

/// Whether `haystack` matches the regular expression `pattern`, as the regex
/// crate decides it.
pub uninterp spec fn regex_match(pattern: Seq<char>, haystack: Seq<char>) -> bool;

/// Relies on regex::Regex::new, which compiles `pattern` or reports why it
/// cannot (an error depends on the pattern alone), and Regex::is_match, which tests `haystack` against the result.
#[verifier::external_body]
fn regex_is_match(pattern: &str, haystack: &str) -> (r: Result<bool, regex::Error>)
    ensures
        r is Ok <==> regex_compiles(pattern@),
        r matches Ok(b) ==> b == regex_match(pattern@, haystack@),
{
    regex::Regex::new(pattern).map(|re| re.is_match(haystack))
}

/// Whether a normalized identifier may name a language column.
pub open spec fn is_valid_column(column: Seq<char>) -> bool {
    regex_match(COLUMN_PATTERN@, column)
}

/// Tests a normalized identifier against the column pattern; this fails
/// only when the pattern itself cannot be compiled.
pub fn check_column(column: &str) -> (r: Result<bool, regex::Error>)
    ensures
        r is Ok <==> regex_compiles(COLUMN_PATTERN@),
        r matches Ok(b) ==> b == is_valid_column(column@),
{
    regex_is_match(COLUMN_PATTERN, column)
}

/// A language code as a column identifier (`EN-GB` becomes `en_gb`), or why
/// it cannot be one.
pub fn lang_code_to_db_column(code: &str) -> (r: Result<String, WriterError>)
    ensures
        r is Ok <==> regex_compiles(COLUMN_PATTERN@) && is_valid_column(normalized(code@)),
        r matches Ok(c) ==> c@ == normalized(code@),
        r matches Err(WriterError::InvalidLanguageCode(c)) ==> c@ == normalized(code@)
            && regex_compiles(COLUMN_PATTERN@) && !is_valid_column(normalized(code@)),
        r matches Err(WriterError::Pattern(_)) <==> !regex_compiles(COLUMN_PATTERN@),
        !(r matches Err(WriterError::MissingDocumentIdentity)),
        !(r matches Err(WriterError::TooManyDocuments)),
{
    let c = normalize_lang_code(code);
    match check_column(c.as_str()) {
        Ok(true) => Ok(c),
        Ok(false) => Err(WriterError::InvalidLanguageCode(c)),
        Err(e) => Err(WriterError::Pattern(e)),
    }
}

/// An identifier found valid is its own normalization and is valid again:
/// validating a column identifier a second time succeeds with it unchanged.
pub proof fn lemma_valid_column_revalidates(code: Seq<char>)
    requires
        is_valid_column(normalized(code)),
    ensures
        normalized(normalized(code)) == normalized(code),
        is_valid_column(normalized(normalized(code))),
{
    lemma_normalize_idempotent(code);
}

} // verus!
