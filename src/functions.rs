use vstd::prelude::*;

verus! {

/// What encoding_rs makes of a buffer as UTF-16LE with its byte-order mark
/// removed: the decoded text and whether malformed sequences were replaced.
pub uninterp spec fn utf16le_decoded(bytes: Seq<u8>) -> (Seq<char>, bool);

/// Relies on encoding_rs::Encoding::decode_with_bom_removal on UTF_16LE: it
/// decodes the whole buffer, replaces malformed sequences with U+FFFD and
/// reports whether there were any. It panics only when the output size
/// overflows `usize`.
#[verifier::external_body]
fn decode_utf16le(input: &[u8]) -> (r: (String, bool))
    requires
        input@.len() <= usize::MAX / 4,
    ensures
        r.0@ == utf16le_decoded(input@).0,
        r.1 == utf16le_decoded(input@).1,
{
    let (text, malformed) = encoding_rs::UTF_16LE.decode_with_bom_removal(input);
    (text.into_owned(), malformed)
}

/// The input is not valid UTF-16LE.
#[derive(Debug, PartialEq, Eq)]
pub struct DecodeError;

/// Accepts a decoded text unless the decoder reported malformed input.
pub fn check_decoded(text: String, malformed: bool) -> (r: Result<String, DecodeError>)
    ensures
        malformed ==> r is Err,
        !malformed ==> (r matches Ok(s) && s@ == text@),
{
    if malformed {
        Err(DecodeError)
    } else {
        Ok(text)
    }
}

/// Decodes a whole document from UTF-16LE, dropping a leading byte-order
/// mark; malformed input is an error.
pub fn parse_utf16_string(input: Vec<u8>) -> (r: Result<String, DecodeError>)
    requires
        input@.len() <= usize::MAX / 4,
    ensures
        utf16le_decoded(input@).1 ==> r is Err,
        !utf16le_decoded(input@).1 ==> (r matches Ok(s) && s@ == utf16le_decoded(input@).0),
{
    let (text, malformed) = decode_utf16le(input.as_slice());
    check_decoded(text, malformed)
}

/// Whether a name ends in `.tmx`.
pub open spec fn is_tmx(name: Seq<char>) -> bool {
    name.len() >= 4 && name.subrange(name.len() - 4, name.len() as int) == seq!['.', 't', 'm', 'x']
}

/// Whether an archive entry's name marks it as a translation-memory document.
pub fn is_tmx_name(name: &str) -> (r: bool)
    ensures
        r == is_tmx(name@),
{
    let n = name.unicode_len();
    if n < 4 {
        return false;
    }
    let a = name.get_char(n - 4);
    let b = name.get_char(n - 3);
    let c = name.get_char(n - 2);
    let d = name.get_char(n - 1);
    let r = a == '.' && b == 't' && c == 'm' && d == 'x';
    proof {
        let s = name@.subrange(n - 4, n as int);
        if r {
            assert(s =~= seq!['.', 't', 'm', 'x']);
        } else {
            assert(s[0] == a && s[1] == b && s[2] == c && s[3] == d);
        }
    }
    r
}

/// How many of the names end in `.tmx`.
pub open spec fn tmx_count(names: Seq<String>) -> nat
    decreases names.len(),
{
    if names.len() == 0 {
        0
    } else {
        tmx_count(names.drop_last()) + if is_tmx(names.last()@) { 1nat } else { 0nat }
    }
}

/// Counts the entries, among the names of an archive's members, that are
/// translation-memory documents.
pub fn count_tmx_files(names: &Vec<String>) -> (r: usize)
    ensures
        r == tmx_count(names@),
{
    let mut count: usize = 0;
    let mut i: usize = 0;
    while i < names.len()
        invariant
            i <= names@.len(),
            count == tmx_count(names@.subrange(0, i as int)),
            count <= i,
        decreases names@.len() - i,
    {
        assert(names@.subrange(0, i + 1).drop_last() =~= names@.subrange(0, i as int));
        if is_tmx_name(names[i].as_str()) {
            count = count + 1;
        }
        i = i + 1;
    }
    assert(names@.subrange(0, names@.len() as int) =~= names@);
    count
}

} // verus!
