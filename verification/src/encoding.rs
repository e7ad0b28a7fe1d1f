//! Conversions between byte buffers, strings and character vectors.
//!
//! File content arrives as raw bytes and is decoded to text (invalid
//! sequences replaced) before markers are substituted, then encoded back to
//! bytes.  Encoding is specified by `vstd::utf8::encode_utf8`; decoding is
//! named by the uninterpreted function [`lossy_decode_of`].

use vstd::prelude::*;
use vstd::string::StrSliceExecFns;
use vstd::utf8::encode_utf8;

verus! {

/// The character sequence that lossy UTF-8 decoding yields for `bytes`:
/// the decoded text, with each invalid sequence replaced.
pub uninterp spec fn lossy_decode_of(bytes: Seq<u8>) -> Seq<char>;

/// Relies on `String::from_utf8_lossy`: the result depends on the bytes
/// alone, and a byte sequence that is the UTF-8 encoding of some text
/// decodes to exactly that text.
#[verifier::external_body]
pub fn lossy_string(bytes: &Vec<u8>) -> (r: String)
    ensures
        r@ == lossy_decode_of(bytes@),
        forall|s: Seq<char>| bytes@ == #[trigger] encode_utf8(s) ==> r@ == s,
{
    String::from_utf8_lossy(bytes.as_slice()).into_owned()
}

/// Relies on `String::push`: appends the given character to the end of the
/// string.
#[verifier::external_body]
pub fn push_char(s: &mut String, c: char)
    ensures
        final(s)@ == old(s)@ + seq![c],
{
    s.push(c);
}

/// The characters of `s`, as a vector.
pub fn chars_of(s: &str) -> (r: Vec<char>)
    ensures
        r@ == s@,
{
    let n = s.unicode_len();
    let mut r: Vec<char> = Vec::new();
    let mut i: usize = 0;
    while i < n
        invariant
            n == s@.len(),
            i <= n,
            r@ == s@.subrange(0, i as int),
        decreases n - i,
    {
        r.push(s.get_char(i));
        proof {
            assert(s@.subrange(0, i as int) + seq![s@[i as int]] =~= s@.subrange(0, (i + 1) as int));
        }
        i += 1;
    }
    proof {
        assert(s@.subrange(0, s@.len() as int) =~= s@);
    }
    r
}

/// The string holding exactly the characters of `v`.
pub fn string_of(v: &Vec<char>) -> (r: String)
    ensures
        r@ == v@,
{
    let mut r = String::new();
    let mut i: usize = 0;
    while i < v.len()
        invariant
            i <= v@.len(),
            r@ == v@.subrange(0, i as int),
        decreases v@.len() - i,
    {
        push_char(&mut r, v[i]);
        proof {
            assert(v@.subrange(0, i as int) + seq![v@[i as int]] =~= v@.subrange(0, (i + 1) as int));
        }
        i += 1;
    }
    proof {
        assert(v@.subrange(0, v@.len() as int) =~= v@);
    }
    r
}

/// The UTF-8 encoding of the characters of `s`, as a byte vector.
pub fn encode_string(s: &str) -> (r: Vec<u8>)
    ensures
        r@ == encode_utf8(s@),
{
    s.as_bytes_vec()
}

} // verus!
