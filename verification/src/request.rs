//! Minimal request-line parsing.
//!
//! Only the second whitespace-delimited token of what was read from the
//! connection is interpreted: it is the requested URL.  Everything else
//! (method, protocol version, headers) is ignored.  A request with fewer
//! than two tokens yields nothing, and the connection is abandoned.

use vstd::prelude::*;
use crate::encoding::push_char;

verus! {

/// Whitespace as the request-line tokenizer understands it.
pub open spec fn is_space(c: char) -> bool {
    c == ' ' || c == '\t' || c == '\n' || c == '\r' || c == '\u{b}' || c == '\u{c}'
}

/// `s` without its leading whitespace.
pub open spec fn skip_spaces(s: Seq<char>) -> Seq<char>
    decreases s.len(),
{
    if s.len() > 0 && is_space(s[0]) {
        skip_spaces(s.skip(1))
    } else {
        s
    }
}

/// Length of the leading run of non-whitespace characters of `s`.
pub open spec fn token_len(s: Seq<char>) -> int
    decreases s.len(),
{
    if s.len() > 0 && !is_space(s[0]) {
        1 + token_len(s.skip(1))
    } else {
        0
    }
}

/// A token never extends past the end of its string.
pub proof fn lemma_token_len_bounds(s: Seq<char>)
    ensures
        0 <= token_len(s) <= s.len(),
    decreases s.len(),
{
    if s.len() > 0 && !is_space(s[0]) {
        lemma_token_len_bounds(s.skip(1));
    }
}

/// The leading run of non-whitespace characters of `s`.
pub open spec fn first_token(s: Seq<char>) -> Seq<char> {
    s.take(token_len(s))
}

/// The second whitespace-delimited token of `s`, if `s` has two tokens.
pub open spec fn second_token(s: Seq<char>) -> Option<Seq<char>> {
    let r1 = skip_spaces(s);
    if r1.len() == 0 {
        Option::None
    } else {
        let r2 = skip_spaces(r1.skip(token_len(r1)));
        if r2.len() == 0 {
            Option::None
        } else {
            Option::Some(first_token(r2))
        }
    }
}

/// Whether `c` is tokenizer whitespace.
fn is_space_char(c: char) -> (b: bool)
    ensures
        b == is_space(c),
{
    c == ' ' || c == '\t' || c == '\n' || c == '\r' || c == '\u{b}' || c == '\u{c}'
}

/// First position at or after `i` holding a non-whitespace character.
fn skip_spaces_from(v: &Vec<char>, i: usize) -> (j: usize)
    requires
        i <= v.len(),
    ensures
        i <= j <= v@.len(),
        skip_spaces(v@.skip(i as int)) == v@.skip(j as int),
        j == v@.len() || !is_space(v@[j as int]),
{
    let mut j: usize = i;
    loop
        invariant
            i <= j <= v@.len(),
            skip_spaces(v@.skip(i as int)) == skip_spaces(v@.skip(j as int)),
        ensures
            i <= j <= v@.len(),
            skip_spaces(v@.skip(i as int)) == v@.skip(j as int),
            j == v@.len() || !is_space(v@[j as int]),
        decreases v@.len() - j,
    {
        if j == v.len() {
            proof {
                assert(v@.skip(j as int) =~= Seq::<char>::empty());
            }
            break;
        }
        proof {
            assert(v@.skip(j as int)[0] == v@[j as int]);
        }
        if !is_space_char(v[j]) {
            break;
        }
        proof {
            assert(v@.skip(j as int).skip(1) =~= v@.skip(j as int + 1));
        }
        j += 1;
    }
    j
}

/// End of the run of non-whitespace characters starting at `i`.
fn token_end_from(v: &Vec<char>, i: usize) -> (j: usize)
    requires
        i <= v.len(),
    ensures
        i <= j <= v@.len(),
        j - i == token_len(v@.skip(i as int)),
{
    let mut j: usize = i;
    loop
        invariant
            i <= j <= v@.len(),
            token_len(v@.skip(i as int)) == (j - i) + token_len(v@.skip(j as int)),
        ensures
            i <= j <= v@.len(),
            j - i == token_len(v@.skip(i as int)),
        decreases v@.len() - j,
    {
        if j == v.len() {
            proof {
                assert(v@.skip(j as int) =~= Seq::<char>::empty());
            }
            break;
        }
        proof {
            assert(v@.skip(j as int)[0] == v@[j as int]);
        }
        if is_space_char(v[j]) {
            break;
        }
        proof {
            assert(v@.skip(j as int).skip(1) =~= v@.skip(j as int + 1));
        }
        j += 1;
    }
    j
}

/// The string holding the characters of `v` from `a` up to `b`.
fn string_range(v: &Vec<char>, a: usize, b: usize) -> (r: String)
    requires
        a <= b <= v.len(),
    ensures
        r@ == v@.subrange(a as int, b as int),
{
    let mut r = String::new();
    let mut k: usize = a;
    while k < b
        invariant
            a <= k <= b <= v@.len(),
            r@ == v@.subrange(a as int, k as int),
        decreases b - k,
    {
        push_char(&mut r, v[k]);
        proof {
            assert(v@.subrange(a as int, k as int) + seq![v@[k as int]] =~= v@.subrange(
                a as int,
                (k + 1) as int,
            ));
        }
        k += 1;
    }
    r
}

/// Extracts the requested URL from the characters read off a connection:
/// the second whitespace-delimited token, or nothing when fewer than two
/// tokens were read.
pub fn parse_request_url(request: &Vec<char>) -> (r: Option<String>)
    ensures
        match r {
            Option::Some(u) => second_token(request@) == Option::Some(u@) && u@.len() > 0,
            Option::None => second_token(request@) is None,
        },
{
    proof {
        assert(request@.skip(0) =~= request@);
    }
    let i1 = skip_spaces_from(request, 0);
    if i1 == request.len() {
        return Option::None;
    }
    let i2 = token_end_from(request, i1);
    proof {
        assert(request@.skip(i1 as int).skip(i2 - i1) =~= request@.skip(i2 as int));
    }
    let i3 = skip_spaces_from(request, i2);
    if i3 == request.len() {
        return Option::None;
    }
    let i4 = token_end_from(request, i3);
    proof {
        assert(request@.skip(i3 as int).take(i4 - i3) =~= request@.subrange(i3 as int, i4 as int));
        assert(request@.skip(i3 as int)[0] == request@[i3 as int]);
        lemma_token_len_bounds(request@.skip(i3 as int).skip(1));
    }
    Option::Some(string_range(request, i3, i4))
}

} // verus!
