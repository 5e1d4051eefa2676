//! Small verified helpers for working with text as sequences of characters.

use vstd::prelude::*;

verus! {

/// Replace, left to right, every non-overlapping occurrence of `pat` in
/// `text` by `sub`. An empty pattern leaves the text unchanged.
pub open spec fn spec_replace_all(text: Seq<char>, pat: Seq<char>, sub: Seq<char>) -> Seq<char>
    decreases text.len(),
{
    if pat.len() == 0 || text.len() < pat.len() {
        text
    } else if text.subrange(0, pat.len() as int) == pat {
        sub + spec_replace_all(text.skip(pat.len() as int), pat, sub)
    } else {
        seq![text[0]] + spec_replace_all(text.skip(1), pat, sub)
    }
}

/// Turn a string slice into the vector of its characters.
pub fn str_to_chars(s: &str) -> (r: Vec<char>)
    ensures
        r@ == s@,
{
    let n = s.unicode_len();
    let mut r: Vec<char> = Vec::new();
    let mut i: usize = 0;
    while i < n
        invariant
            i <= n,
            n == s@.len(),
            r@ == s@.take(i as int),
        decreases n - i,
    {
        r.push(s.get_char(i));
        i = i + 1;
        proof {
            assert(r@ =~= s@.take(i as int));
        }
    }
    proof {
        assert(s@.take(n as int) =~= s@);
    }
    r
}

/// Relies on `String`'s `FromIterator<char>` implementation: collecting the
/// characters of a vector yields the string made of exactly those characters.
#[verifier::external_body]
pub fn chars_to_string(v: &Vec<char>) -> (r: String)
    ensures
        r@ == v@,
{
    v.iter().collect()
}

/// Relies on `String::from_utf8`: it accepts exactly the byte sequences
/// that are valid UTF-8, and decodes them to the characters they encode.
#[verifier::external_body]
pub fn bytes_to_utf8_string(bytes: &Vec<u8>) -> (r: Option<String>)
    ensures
        r is Some <==> vstd::utf8::valid_utf8(bytes@),
        r matches Some(s) ==> vstd::utf8::encode_utf8(s@) == bytes@,
{
    String::from_utf8(bytes.clone()).ok()
}

/// An exact copy of a vector of strings.
pub fn clone_string_vec(v: &Vec<String>) -> (r: Vec<String>)
    ensures
        r@ == v@,
{
    let mut r: Vec<String> = Vec::new();
    let mut i: usize = 0;
    while i < v.len()
        invariant
            i <= v@.len(),
            r@ == v@.take(i as int),
        decreases v@.len() - i,
    {
        r.push(v[i].clone());
        proof {
            assert(r@ =~= v@.take(i + 1));
        }
        i = i + 1;
    }
    proof {
        assert(v@.take(v@.len() as int) =~= v@);
    }
    r
}

/// Character-for-character equality of two string slices.
pub fn str_eq(a: &str, b: &str) -> (r: bool)
    ensures
        r == (a@ == b@),
{
    let la = a.unicode_len();
    let lb = b.unicode_len();
    if la != lb {
        return false;
    }
    let mut i: usize = 0;
    while i < la
        invariant
            i <= la,
            la == a@.len(),
            la == b@.len(),
            forall|j: int| 0 <= j < i ==> a@[j] == b@[j],
        decreases la - i,
    {
        if a.get_char(i) != b.get_char(i) {
            return false;
        }
        i = i + 1;
    }
    proof {
        assert(a@ =~= b@);
    }
    true
}

/// Whether some element of `v` equals the string `s`.
pub fn contains_string(v: &Vec<String>, s: &str) -> (r: bool)
    ensures
        r == (exists|j: int| 0 <= j < v@.len() && v@[j]@ == s@),
{
    let mut i: usize = 0;
    while i < v.len()
        invariant
            i <= v@.len(),
            forall|j: int| 0 <= j < i ==> v@[j]@ != s@,
        decreases v@.len() - i,
    {
        if str_eq(v[i].as_str(), s) {
            return true;
        }
        i = i + 1;
    }
    false
}

/// The decimal digits of `n`, most significant first.
pub open spec fn spec_decimal(n: int) -> Seq<char>
    decreases n,
{
    if n < 10 {
        seq![spec_digit_char(n)]
    } else {
        spec_decimal(n / 10) + seq![spec_digit_char(n % 10)]
    }
}

/// The character for a single decimal digit.
pub open spec fn spec_digit_char(d: int) -> char {
    ((48 + d) as u8) as char
}

fn digit_char(d: u32) -> (r: char)
    requires
        d < 10,
    ensures
        r == spec_digit_char(d as int),
{
    ((48 + d) as u8) as char
}

/// Format an unsigned number in decimal.
pub fn u32_to_decimal(n: u32) -> (r: Vec<char>)
    ensures
        r@ == spec_decimal(n as int),
    decreases n,
{
    if n < 10 {
        let mut r: Vec<char> = Vec::new();
        r.push(digit_char(n));
        proof {
            assert(r@ =~= spec_decimal(n as int));
        }
        r
    } else {
        let mut r = u32_to_decimal(n / 10);
        r.push(digit_char(n % 10));
        proof {
            assert(r@ =~= spec_decimal(n as int));
        }
        r
    }
}

/// Whether `text[at .. at + pat.len()]` equals `pat`.
fn match_at(text: &Vec<char>, pat: &Vec<char>, at: usize) -> (r: bool)
    requires
        at + pat@.len() <= text@.len(),
    ensures
        r == (text@.subrange(at as int, at + pat@.len()) == pat@),
{
    let n = text.len();
    let mut j: usize = 0;
    while j < pat.len()
        invariant
            j <= pat@.len(),
            n == text@.len(),
            at + pat@.len() <= text@.len(),
            forall|k: int| 0 <= k < j ==> text@[at + k] == pat@[k],
        decreases pat@.len() - j,
    {
        if text[at + j] != pat[j] {
            proof {
                assert(text@.subrange(at as int, at + pat@.len())[j as int] != pat@[j as int]);
            }
            return false;
        }
        j = j + 1;
    }
    proof {
        assert(text@.subrange(at as int, at + pat@.len()) =~= pat@);
    }
    true
}

/// Replace every non-overlapping occurrence of `pat` in `text` by `sub`,
/// scanning from the left.
pub fn replace_all(text: &Vec<char>, pat: &Vec<char>, sub: &Vec<char>) -> (r: Vec<char>)
    requires
        pat@.len() > 0,
    ensures
        r@ == spec_replace_all(text@, pat@, sub@),
{
    let n = text.len();
    let p = pat.len();
    let mut out: Vec<char> = Vec::new();
    let mut i: usize = 0;
    proof {
        assert(text@.skip(0) =~= text@);
    }
    while i < n
        invariant
            i <= n,
            n == text@.len(),
            p == pat@.len(),
            p > 0,
            spec_replace_all(text@, pat@, sub@) == out@ + spec_replace_all(
                text@.skip(i as int),
                pat@,
                sub@,
            ),
        decreases n - i,
    {
        let ghost rest = text@.skip(i as int);
        if p <= n - i && match_at(text, pat, i) {
            let ghost out0 = out@;
            let mut j: usize = 0;
            while j < sub.len()
                invariant
                    j <= sub@.len(),
                    out@ == out0 + sub@.take(j as int),
                decreases sub@.len() - j,
            {
                out.push(sub[j]);
                j = j + 1;
                proof {
                    assert(out@ =~= out0 + sub@.take(j as int));
                }
            }
            proof {
                assert(out@ =~= out0 + sub@);
                assert(rest.subrange(0, p as int) =~= text@.subrange(i as int, i + p));
                assert(rest.skip(p as int) =~= text@.skip(i + p));
            }
            i = i + p;
        } else {
            proof {
                if rest.len() >= p {
                    assert(rest.subrange(0, p as int) =~= text@.subrange(i as int, i + p));
                }
                assert(rest.skip(1) =~= text@.skip(i + 1));
                assert(seq![text@[i as int]] =~= rest.take(1));
            }
            out.push(text[i]);
            i = i + 1;
        }
    }
    proof {
        assert(text@.skip(n as int) =~= Seq::<char>::empty());
    }
    out
}

} // verus!
