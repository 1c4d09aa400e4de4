//! Small helpers for walking and building strings, shared by the parsers
//! of tiles, companies and commands.

use vstd::prelude::*;

verus! {

/// Appends one character to a string. Relies on String::push.
pub assume_specification[ String::push ](s: &mut String, ch: char)
    ensures
        final(s)@ == old(s)@.push(ch),
;

/// Collects the characters of a string slice into a vector.
pub fn chars_vec(s: &str) -> (v: Vec<char>)
    ensures
        v@ == s@,
{
    broadcast use vstd::string::axiom_spec_iter;

    let mut v: Vec<char> = Vec::new();
    let mut it = s.chars();
    loop
        invariant
            v@ + vstd::std_specs::iter::IteratorSpec::remaining(&it) == s@,
            vstd::std_specs::iter::IteratorSpec::obeys_prophetic_iter_laws(&it),
            vstd::std_specs::iter::IteratorSpec::decrease(&it) is Some,
        ensures
            v@ == s@,
        decreases vstd::std_specs::iter::IteratorSpec::decrease(&it).unwrap(),
    {
        broadcast use vstd::string::next_postcondition;

        match it.next() {
            Some(ch) => {
                v.push(ch);
                proof {
                    assert(v@ + vstd::std_specs::iter::IteratorSpec::remaining(&it) =~= s@);
                }
            },
            None => {
                proof {
                    assert(v@ =~= s@);
                }
                break ;
            },
        }
    }
    v
}

/// Builds an owned string from a range of a character vector.
pub fn string_of_range(v: &Vec<char>, from: usize, to: usize) -> (s: String)
    requires
        from <= to <= v@.len(),
    ensures
        s@ == v@.subrange(from as int, to as int),
{
    let mut s = String::new();
    let mut i: usize = from;
    while i < to
        invariant
            from <= i <= to <= v@.len(),
            s@ == v@.subrange(from as int, i as int),
        decreases to - i,
    {
        s.push(v[i]);
        proof {
            assert(s@ =~= v@.subrange(from as int, i as int + 1));
        }
        i += 1;
    }
    s
}

/// The ASCII-lowercased form of a character: letters `'A'` through `'Z'`
/// gain 32, everything else is untouched.
pub open spec fn lower_char(c: char) -> char {
    if 'A' <= c <= 'Z' {
        ((c as u8) + 32) as char
    } else {
        c
    }
}

/// ASCII-lowercases one character.
pub fn to_lower(c: char) -> (r: char)
    ensures
        r == lower_char(c),
{
    if 'A' <= c && c <= 'Z' {
        (c as u8 + 32) as char
    } else {
        c
    }
}

} // verus!

verus! {

/// Whether a character's code point lies in the ASCII range.
pub open spec fn char_is_ascii(c: char) -> bool {
    '\0' <= c <= '\u{7f}'
}

/// Compares a character vector with an ASCII string literal.
pub fn chars_eq_lit(v: &Vec<char>, lit: &str) -> (r: bool)
    requires
        vstd::string::is_ascii(lit),
    ensures
        r == (v@ == lit@),
{
    broadcast use vstd::string::is_ascii_spec_bytes;

    let b = lit.as_bytes();
    if v.len() != b.len() {
        proof {
            assert(v@.len() != lit@.len());
        }
        return false;
    }
    let n = v.len();
    let mut i: usize = 0;
    while i < n
        invariant
            n == v@.len(),
            n == lit@.len(),
            b@ == Seq::new(lit@.len(), |k: int| lit@[k] as u8),
            b@.len() == n,
            i <= n,
            forall|k: int| 0 <= k < i ==> v@[k] == lit@[k],
            vstd::string::is_ascii(lit),
        decreases n - i,
    {
        let c = v[i];
        let bc: u8 = b[i];
        if c as u32 != bc as u32 {
            proof {
                vstd::utf8::char_is_scalar(c);
                vstd::utf8::char_is_scalar(lit@[i as int]);
                assert(lit@[i as int] as u8 == bc);
                assert(crate::text::char_is_ascii(lit@[i as int]));
                assert(lit@[i as int] as u32 == bc as u32);
                assert(v@[i as int] != lit@[i as int]);
            }
            return false;
        }
        proof {
            vstd::utf8::char_is_scalar(c);
            vstd::utf8::char_is_scalar(lit@[i as int]);
            assert(lit@[i as int] as u8 == bc);
            assert(crate::text::char_is_ascii(lit@[i as int]));
            assert(c as u32 == lit@[i as int] as u32);
            vstd::utf8::char_u32_cast(c, c as u32);
            vstd::utf8::char_u32_cast(lit@[i as int], c as u32);
            assert(v@[i as int] == lit@[i as int]);
        }
        i += 1;
    }
    proof {
        assert(v@ =~= lit@);
    }
    true
}

} // verus!

verus! {

use crate::tile::{spec_digits_val, spec_parse_u8};

/// Parses a `u8` the way the standard numeric parser reads it: an optional
/// leading `'+'`, then decimal digits, up to 255.
pub fn parse_u8_str(s: &str) -> (r: Option<u8>)
    ensures
        r matches Some(n) ==> spec_parse_u8(s@) == Some(n as int),
        r is None ==> spec_parse_u8(s@) is None,
{
    let v = chars_vec(s);
    let n = v.len();
    if n == 0 {
        return None;
    }
    let mut k: usize = 0;
    if v[0] == '+' {
        k = 1;
    }
    let ghost body = if s@[0] == '+' {
        s@.drop_first()
    } else {
        s@
    };
    if k == n {
        return None;
    }
    let ghost kk0 = k as int;
    proof {
        if s@[0] == '+' {
            assert(body =~= s@.subrange(1, s@.len() as int));
        } else {
            assert(body =~= s@.subrange(0, s@.len() as int));
        }
        assert(body =~= s@.subrange(kk0, n as int));
        assert(body.subrange(0, body.len() as int) =~= body);
    }
    let mut val: u32 = 0;
    while k < n
        invariant
            n == s@.len(),
            n == v@.len(),
            v@ == s@,
            kk0 <= k <= n,
            kk0 == (if s@[0] == '+' {
                1int
            } else {
                0int
            }),
            body == s@.subrange(kk0, n as int),
            body == (if s@[0] == '+' {
                s@.drop_first()
            } else {
                s@
            }),
            body.len() > 0,
            val <= 255,
            spec_digits_val(body, 0) == spec_digits_val(
                body.subrange(k - kk0, body.len() as int),
                val as int,
            ),
        decreases n - k,
    {
        let c = v[k];
        proof {
            assert(body[k - kk0] == s@[k as int]);
            assert(body.subrange(k - kk0, body.len() as int)[0] == s@[k as int]);
            assert(body.subrange(k - kk0, body.len() as int).drop_first() =~= body.subrange(
                k + 1 - kk0,
                body.len() as int,
            ));
        }
        if !('0' <= c && c <= '9') {
            proof {
                assert(spec_digits_val(
                    body.subrange(k - kk0, body.len() as int),
                    val as int,
                ) is None);
            }
            return None;
        }
        let d: u32 = (c as u32) - 48;
        let next_val: u32 = val * 10 + d;
        if next_val > 255 {
            proof {
                assert(crate::tile::digit_val(c) == d);
                assert(spec_digits_val(
                    body.subrange(k - kk0, body.len() as int),
                    val as int,
                ) is None);
            }
            return None;
        }
        proof {
            assert(crate::tile::digit_val(c) == d);
        }
        val = next_val;
        k += 1;
    }
    proof {
        assert(body.subrange(n - kk0, body.len() as int) =~= Seq::<char>::empty());
        assert(spec_digits_val(body, 0) == Some(val as int));
    }
    Some(val as u8)
}

} // verus!
