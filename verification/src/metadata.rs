//! Reading a live parameter value out of the metadata tool's text output.
//!
//! The tool prints free-form text in which the first `value:'<number>'`
//! fragment holds the queried value. Nothing else about the framing is
//! relied on, and an absent or malformed fragment means the live value
//! could not be determined — never that it is `0`.

use vstd::prelude::*;
use crate::numerals::{
    all_digits, digit_seq_value, is_digit, is_digit_char, lemma_digit_seq_value_monotone,
    lemma_digit_seq_value_push,
};
use crate::strings::to_char_vec;

verus! {

/// The text that introduces the value in the tool's output.
pub open spec fn value_marker() -> Seq<char> {
    seq!['v', 'a', 'l', 'u', 'e', ':', '\'']
}

/// Whether the marker stands at position `i` of `s`.
pub open spec fn marker_at(s: Seq<char>, i: int) -> bool {
    0 <= i && i + value_marker().len() <= s.len() && s.subrange(i, i + value_marker().len())
        == value_marker()
}

/// The position of the first marker at or after `i`.
pub open spec fn find_marker_from(s: Seq<char>, i: int) -> Option<int>
    decreases s.len() - i,
    when 0 <= i <= s.len()
{
    if i + value_marker().len() > s.len() {
        None
    } else if marker_at(s, i) {
        Some(i)
    } else {
        find_marker_from(s, i + 1)
    }
}

/// The characters before the first closing quote (or all of them, when no
/// quote follows).
pub open spec fn take_until_quote(s: Seq<char>) -> Seq<char>
    decreases s.len(),
{
    if s.len() == 0 {
        Seq::empty()
    } else if s[0] == '\'' {
        Seq::empty()
    } else {
        seq![s[0]] + take_until_quote(s.skip(1))
    }
}

/// The value held by the first `value:'...'` fragment of `s`: the text
/// between the quotes must be one unsigned 32-bit decimal number, else
/// (and when no fragment is present) the value is undetermined.
pub open spec fn spec_value_fragment(s: Seq<char>) -> Option<u32> {
    match find_marker_from(s, 0) {
        None => None,
        Some(i) => {
            let tok = take_until_quote(s.skip(i + value_marker().len()));
            if tok.len() > 0 && all_digits(tok) && digit_seq_value(tok) <= u32::MAX {
                Some(digit_seq_value(tok) as u32)
            } else {
                None
            }
        },
    }
}

/// Whether the marker stands at position `i`, executably.
fn marker_matches(v: &Vec<char>, i: usize, len: usize) -> (r: bool)
    requires
        len == v@.len(),
        i + 7 <= len,
    ensures
        r == marker_at(v@, i as int),
{
    let r = v[i] == 'v' && v[i + 1] == 'a' && v[i + 2] == 'l' && v[i + 3] == 'u' && v[i + 4] == 'e'
        && v[i + 5] == ':' && v[i + 6] == '\'';
    proof {
        if r {
            assert(v@.subrange(i as int, i + 7) =~= value_marker());
        } else {
            if v@.subrange(i as int, i + 7) == value_marker() {
                assert(v@[i as int] == value_marker()[0]);
                assert(v@[i + 1] == value_marker()[1]);
                assert(v@[i + 2] == value_marker()[2]);
                assert(v@[i + 3] == value_marker()[3]);
                assert(v@[i + 4] == value_marker()[4]);
                assert(v@[i + 5] == value_marker()[5]);
                assert(v@[i + 6] == value_marker()[6]);
            }
        }
    }
    r
}

/// Scrapes the live value out of the metadata tool's output: the number in
/// the first `value:'...'` fragment, or `None` when the fragment is absent
/// or does not hold one unsigned 32-bit decimal number.
pub fn parse_value_fragment(output: &str) -> (r: Option<u32>)
    ensures
        r == spec_value_fragment(output@),
{
    let v = to_char_vec(output);
    let len = v.len();
    if len < 7 {
        return None;
    }
    let mut i: usize = 0;
    let mut found: bool = false;
    while i <= len - 7 && !found
        invariant
            i <= len,
            len == v@.len(),
            len >= 7,
            found ==> i + 7 <= len && marker_at(v@, i as int),
            find_marker_from(v@, 0) == if found {
                Some(i as int)
            } else {
                find_marker_from(v@, i as int)
            },
        decreases len - i + (if found { 0int } else { 1int }),
    {
        if marker_matches(&v, i, len) {
            found = true;
        } else {
            i = i + 1;
        }
    }
    if !found {
        proof {
            assert(find_marker_from(v@, i as int) is None);
        }
        return None;
    }
    let p = i + 7;
    let ghost after = v@.skip(p as int);
    let mut j: usize = p;
    let mut acc: u64 = 0;
    let mut digits_ok: bool = true;
    proof {
        assert(v@.subrange(p as int, p as int) =~= Seq::<char>::empty());
    }
    while j < len && v[j] != '\''
        invariant
            p <= j <= len,
            p <= len,
            len == v@.len(),
            after == v@.skip(p as int),
            take_until_quote(after) == v@.subrange(p as int, j as int) + take_until_quote(
                v@.skip(j as int),
            ),
            digits_ok ==> all_digits(v@.subrange(p as int, j as int)) && acc == digit_seq_value(
                v@.subrange(p as int, j as int),
            ) && acc <= u32::MAX,
            !digits_ok ==> !(take_until_quote(after).len() > 0 && all_digits(
                take_until_quote(after),
            ) && digit_seq_value(take_until_quote(after)) <= u32::MAX),
        decreases len - j,
    {
        let c = v[j];
        proof {
            assert(v@.skip(j as int)[0] == c);
            assert(v@.skip(j as int).skip(1) =~= v@.skip(j + 1));
            assert(take_until_quote(v@.skip(j as int)) == seq![c] + take_until_quote(
                v@.skip(j + 1),
            ));
            assert(v@.subrange(p as int, j as int) + (seq![c] + take_until_quote(v@.skip(j + 1)))
                =~= v@.subrange(p as int, j + 1) + take_until_quote(v@.skip(j + 1)));
            assert(v@.subrange(p as int, j as int).push(c) =~= v@.subrange(p as int, j + 1));
        }
        if digits_ok {
            if !is_digit(c) {
                digits_ok = false;
                proof {
                    let tok = take_until_quote(after);
                    let k = j - p;
                    assert(tok.len() > k);
                    assert(tok[k as int] == c);
                    assert(!all_digits(tok));
                }
            } else {
                let dv = (c as u32) - ('0' as u32);
                let next = acc * 10 + dv as u64;
                proof {
                    lemma_digit_seq_value_push(v@.subrange(p as int, j as int), c);
                }
                if next > 0xFFFF_FFFF {
                    digits_ok = false;
                    proof {
                        let tok = take_until_quote(after);
                        assert(tok =~= v@.subrange(p as int, j + 1) + take_until_quote(
                            v@.skip(j + 1),
                        ));
                        assert(tok.take(j + 1 - p) =~= v@.subrange(p as int, j + 1));
                        lemma_digit_seq_value_monotone(tok, j + 1 - p);
                    }
                } else {
                    acc = next;
                }
            }
        }
        j = j + 1;
    }
    proof {
        if j == len {
            assert(v@.skip(j as int) =~= Seq::<char>::empty());
        } else {
            assert(v@.skip(j as int)[0] == v@[j as int]);
        }
        assert(take_until_quote(v@.skip(j as int)) =~= Seq::<char>::empty());
        assert(take_until_quote(after) =~= v@.subrange(p as int, j as int));
    }
    if !digits_ok || j == p {
        return None;
    }
    Some(acc as u32)
}

} // verus!
