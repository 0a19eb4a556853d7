//! Decimal numerals: rendering an unsigned value as its digit string and
//! reading the leading digit token of a display string back into a value.
//!
//! Every unit formatter and the profile-file codec build on these
//! definitions, so the round-trip laws of the library reduce to
//! [`lemma_digits_of_value_round_trip`] and [`lemma_take_digits_exact`].

use vstd::prelude::*;
use crate::errors::FormatError;

verus! {

/// The digit character for a value below ten.
pub open spec fn digit_char(d: nat) -> char {
    if d == 0 {
        '0'
    } else if d == 1 {
        '1'
    } else if d == 2 {
        '2'
    } else if d == 3 {
        '3'
    } else if d == 4 {
        '4'
    } else if d == 5 {
        '5'
    } else if d == 6 {
        '6'
    } else if d == 7 {
        '7'
    } else if d == 8 {
        '8'
    } else {
        '9'
    }
}

pub open spec fn is_digit_char(c: char) -> bool {
    '0' <= c && c <= '9'
}

/// The numeric value of a digit character.
pub open spec fn digit_value(c: char) -> nat {
    (c as u32 - '0' as u32) as nat
}

/// The canonical decimal numeral of `n`: no sign, no leading zero except
/// for `n == 0` itself.
pub open spec fn digits_of(n: nat) -> Seq<char>
    decreases n,
{
    if n < 10 {
        seq![digit_char(n)]
    } else {
        digits_of(n / 10).push(digit_char(n % 10))
    }
}

/// The value denoted by a sequence of digit characters (most significant
/// first); an empty sequence denotes zero.
pub open spec fn digit_seq_value(s: Seq<char>) -> nat
    decreases s.len(),
{
    if s.len() == 0 {
        0
    } else {
        digit_seq_value(s.drop_last()) * 10 + digit_value(s.last())
    }
}

pub open spec fn all_digits(s: Seq<char>) -> bool {
    forall|i: int| 0 <= i < s.len() ==> is_digit_char(#[trigger] s[i])
}

/// The longest prefix of `s` made of digit characters.
pub open spec fn take_digits(s: Seq<char>) -> Seq<char>
    decreases s.len(),
{
    if s.len() > 0 && is_digit_char(s[0]) {
        seq![s[0]] + take_digits(s.skip(1))
    } else {
        Seq::empty()
    }
}

/// The value of the leading digit token of `s`: `None` when `s` has no
/// digit prefix or the token exceeds `u32::MAX`.
pub open spec fn leading_u32(s: Seq<char>) -> Option<u32> {
    let d = take_digits(s);
    if d.len() == 0 || digit_seq_value(d) > u32::MAX {
        None
    } else {
        Some(digit_seq_value(d) as u32)
    }
}

proof fn lemma_digit_char_value(d: nat)
    requires
        d < 10,
    ensures
        is_digit_char(digit_char(d)),
        digit_value(digit_char(d)) == d,
{
}

/// A numeral consists of digit characters only, and is never empty.
pub proof fn lemma_digits_of_shape(n: nat)
    ensures
        digits_of(n).len() >= 1,
        all_digits(digits_of(n)),
    decreases n,
{
    if n < 10 {
        lemma_digit_char_value(n);
    } else {
        lemma_digits_of_shape(n / 10);
        lemma_digit_char_value(n % 10);
        assert forall|i: int| 0 <= i < digits_of(n).len() implies is_digit_char(
            #[trigger] digits_of(n)[i],
        ) by {
            if i < digits_of(n / 10).len() {
                assert(digits_of(n)[i] == digits_of(n / 10)[i]);
            }
        }
    }
}

/// Appending a digit multiplies the denoted value by ten and adds it.
pub proof fn lemma_digit_seq_value_push(s: Seq<char>, c: char)
    ensures
        digit_seq_value(s.push(c)) == digit_seq_value(s) * 10 + digit_value(c),
{
    assert(s.push(c).drop_last() =~= s);
    assert(s.push(c).last() == c);
}

/// Reading the numeral of `n` yields `n` again.
pub proof fn lemma_digits_of_value_round_trip(n: nat)
    ensures
        digit_seq_value(digits_of(n)) == n,
    decreases n,
{
    if n < 10 {
        lemma_digit_char_value(n);
        assert(digits_of(n) =~= Seq::<char>::empty().push(digit_char(n)));
        lemma_digit_seq_value_push(Seq::<char>::empty(), digit_char(n));
        assert(digit_seq_value(Seq::<char>::empty()) == 0);
    } else {
        lemma_digits_of_value_round_trip(n / 10);
        lemma_digit_char_value(n % 10);
        lemma_digit_seq_value_push(digits_of(n / 10), digit_char(n % 10));
    }
}

/// `take_digits` recovers exactly a digit block that a non-digit (or the
/// end of the string) terminates.
pub proof fn lemma_take_digits_exact(d: Seq<char>, rest: Seq<char>)
    requires
        all_digits(d),
        rest.len() == 0 || !is_digit_char(rest[0]),
    ensures
        take_digits(d + rest) == d,
    decreases d.len(),
{
    if d.len() == 0 {
        assert(d + rest =~= rest);
        assert(take_digits(rest) =~= Seq::<char>::empty());
    } else {
        assert(all_digits(d.skip(1)));
        lemma_take_digits_exact(d.skip(1), rest);
        assert((d + rest).skip(1) =~= d.skip(1) + rest);
        assert(is_digit_char((d + rest)[0]));
        assert(take_digits(d + rest) =~= seq![d[0]] + d.skip(1));
        assert(seq![d[0]] + d.skip(1) =~= d);
    }
}

/// A digit prefix never denotes more than the whole digit sequence.
pub proof fn lemma_digit_seq_value_monotone(s: Seq<char>, i: int)
    requires
        0 <= i <= s.len(),
    ensures
        digit_seq_value(s.take(i)) <= digit_seq_value(s),
    decreases s.len() - i,
{
    if i < s.len() {
        lemma_digit_seq_value_monotone(s, i + 1);
        assert(s.take(i + 1).drop_last() =~= s.take(i));
        assert(digit_seq_value(s.take(i + 1)) == digit_seq_value(s.take(i)) * 10 + digit_value(
            s.take(i + 1).last(),
        ));
    } else {
        assert(s.take(i) =~= s);
    }
}

/// Renders `n` as its decimal numeral.
pub fn u64_to_string(n: u64) -> (r: String)
    ensures
        r@ == digits_of(n as nat),
{
    let mut rev: Vec<char> = Vec::new();
    let mut m: u64 = n;
    loop
        invariant_except_break
            digits_of(n as nat) == digits_of(m as nat) + rev@.reverse(),
        ensures
            digits_of(n as nat) == rev@.reverse(),
        decreases m,
    {
        let d = digit_to_char((m % 10) as u8);
        proof {
            assert(rev@.push(d).reverse() =~= seq![d] + rev@.reverse());
            if m >= 10 {
                assert(digits_of((m as nat) / 10).push(d) =~= digits_of((m as nat) / 10) + seq![
                    d,
                ]);
                assert(digits_of((m as nat) / 10) + seq![d] + rev@.reverse() =~= digits_of(
                    (m as nat) / 10,
                ) + (seq![d] + rev@.reverse()));
            } else {
                assert(digits_of(m as nat) =~= seq![d]);
            }
        }
        rev.push(d);
        if m < 10 {
            break;
        }
        m = m / 10;
    }
    let mut out = String::new();
    let mut i: usize = 0;
    let len = rev.len();
    proof {
        assert(out@ =~= rev@.reverse().take(0));
    }
    while i < len
        invariant
            i <= len,
            len == rev@.len(),
            out@ == rev@.reverse().take(i as int),
        decreases len - i,
    {
        let c = rev[len - 1 - i];
        proof {
            assert(rev@.reverse()[i as int] == c);
            assert(rev@.reverse().take(i + 1) =~= rev@.reverse().take(i as int).push(c));
        }
        crate::strings::push_char(&mut out, c);
        i = i + 1;
    }
    proof {
        assert(rev@.reverse().take(len as int) =~= rev@.reverse());
    }
    out
}

/// The digit character of a value below ten.
pub fn digit_to_char(d: u8) -> (c: char)
    requires
        d < 10,
    ensures
        c == digit_char(d as nat),
{
    match d {
        0 => '0',
        1 => '1',
        2 => '2',
        3 => '3',
        4 => '4',
        5 => '5',
        6 => '6',
        7 => '7',
        8 => '8',
        _ => '9',
    }
}

/// Reads the leading digit token of a display string: the value it denotes,
/// or `FormatError` when the string has no digit prefix or the token
/// overflows a `u32`.
pub fn parse_leading_u32(s: &str) -> (r: Result<u32, FormatError>)
    ensures
        match r {
            Ok(v) => leading_u32(s@) == Some(v),
            Err(_) => leading_u32(s@) is None,
        },
{
    let len = s.unicode_len();
    let mut i: usize = 0;
    let mut acc: u64 = 0;
    proof {
        assert(s@.skip(0) =~= s@);
        assert(s@.take(0) =~= Seq::<char>::empty());
    }
    while i < len && is_digit(s.get_char(i))
        invariant
            i <= len,
            len == s@.len(),
            all_digits(s@.take(i as int)),
            take_digits(s@) == s@.take(i as int) + take_digits(s@.skip(i as int)),
            acc == digit_seq_value(s@.take(i as int)),
            acc <= u32::MAX,
        decreases len - i,
    {
        let c = s.get_char(i);
        let dv = (c as u32) - ('0' as u32);
        let next = acc * 10 + dv as u64;
        proof {
            lemma_digit_seq_value_push(s@.take(i as int), c);
            assert(s@.take(i as int).push(c) =~= s@.take(i + 1));
            assert(s@.skip(i as int)[0] == c);
            assert(s@.skip(i as int).skip(1) =~= s@.skip(i + 1));
            assert(take_digits(s@.skip(i as int)) == seq![c] + take_digits(s@.skip(i + 1)));
            assert(s@.take(i as int) + (seq![c] + take_digits(s@.skip(i + 1))) =~= s@.take(i + 1)
                + take_digits(s@.skip(i + 1)));
        }
        if next > 0xFFFF_FFFF {
            proof {
                let all = take_digits(s@);
                assert(all =~= s@.take(i + 1) + take_digits(s@.skip(i + 1)));
                assert(all.take(i + 1) =~= s@.take(i + 1));
                lemma_digit_seq_value_monotone(all, i + 1);
            }
            return Err(FormatError);
        }
        acc = next;
        i = i + 1;
    }
    proof {
        if i == len {
            assert(s@.skip(i as int) =~= Seq::<char>::empty());
        } else {
            assert(s@.skip(i as int)[0] == s@[i as int]);
        }
        assert(take_digits(s@.skip(i as int)) =~= Seq::<char>::empty());
        assert(take_digits(s@) =~= s@.take(i as int));
    }
    if i == 0 {
        Err(FormatError)
    } else {
        Ok(acc as u32)
    }
}

/// Whether `c` is a decimal digit.
pub fn is_digit(c: char) -> (r: bool)
    ensures
        r == is_digit_char(c),
{
    '0' <= c && c <= '9'
}

} // verus!
