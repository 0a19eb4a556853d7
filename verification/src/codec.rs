//! The durable profile-file format: a JSON array of
//! `{"name":..., "buffer_size":..., "sample_rate":...}` objects, field
//! names verbatim, values unsigned 32-bit integers.
//!
//! The encoder renders a store canonically (compact, fields in the order
//! above, only `"` and `\` escaped in names). The decoder reads that form
//! back — accepting the common short escapes in names — and treats anything
//! else as malformed. [`lemma_profiles_round_trip`] proves that decoding an
//! encoded store yields the store unchanged, so no profile is ever silently
//! dropped or truncated by persistence.

use vstd::prelude::*;
use crate::numerals::{
    all_digits, digit_seq_value, digits_of, is_digit, is_digit_char,
    lemma_digit_seq_value_monotone, lemma_digit_seq_value_push, lemma_digits_of_shape,
    lemma_digits_of_value_round_trip, lemma_take_digits_exact, take_digits, u64_to_string,
};
use crate::profile::{LateProfile, ProfileV};
use crate::strings::{push_char, to_char_vec};

verus! {

/// The opening of a profile object, through the quote that starts the name.
pub open spec fn obj_open() -> Seq<char> {
    seq!['{', '"', 'n', 'a', 'm', 'e', '"', ':', '"']
}

/// The text between the name's closing quote and the buffer-size value.
pub open spec fn bs_key() -> Seq<char> {
    seq![',', '"', 'b', 'u', 'f', 'f', 'e', 'r', '_', 's', 'i', 'z', 'e', '"', ':']
}

/// The text between the buffer-size value and the sample-rate value.
pub open spec fn sr_key() -> Seq<char> {
    seq![',', '"', 's', 'a', 'm', 'p', 'l', 'e', '_', 'r', 'a', 't', 'e', '"', ':']
}

/// How a single character of a name is written inside a JSON string.
pub open spec fn escape_char(c: char) -> Seq<char> {
    if c == '"' {
        seq!['\\', '"']
    } else if c == '\\' {
        seq!['\\', '\\']
    } else {
        seq![c]
    }
}

/// How a whole name is written inside a JSON string.
pub open spec fn escape_string(s: Seq<char>) -> Seq<char>
    decreases s.len(),
{
    if s.len() == 0 {
        Seq::empty()
    } else {
        escape_char(s[0]) + escape_string(s.skip(1))
    }
}

/// The canonical text of one stored profile.
pub open spec fn spec_encode_profile(p: ProfileV) -> Seq<char> {
    obj_open() + escape_string(p.name) + seq!['"'] + bs_key() + digits_of(p.buffer_size as nat)
        + sr_key() + digits_of(p.sample_rate as nat) + seq!['}']
}

/// The text that follows the first profile of a non-empty store: a
/// comma-separated profile per store entry, then the closing bracket.
pub open spec fn spec_encode_tail(ps: Seq<ProfileV>) -> Seq<char>
    decreases ps.len(),
{
    if ps.len() == 0 {
        seq![']']
    } else {
        seq![','] + spec_encode_profile(ps[0]) + spec_encode_tail(ps.skip(1))
    }
}

/// The canonical text of a whole store.
pub open spec fn spec_encode(ps: Seq<ProfileV>) -> Seq<char> {
    if ps.len() == 0 {
        seq!['[', ']']
    } else {
        seq!['['] + spec_encode_profile(ps[0]) + spec_encode_tail(ps.skip(1))
    }
}

/// Appends the escaped form of `name` to `out`.
fn append_escaped(out: &mut String, name: &str)
    ensures
        final(out)@ == old(out)@ + escape_string(name@),
{
    let len = name.unicode_len();
    let mut i: usize = 0;
    proof {
        assert(name@.skip(0) =~= name@);
        assert(old(out)@ + escape_string(Seq::<char>::empty()) =~= old(out)@);
    }
    while i < len
        invariant
            i <= len,
            len == name@.len(),
            old(out)@ + escape_string(name@) == out@ + escape_string(name@.skip(i as int)),
        decreases len - i,
    {
        let c = name.get_char(i);
        proof {
            assert(name@.skip(i as int)[0] == c);
            assert(name@.skip(i as int).skip(1) =~= name@.skip(i + 1));
            assert(escape_string(name@.skip(i as int)) == escape_char(c) + escape_string(
                name@.skip(i + 1),
            ));
            assert(out@ + (escape_char(c) + escape_string(name@.skip(i + 1))) =~= (out@
                + escape_char(c)) + escape_string(name@.skip(i + 1)));
        }
        let ghost before = out@;
        if c == '"' {
            push_char(out, '\\');
            push_char(out, '"');
            proof {
                assert(out@ =~= before + escape_char(c));
            }
        } else if c == '\\' {
            push_char(out, '\\');
            push_char(out, '\\');
            proof {
                assert(out@ =~= before + escape_char(c));
            }
        } else {
            push_char(out, c);
            proof {
                assert(out@ =~= before + escape_char(c));
            }
        }
        i = i + 1;
    }
    proof {
        assert(name@.skip(len as int) =~= Seq::<char>::empty());
        assert(out@ + escape_string(Seq::<char>::empty()) =~= out@);
    }
}

/// Appends the canonical text of one profile to `out`.
fn encode_profile_into(out: &mut String, p: &LateProfile)
    ensures
        final(out)@ == old(out)@ + spec_encode_profile(p@),
{
    out.append("{\"name\":\"");
    append_escaped(out, p.name.as_str());
    push_char(out, '"');
    out.append(",\"buffer_size\":");
    let bs = u64_to_string(p.buffer_size as u64);
    out.append(bs.as_str());
    out.append(",\"sample_rate\":");
    let sr = u64_to_string(p.sample_rate as u64);
    out.append(sr.as_str());
    push_char(out, '}');
    proof {
        reveal_strlit("{\"name\":\"");
        reveal_strlit(",\"buffer_size\":");
        reveal_strlit(",\"sample_rate\":");
        assert("{\"name\":\""@ =~= obj_open());
        assert(",\"buffer_size\":"@ =~= bs_key());
        assert(",\"sample_rate\":"@ =~= sr_key());
        assert(out@ =~= old(out)@ + spec_encode_profile(p@));
    }
}

/// Serializes the whole store into the durable profile-file text.
pub fn encode_profiles(profiles: &Vec<LateProfile>) -> (r: String)
    ensures
        r@ == spec_encode(profiles.deep_view()),
{
    let ghost all = profiles.deep_view();
    let mut out = String::new();
    if profiles.len() == 0 {
        out.append("[]");
        proof {
            reveal_strlit("[]");
            assert(out@ =~= spec_encode(all));
        }
        return out;
    }
    push_char(&mut out, '[');
    encode_profile_into(&mut out, &profiles[0]);
    let mut i: usize = 1;
    proof {
        assert(out@ =~= seq!['['] + spec_encode_profile(all[0]));
    }
    while i < profiles.len()
        invariant
            1 <= i <= profiles@.len(),
            all == profiles.deep_view(),
            all.len() == profiles@.len(),
            spec_encode(all) == out@ + spec_encode_tail(all.skip(i as int)),
        decreases profiles@.len() - i,
    {
        let ghost before = out@;
        push_char(&mut out, ',');
        encode_profile_into(&mut out, &profiles[i]);
        proof {
            assert(all.skip(i as int)[0] == all[i as int]);
            assert(all.skip(i as int).skip(1) =~= all.skip(i + 1));
            assert(spec_encode_tail(all.skip(i as int)) == seq![','] + spec_encode_profile(
                all[i as int],
            ) + spec_encode_tail(all.skip(i + 1)));
            assert(out@ =~= before + seq![','] + spec_encode_profile(all[i as int]));
            assert(before + (seq![','] + spec_encode_profile(all[i as int]) + spec_encode_tail(
                all.skip(i + 1),
            )) =~= (before + seq![','] + spec_encode_profile(all[i as int])) + spec_encode_tail(
                all.skip(i + 1),
            ));
        }
        i = i + 1;
    }
    push_char(&mut out, ']');
    proof {
        assert(all.skip(i as int) =~= Seq::<ProfileV>::empty());
        assert(out@ =~= spec_encode(all));
    }
    out
}

/// The character an escape sequence `\c` in a JSON string stands for.
pub open spec fn unescape_char(c: char) -> Option<char> {
    if c == '"' {
        Some('"')
    } else if c == '\\' {
        Some('\\')
    } else if c == '/' {
        Some('/')
    } else if c == 'n' {
        Some('\n')
    } else if c == 't' {
        Some('\t')
    } else if c == 'r' {
        Some('\r')
    } else {
        None
    }
}

/// Consumes `pat` from the front of `s`.
pub open spec fn parse_literal(s: Seq<char>, pat: Seq<char>) -> Option<Seq<char>> {
    if pat.is_prefix_of(s) {
        Some(s.skip(pat.len() as int))
    } else {
        None
    }
}

/// Reads a JSON string up to and including its closing quote; yields the
/// unescaped characters and what follows the quote.
pub open spec fn parse_string_body(s: Seq<char>) -> Option<(Seq<char>, Seq<char>)>
    decreases s.len(),
{
    if s.len() == 0 {
        None
    } else if s[0] == '"' {
        Some((Seq::empty(), s.skip(1)))
    } else if s[0] == '\\' {
        if s.len() < 2 {
            None
        } else {
            match unescape_char(s[1]) {
                Some(c) => match parse_string_body(s.skip(2)) {
                    Some(t) => Some((seq![c] + t.0, t.1)),
                    None => None,
                },
                None => None,
            }
        }
    } else {
        match parse_string_body(s.skip(1)) {
            Some(t) => Some((seq![s[0]] + t.0, t.1)),
            None => None,
        }
    }
}

/// Reads a decimal number that fits a `u32`.
pub open spec fn parse_number(s: Seq<char>) -> Option<(u32, Seq<char>)> {
    let d = take_digits(s);
    if d.len() == 0 || digit_seq_value(d) > u32::MAX {
        None
    } else {
        Some((digit_seq_value(d) as u32, s.skip(d.len() as int)))
    }
}

/// Reads one profile object.
pub open spec fn parse_profile(s: Seq<char>) -> Option<(ProfileV, Seq<char>)> {
    match parse_literal(s, obj_open()) {
        None => None,
        Some(s1) => match parse_string_body(s1) {
            None => None,
            Some(nr) => match parse_literal(nr.1, bs_key()) {
                None => None,
                Some(s2) => match parse_number(s2) {
                    None => None,
                    Some(br) => match parse_literal(br.1, sr_key()) {
                        None => None,
                        Some(s3) => match parse_number(s3) {
                            None => None,
                            Some(rr) => match parse_literal(rr.1, seq!['}']) {
                                None => None,
                                Some(s4) => Some(
                                    (
                                        ProfileV {
                                            name: nr.0,
                                            buffer_size: br.0,
                                            sample_rate: rr.0,
                                        },
                                        s4,
                                    ),
                                ),
                            },
                        },
                    },
                },
            },
        },
    }
}

/// What a successful literal parse leaves is a strictly shorter suffix
/// when the pattern is non-empty.
proof fn lemma_parse_literal_len(s: Seq<char>, pat: Seq<char>)
    ensures
        parse_literal(s, pat) matches Some(r) ==> r.len() == s.len() - pat.len(),
{
}

/// A string body consumes at least its closing quote.
proof fn lemma_parse_string_body_len(s: Seq<char>)
    ensures
        parse_string_body(s) matches Some(t) ==> t.1.len() < s.len(),
    decreases s.len(),
{
    if s.len() > 0 && s[0] != '"' {
        if s[0] == '\\' {
            if s.len() >= 2 {
                lemma_parse_string_body_len(s.skip(2));
            }
        } else {
            lemma_parse_string_body_len(s.skip(1));
        }
    }
}

/// A number never consumes more than the whole input.
proof fn lemma_parse_number_len(s: Seq<char>)
    ensures
        parse_number(s) matches Some(r) ==> r.1.len() <= s.len(),
{
    lemma_take_digits_is_prefix(s);
}

/// The digit prefix of `s` is never longer than `s`.
proof fn lemma_take_digits_is_prefix(s: Seq<char>)
    ensures
        take_digits(s).len() <= s.len(),
    decreases s.len(),
{
    if s.len() > 0 && is_digit_char(s[0]) {
        lemma_take_digits_is_prefix(s.skip(1));
    }
}

/// A profile object consumes at least one character.
proof fn lemma_parse_profile_len(s: Seq<char>)
    ensures
        parse_profile(s) matches Some(r) ==> r.1.len() < s.len(),
{
    if let Some(s1) = parse_literal(s, obj_open()) {
        lemma_parse_literal_len(s, obj_open());
        if let Some(nr) = parse_string_body(s1) {
            lemma_parse_string_body_len(s1);
            if let Some(s2) = parse_literal(nr.1, bs_key()) {
                lemma_parse_literal_len(nr.1, bs_key());
                if let Some(br) = parse_number(s2) {
                    lemma_parse_number_len(s2);
                    if let Some(s3) = parse_literal(br.1, sr_key()) {
                        lemma_parse_literal_len(br.1, sr_key());
                        if let Some(rr) = parse_number(s3) {
                            lemma_parse_number_len(s3);
                            if let Some(s4) = parse_literal(rr.1, seq!['}']) {
                                lemma_parse_literal_len(rr.1, seq!['}']);
                            }
                        }
                    }
                }
            }
        }
    }
}

/// Reads the profiles that follow the first one: each introduced by a
/// comma, the list closed by a bracket.
pub open spec fn parse_tail(s: Seq<char>) -> Option<(Seq<ProfileV>, Seq<char>)>
    decreases s.len(),
    via parse_tail_decreases
{
    if s.len() > 0 && s[0] == ']' {
        Some((Seq::empty(), s.skip(1)))
    } else if s.len() > 0 && s[0] == ',' {
        match parse_profile(s.skip(1)) {
            None => None,
            Some(pr) => match parse_tail(pr.1) {
                None => None,
                Some(tr) => Some((seq![pr.0] + tr.0, tr.1)),
            },
        }
    } else {
        None
    }
}

#[via_fn]
proof fn parse_tail_decreases(s: Seq<char>) {
    if s.len() > 0 && s[0] == ',' {
        lemma_parse_profile_len(s.skip(1));
    }
}

/// Reads the whole list body after the opening bracket: either the closing
/// bracket at once, or a first profile and then the tail.
pub open spec fn parse_profiles(s: Seq<char>) -> Option<(Seq<ProfileV>, Seq<char>)> {
    if s.len() > 0 && s[0] == ']' {
        Some((Seq::empty(), s.skip(1)))
    } else {
        match parse_profile(s) {
            None => None,
            Some(pr) => match parse_tail(pr.1) {
                None => None,
                Some(tr) => Some((seq![pr.0] + tr.0, tr.1)),
            },
        }
    }
}

/// What a profile-file text denotes: a store when the text is well-formed
/// in its entirety, nothing otherwise.
pub open spec fn spec_decode(s: Seq<char>) -> Option<Seq<ProfileV>> {
    match parse_literal(s, seq!['[']) {
        None => None,
        Some(s1) => match parse_profiles(s1) {
            None => None,
            Some(pr) => if pr.1.len() == 0 {
                Some(pr.0)
            } else {
                None
            },
        },
    }
}

proof fn lemma_parse_literal_inv(pat: Seq<char>, rest: Seq<char>)
    ensures
        parse_literal(pat + rest, pat) == Some(rest),
{
    assert((pat + rest).subrange(0, pat.len() as int) =~= pat);
    assert(pat.is_prefix_of(pat + rest));
    assert((pat + rest).skip(pat.len() as int) =~= rest);
}

proof fn lemma_parse_string_body_inv(name: Seq<char>, rest: Seq<char>)
    ensures
        parse_string_body(escape_string(name) + seq!['"'] + rest) == Some((name, rest)),
    decreases name.len(),
{
    let s = escape_string(name) + seq!['"'] + rest;
    if name.len() == 0 {
        assert(escape_string(name) =~= Seq::<char>::empty());
        assert(s =~= seq!['"'] + rest);
        assert(s[0] == '"');
        assert(s.skip(1) =~= rest);
    } else {
        let c = name[0];
        lemma_parse_string_body_inv(name.skip(1), rest);
        let s2 = escape_string(name.skip(1)) + seq!['"'] + rest;
        assert(escape_string(name) == escape_char(c) + escape_string(name.skip(1)));
        if c == '"' {
            assert(s =~= seq!['\\', '"'] + s2);
            assert(s[0] == '\\' && s[1] == '"');
            assert(s.skip(2) =~= s2);
            assert(unescape_char('"') == Some('"'));
            assert(parse_string_body(s) == Some((seq!['"'] + name.skip(1), rest)));
            assert(seq!['"'] + name.skip(1) =~= name);
        } else if c == '\\' {
            assert(s =~= seq!['\\', '\\'] + s2);
            assert(s[0] == '\\' && s[1] == '\\');
            assert(s.skip(2) =~= s2);
            assert(unescape_char('\\') == Some('\\'));
            assert(parse_string_body(s) == Some((seq!['\\'] + name.skip(1), rest)));
            assert(seq!['\\'] + name.skip(1) =~= name);
        } else {
            assert(s =~= seq![c] + s2);
            assert(s[0] == c);
            assert(s.skip(1) =~= s2);
            assert(parse_string_body(s) == Some((seq![c] + name.skip(1), rest)));
            assert(seq![c] + name.skip(1) =~= name);
        }
    }
}

proof fn lemma_parse_number_inv(v: u32, rest: Seq<char>)
    requires
        rest.len() == 0 || !is_digit_char(rest[0]),
    ensures
        parse_number(digits_of(v as nat) + rest) == Some((v, rest)),
{
    let d = digits_of(v as nat);
    lemma_digits_of_shape(v as nat);
    lemma_digits_of_value_round_trip(v as nat);
    lemma_take_digits_exact(d, rest);
    assert((d + rest).skip(d.len() as int) =~= rest);
}

proof fn lemma_parse_profile_inv(p: ProfileV, rest: Seq<char>)
    ensures
        parse_profile(spec_encode_profile(p) + rest) == Some((p, rest)),
{
    let s = spec_encode_profile(p) + rest;
    let n = escape_string(p.name);
    let db = digits_of(p.buffer_size as nat);
    let dr = digits_of(p.sample_rate as nat);
    let t5 = seq!['}'] + rest;
    let t4 = dr + t5;
    let t3 = sr_key() + t4;
    let t2b = db + t3;
    let t2 = bs_key() + t2b;
    assert(s =~= obj_open() + (n + seq!['"'] + t2));
    lemma_parse_literal_inv(obj_open(), n + seq!['"'] + t2);
    lemma_parse_string_body_inv(p.name, t2);
    lemma_parse_literal_inv(bs_key(), t2b);
    assert(t3[0] == ',');
    lemma_parse_number_inv(p.buffer_size, t3);
    lemma_parse_literal_inv(sr_key(), t4);
    assert(t5[0] == '}');
    lemma_parse_number_inv(p.sample_rate, t5);
    lemma_parse_literal_inv(seq!['}'], rest);
}

#[verifier::rlimit(30)]
proof fn lemma_parse_tail_inv(ps: Seq<ProfileV>, rest: Seq<char>)
    ensures
        parse_tail(spec_encode_tail(ps) + rest) == Some((ps, rest)),
    decreases ps.len(),
{
    let s = spec_encode_tail(ps) + rest;
    if ps.len() == 0 {
        assert(s =~= seq![']'] + rest);
        assert(s[0] == ']');
        assert(s.skip(1) =~= rest);
        assert(ps =~= Seq::<ProfileV>::empty());
    } else {
        let s1 = spec_encode_profile(ps[0]) + (spec_encode_tail(ps.skip(1)) + rest);
        assert(s =~= seq![','] + s1);
        assert(s[0] == ',');
        assert(s.skip(1) =~= s1);
        lemma_parse_profile_inv(ps[0], spec_encode_tail(ps.skip(1)) + rest);
        lemma_parse_tail_inv(ps.skip(1), rest);
        assert(seq![ps[0]] + ps.skip(1) =~= ps);
    }
}

/// The text of a profile object opens with its brace.
proof fn lemma_encode_profile_first(p: ProfileV)
    ensures
        spec_encode_profile(p).len() > 0,
        spec_encode_profile(p)[0] == '{',
{
    assert(obj_open()[0] == '{');
    assert(spec_encode_profile(p)[0] == obj_open()[0]);
}

/// Decoding an encoded store yields exactly the store again: persistence
/// loses no profile, no ordering, and no field value.
#[verifier::rlimit(30)]
pub proof fn lemma_profiles_round_trip(ps: Seq<ProfileV>)
    ensures
        spec_decode(spec_encode(ps)) == Some(ps),
{
    let s = spec_encode(ps);
    if ps.len() == 0 {
        assert(s =~= seq!['['] + seq![']']);
        lemma_parse_literal_inv(seq!['['], seq![']']);
        assert(seq![']'][0] == ']');
        assert(seq![']'].skip(1) =~= Seq::<char>::empty());
        assert(ps =~= Seq::<ProfileV>::empty());
    } else {
        let body = spec_encode_profile(ps[0]) + spec_encode_tail(ps.skip(1));
        assert(s =~= seq!['['] + body);
        lemma_parse_literal_inv(seq!['['], body);
        lemma_encode_profile_first(ps[0]);
        assert(body[0] == spec_encode_profile(ps[0])[0]);
        assert(body[0] != ']');
        lemma_parse_tail_inv(ps.skip(1), Seq::<char>::empty());
        assert(spec_encode_tail(ps.skip(1)) + Seq::<char>::empty() =~= spec_encode_tail(
            ps.skip(1),
        ));
        lemma_parse_profile_inv(ps[0], spec_encode_tail(ps.skip(1)));
        assert(seq![ps[0]] + ps.skip(1) =~= ps);
    }
}

/// Consumes the characters of `pat` at position `i`; yields the position
/// after them.
fn expect_lit(v: &Vec<char>, i: usize, pat: &str) -> (r: Option<usize>)
    requires
        i <= v@.len(),
    ensures
        match r {
            Some(j) => {
                &&& parse_literal(v@.skip(i as int), pat@) == Some(v@.skip(j as int))
                &&& i <= j <= v@.len()
            },
            None => parse_literal(v@.skip(i as int), pat@) is None,
        },
{
    let plen = pat.unicode_len();
    let len = v.len();
    if plen > len - i {
        proof {
            assert(!pat@.is_prefix_of(v@.skip(i as int)));
        }
        return None;
    }
    let mut j: usize = 0;
    while j < plen
        invariant
            j <= plen,
            i <= len,
            len == v@.len(),
            plen <= len - i,
            plen == pat@.len(),
            forall|k: int| 0 <= k < j ==> pat@[k] == v@.skip(i as int)[k],
        decreases plen - j,
    {
        let c = v[i + j];
        proof {
            assert(v@.skip(i as int)[j as int] == v@[i + j]);
        }
        if c != pat.get_char(j) {
            proof {
                let sub = v@.skip(i as int).subrange(0, plen as int);
                assert(sub[j as int] == v@.skip(i as int)[j as int]);
                assert(pat@ != sub);
                assert(!pat@.is_prefix_of(v@.skip(i as int)));
            }
            return None;
        }
        j = j + 1;
    }
    proof {
        assert(pat@ =~= v@.skip(i as int).subrange(0, plen as int));
        assert(pat@.is_prefix_of(v@.skip(i as int)));
        assert(v@.skip(i as int).skip(plen as int) =~= v@.skip(i + plen));
    }
    Some(i + plen)
}

/// The character an escape sequence stands for, executably.
fn unescape(c: char) -> (r: Option<char>)
    ensures
        r == unescape_char(c),
{
    if c == '"' {
        Some('"')
    } else if c == '\\' {
        Some('\\')
    } else if c == '/' {
        Some('/')
    } else if c == 'n' {
        Some('\n')
    } else if c == 't' {
        Some('\t')
    } else if c == 'r' {
        Some('\r')
    } else {
        None
    }
}

/// Reads a JSON string starting at `i` (just after the opening quote);
/// yields the unescaped name and the position after the closing quote.
fn parse_string_at(v: &Vec<char>, i: usize) -> (r: Option<(String, usize)>)
    requires
        i <= v@.len(),
    ensures
        match r {
            Some(t) => {
                &&& parse_string_body(v@.skip(i as int)) == Some((t.0@, v@.skip(t.1 as int)))
                &&& i <= t.1 <= v@.len()
            },
            None => parse_string_body(v@.skip(i as int)) is None,
        },
{
    let len = v.len();
    let mut acc = String::new();
    let mut j: usize = i;
    proof {
        assert(acc@ =~= Seq::<char>::empty());
    }
    loop
        invariant
            i <= j <= len,
            len == v@.len(),
            match parse_string_body(v@.skip(j as int)) {
                Some(t) => parse_string_body(v@.skip(i as int)) == Some((acc@ + t.0, t.1)),
                None => parse_string_body(v@.skip(i as int)) is None,
            },
        decreases len - j,
    {
        if j >= len {
            proof {
                assert(v@.skip(j as int) =~= Seq::<char>::empty());
            }
            return None;
        }
        let c = v[j];
        proof {
            assert(v@.skip(j as int)[0] == c);
        }
        if c == '"' {
            proof {
                assert(v@.skip(j as int).skip(1) =~= v@.skip(j + 1));
                assert(acc@ + Seq::<char>::empty() =~= acc@);
            }
            return Some((acc, j + 1));
        } else if c == '\\' {
            if j + 1 >= len {
                proof {
                    assert(v@.skip(j as int).len() < 2);
                }
                return None;
            }
            let e = v[j + 1];
            proof {
                assert(v@.skip(j as int)[1] == e);
            }
            match unescape(e) {
                None => {
                    return None;
                },
                Some(c2) => {
                    proof {
                        assert(v@.skip(j as int).skip(2) =~= v@.skip(j + 2));
                        assert(acc@.push(c2) =~= acc@ + seq![c2]);
                        let t = parse_string_body(v@.skip(j + 2));
                        if t is Some {
                            assert((acc@ + seq![c2]) + (t->0).0 =~= acc@ + (seq![c2] + (t->0).0));
                        }
                    }
                    push_char(&mut acc, c2);
                    j = j + 2;
                },
            }
        } else {
            proof {
                assert(v@.skip(j as int).skip(1) =~= v@.skip(j + 1));
                assert(acc@.push(c) =~= acc@ + seq![c]);
                let t = parse_string_body(v@.skip(j + 1));
                if t is Some {
                    assert((acc@ + seq![c]) + (t->0).0 =~= acc@ + (seq![c] + (t->0).0));
                }
            }
            push_char(&mut acc, c);
            j = j + 1;
        }
    }
}

/// Reads a decimal number starting at `i`; yields the value and the
/// position after its digits.
fn parse_number_at(v: &Vec<char>, i: usize) -> (r: Option<(u32, usize)>)
    requires
        i <= v@.len(),
    ensures
        match r {
            Some(t) => {
                &&& parse_number(v@.skip(i as int)) == Some((t.0, v@.skip(t.1 as int)))
                &&& i <= t.1 <= v@.len()
            },
            None => parse_number(v@.skip(i as int)) is None,
        },
{
    let len = v.len();
    let mut j: usize = i;
    let mut acc: u64 = 0;
    proof {
        assert(v@.subrange(i as int, i as int) =~= Seq::<char>::empty());
    }
    while j < len && is_digit(v[j])
        invariant
            i <= j <= len,
            len == v@.len(),
            all_digits(v@.subrange(i as int, j as int)),
            take_digits(v@.skip(i as int)) == v@.subrange(i as int, j as int) + take_digits(
                v@.skip(j as int),
            ),
            acc == digit_seq_value(v@.subrange(i as int, j as int)),
            acc <= u32::MAX,
        decreases len - j,
    {
        let c = v[j];
        let dv = (c as u32) - ('0' as u32);
        let next = acc * 10 + dv as u64;
        proof {
            lemma_digit_seq_value_push(v@.subrange(i as int, j as int), c);
            assert(v@.subrange(i as int, j as int).push(c) =~= v@.subrange(i as int, j + 1));
            assert(v@.skip(j as int)[0] == c);
            assert(v@.skip(j as int).skip(1) =~= v@.skip(j + 1));
            assert(take_digits(v@.skip(j as int)) == seq![c] + take_digits(v@.skip(j + 1)));
            assert(v@.subrange(i as int, j as int) + (seq![c] + take_digits(v@.skip(j + 1)))
                =~= v@.subrange(i as int, j + 1) + take_digits(v@.skip(j + 1)));
        }
        if next > 0xFFFF_FFFF {
            proof {
                let all = take_digits(v@.skip(i as int));
                assert(all =~= v@.subrange(i as int, j + 1) + take_digits(v@.skip(j + 1)));
                assert(all.take(j + 1 - i) =~= v@.subrange(i as int, j + 1));
                lemma_digit_seq_value_monotone(all, j + 1 - i);
            }
            return None;
        }
        acc = next;
        j = j + 1;
    }
    proof {
        if j == len {
            assert(v@.skip(j as int) =~= Seq::<char>::empty());
        } else {
            assert(v@.skip(j as int)[0] == v@[j as int]);
        }
        assert(take_digits(v@.skip(j as int)) =~= Seq::<char>::empty());
        assert(take_digits(v@.skip(i as int)) =~= v@.subrange(i as int, j as int));
        assert(v@.skip(i as int).skip(j - i) =~= v@.skip(j as int));
    }
    if j == i {
        return None;
    }
    Some((acc as u32, j))
}

/// Reads one profile object starting at `i`.
fn parse_profile_at(v: &Vec<char>, i: usize) -> (r: Option<(LateProfile, usize)>)
    requires
        i <= v@.len(),
    ensures
        match r {
            Some(t) => {
                &&& parse_profile(v@.skip(i as int)) == Some((t.0@, v@.skip(t.1 as int)))
                &&& i <= t.1 <= v@.len()
            },
            None => parse_profile(v@.skip(i as int)) is None,
        },
{
    proof {
        reveal_strlit("{\"name\":\"");
        assert("{\"name\":\""@ =~= obj_open());
        reveal_strlit(",\"buffer_size\":");
        assert(",\"buffer_size\":"@ =~= bs_key());
        reveal_strlit(",\"sample_rate\":");
        assert(",\"sample_rate\":"@ =~= sr_key());
        reveal_strlit("}");
        assert("}"@ =~= seq!['}']);
    }
    let j1 = match expect_lit(v, i, "{\"name\":\"") {
        None => {
            return None;
        },
        Some(j) => j,
    };
    let (name, j2) = match parse_string_at(v, j1) {
        None => {
            return None;
        },
        Some(t) => t,
    };
    let j3 = match expect_lit(v, j2, ",\"buffer_size\":") {
        None => {
            return None;
        },
        Some(j) => j,
    };
    let (bsv, j4) = match parse_number_at(v, j3) {
        None => {
            return None;
        },
        Some(t) => t,
    };
    let j5 = match expect_lit(v, j4, ",\"sample_rate\":") {
        None => {
            return None;
        },
        Some(j) => j,
    };
    let (srv, j6) = match parse_number_at(v, j5) {
        None => {
            return None;
        },
        Some(t) => t,
    };
    let j7 = match expect_lit(v, j6, "}") {
        None => {
            return None;
        },
        Some(j) => j,
    };
    Some((LateProfile { name, buffer_size: bsv, sample_rate: srv }, j7))
}

/// Reads the list body starting at `i` (just after the opening bracket);
/// yields the profiles and the position after the closing bracket.
fn parse_profiles_at(v: &Vec<char>, i: usize) -> (r: Option<(Vec<LateProfile>, usize)>)
    requires
        i <= v@.len(),
    ensures
        match r {
            Some(t) => {
                &&& parse_profiles(v@.skip(i as int)) == Some(
                    (t.0.deep_view(), v@.skip(t.1 as int)),
                )
                &&& i <= t.1 <= v@.len()
            },
            None => parse_profiles(v@.skip(i as int)) is None,
        },
{
    let len = v.len();
    if i < len && v[i] == ']' {
        proof {
            assert(v@.skip(i as int)[0] == ']');
            assert(v@.skip(i as int).skip(1) =~= v@.skip(i + 1));
        }
        let out: Vec<LateProfile> = Vec::new();
        proof {
            assert(out.deep_view() =~= Seq::<ProfileV>::empty());
        }
        return Some((out, i + 1));
    }
    proof {
        if i < len {
            assert(v@.skip(i as int)[0] == v@[i as int]);
        } else {
            assert(v@.skip(i as int) =~= Seq::<char>::empty());
        }
    }
    let (p0, mut j) = match parse_profile_at(v, i) {
        None => {
            return None;
        },
        Some(t) => t,
    };
    let mut out: Vec<LateProfile> = Vec::new();
    let ghost p0v = p0@;
    out.push(p0);
    proof {
        assert(out.deep_view() =~= seq![p0v]);
    }
    loop
        invariant
            i <= j <= len,
            len == v@.len(),
            out.deep_view().len() >= 1,
            match parse_tail(v@.skip(j as int)) {
                Some(t) => parse_profiles(v@.skip(i as int)) == Some(
                    (out.deep_view() + t.0, t.1),
                ),
                None => parse_profiles(v@.skip(i as int)) is None,
            },
        decreases len - j,
    {
        if j >= len {
            proof {
                assert(v@.skip(j as int) =~= Seq::<char>::empty());
            }
            return None;
        }
        let c = v[j];
        proof {
            assert(v@.skip(j as int)[0] == c);
        }
        if c == ']' {
            proof {
                assert(v@.skip(j as int).skip(1) =~= v@.skip(j + 1));
                assert(out.deep_view() + Seq::<ProfileV>::empty() =~= out.deep_view());
            }
            return Some((out, j + 1));
        }
        if c != ',' {
            return None;
        }
        proof {
            assert(v@.skip(j as int).skip(1) =~= v@.skip(j + 1));
        }
        let (p, j2) = match parse_profile_at(v, j + 1) {
            None => {
                return None;
            },
            Some(t) => t,
        };
        proof {
            let pv = p@;
            let t = parse_tail(v@.skip(j2 as int));
            if t is Some {
                assert((out.deep_view().push(pv)) + (t->0).0 =~= out.deep_view() + (seq![pv]
                    + (t->0).0));
            }
            assert(out.deep_view().push(pv) =~= out.deep_view() + seq![pv]);
        }
        let ghost before = out.deep_view();
        let ghost pv = p@;
        out.push(p);
        proof {
            assert(out.deep_view() =~= before.push(pv));
        }
        j = j2;
    }
}

/// Deserializes the durable profile-file text. Well-formed text yields
/// exactly the profiles it encodes; malformed content degrades to the
/// empty collection rather than an error.
pub fn decode_profiles(s: &str) -> (r: Vec<LateProfile>)
    ensures
        r.deep_view() == match spec_decode(s@) {
            Some(ps) => ps,
            None => Seq::<ProfileV>::empty(),
        },
{
    proof {
        reveal_strlit("[");
        assert("["@ =~= seq!['[']);
    }
    let v = to_char_vec(s);
    proof {
        assert(v@.skip(0) =~= v@);
    }
    let empty: Vec<LateProfile> = Vec::new();
    proof {
        assert(empty.deep_view() =~= Seq::<ProfileV>::empty());
    }
    let j0 = match expect_lit(&v, 0, "[") {
        None => {
            return empty;
        },
        Some(j) => j,
    };
    match parse_profiles_at(&v, j0) {
        None => empty,
        Some((out, j)) => {
            if j == v.len() {
                proof {
                    assert(v@.skip(j as int).len() == 0);
                }
                out
            } else {
                empty
            }
        },
    }
}

} // verus!
