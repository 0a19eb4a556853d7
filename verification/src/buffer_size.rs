//! Buffer-size handling: the supported quantization values and the
//! conversion between a raw value and its display string.
//!
//! A buffer size is displayed as `"<value> (<latency>ms)"` where the latency
//! in milliseconds is `value * 1000 / sample_rate`, rounded to hundredths;
//! when no non-zero sample rate is at hand no latency can be computed and the
//! display is the bare `"<value>"`. The value `0` is a reserved sentinel that
//! asks the device to reset to its default.

use vstd::prelude::*;
use crate::errors::FormatError;
use crate::numerals::{
    all_digits, digit_char, digits_of, is_digit_char, leading_u32, lemma_digits_of_shape,
    lemma_digits_of_value_round_trip, lemma_take_digits_exact, parse_leading_u32, take_digits,
    u64_to_string,
};
use crate::strings::push_char;

verus! {

/// The buffer sizes the device accepts, smallest first; `0` requests a
/// reset to the device default.
pub open spec fn spec_available_buffer_sizes() -> Seq<u32> {
    seq![0u32, 64u32, 128u32, 256u32, 512u32, 1024u32, 2048u32]
}

/// The latency of `size` frames at `rate` Hz, in hundredths of a
/// millisecond, rounded to nearest.
pub open spec fn latency_hundredths(size: u32, rate: u32) -> nat
    recommends
        rate > 0,
{
    (((size as nat) * 100000 + (rate as nat) / 2) / (rate as nat)) as nat
}

/// The latency clause `" (<latency>ms)"` for a latency of `h` hundredths
/// of a millisecond, printed with two decimal places.
pub open spec fn spec_latency_clause(h: nat) -> Seq<char> {
    seq![' ', '('] + digits_of(h / 100) + seq![
        '.',
        digit_char((h % 100) / 10),
        digit_char(h % 10),
        'm',
        's',
        ')',
    ]
}

/// The display string of buffer size `size`: its decimal numeral, followed
/// by the latency clause when a non-zero sample rate is at hand.
pub open spec fn spec_format_buffer_size(size: u32, sample_rate: Option<u32>) -> Seq<char> {
    match sample_rate {
        Some(rate) => if rate > 0 {
            digits_of(size as nat) + spec_latency_clause(latency_hundredths(size, rate))
        } else {
            digits_of(size as nat)
        },
        None => digits_of(size as nat),
    }
}

/// The buffer sizes offered to the user; `0` acts as a reset.
pub fn get_available_buffer_sizes() -> (r: Vec<u32>)
    ensures
        r@ == spec_available_buffer_sizes(),
{
    let r: Vec<u32> = vec![0, 64, 128, 256, 512, 1024, 2048];
    proof {
        assert(r@ =~= spec_available_buffer_sizes());
    }
    r
}

/// Renders a buffer size for display, annotating it with the latency it
/// yields at the given sample rate when one is known and non-zero.
pub fn get_buffer_size_string(size: u32, sample_rate: Option<u32>) -> (r: String)
    ensures
        r@ == spec_format_buffer_size(size, sample_rate),
{
    let mut out = u64_to_string(size as u64);
    if let Some(rate) = sample_rate {
        if rate > 0 {
            let h: u64 = ((size as u64) * 100000 + (rate as u64) / 2) / (rate as u64);
            let whole = u64_to_string(h / 100);
            out.append(" (");
            out.append(whole.as_str());
            push_char(&mut out, '.');
            push_char(&mut out, crate::numerals::digit_to_char(((h % 100) / 10) as u8));
            push_char(&mut out, crate::numerals::digit_to_char((h % 10) as u8));
            out.append("ms)");
            proof {
                reveal_strlit(" (");
                reveal_strlit("ms)");
                assert(h as nat == latency_hundredths(size, rate));
                assert(out@ =~= spec_format_buffer_size(size, sample_rate));
            }
        }
    }
    out
}

/// Reads the buffer size back out of a display string: the leading numeric
/// token, whatever annotation follows it.
pub fn get_buffer_size_value(buffer_size_with_info: &str) -> (r: Result<u32, FormatError>)
    ensures
        match r {
            Ok(v) => leading_u32(buffer_size_with_info@) == Some(v),
            Err(_) => leading_u32(buffer_size_with_info@) is None,
        },
{
    parse_leading_u32(buffer_size_with_info)
}

/// Every supported buffer size, rendered for display at the given sample
/// rate.
pub fn get_available_buffer_sizes_with_latency(sample_rate: Option<u32>) -> (r: Vec<String>)
    ensures
        r@.len() == spec_available_buffer_sizes().len(),
        forall|i: int|
            0 <= i < r@.len() ==> #[trigger] r@[i]@ == spec_format_buffer_size(
                spec_available_buffer_sizes()[i],
                sample_rate,
            ),
{
    let sizes = get_available_buffer_sizes();
    let mut sizes_latency: Vec<String> = Vec::new();
    let mut i: usize = 0;
    while i < sizes.len()
        invariant
            i <= sizes@.len(),
            sizes@ == spec_available_buffer_sizes(),
            sizes_latency@.len() == i,
            forall|j: int|
                0 <= j < i ==> #[trigger] sizes_latency@[j]@ == spec_format_buffer_size(
                    spec_available_buffer_sizes()[j],
                    sample_rate,
                ),
        decreases sizes@.len() - i,
    {
        sizes_latency.push(get_buffer_size_string(sizes[i], sample_rate));
        i = i + 1;
    }
    sizes_latency
}

/// Renders a freshly queried buffer size for display; an unknown live value
/// stays unknown.
pub fn get_current_buffer_size_with_latency(current: Option<u32>, sample_rate: Option<u32>) -> (r:
    Option<String>)
    ensures
        match current {
            Some(v) => r is Some && r->0@ == spec_format_buffer_size(v, sample_rate),
            None => r is None,
        },
{
    match current {
        Some(s) => Some(get_buffer_size_string(s, sample_rate)),
        None => None,
    }
}

/// Validates a display string that (possibly) carries a latency clause and
/// yields the raw buffer size for the caller to apply to the device.
/// (This will not set the buffer size to achieve a certain latency!)
pub fn set_buffer_size_with_latency(size: &str) -> (r: Result<u32, FormatError>)
    ensures
        match r {
            Ok(v) => leading_u32(size@) == Some(v),
            Err(_) => leading_u32(size@) is None,
        },
{
    get_buffer_size_value(size)
}

/// The display string of a buffer size always reads back as the value it
/// was rendered from, whatever sample rate annotated it.
pub proof fn lemma_buffer_size_round_trip(size: u32, sample_rate: Option<u32>)
    ensures
        leading_u32(spec_format_buffer_size(size, sample_rate)) == Some(size),
{
    let ds = digits_of(size as nat);
    lemma_digits_of_shape(size as nat);
    lemma_digits_of_value_round_trip(size as nat);
    match sample_rate {
        Some(rate) => {
            if rate > 0 {
                let clause = spec_latency_clause(latency_hundredths(size, rate));
                assert(clause[0] == ' ');
                assert(!is_digit_char(' '));
                lemma_take_digits_exact(ds, clause);
            } else {
                lemma_take_digits_exact(ds, Seq::<char>::empty());
                assert(ds + Seq::<char>::empty() =~= ds);
            }
        },
        None => {
            lemma_take_digits_exact(ds, Seq::<char>::empty());
            assert(ds + Seq::<char>::empty() =~= ds);
        },
    }
}

} // verus!
