//! Sample-rate handling: the supported rates and the conversion between a
//! raw value in Hz and its display string.
//!
//! A sample rate is displayed with its unit, e.g. `"48000 Hz"`; the stored
//! value stays a `u32`, which makes manually editing the profile file a lot
//! less error prone. The value `0` is a reserved sentinel that asks the
//! device to reset to its default.

use vstd::prelude::*;
use crate::errors::FormatError;
use crate::numerals::{
    digits_of, is_digit_char, leading_u32, lemma_digits_of_shape, lemma_digits_of_value_round_trip,
    lemma_take_digits_exact, parse_leading_u32, u64_to_string,
};

verus! {

/// The sample rates the device accepts, in Hz, smallest first; `0`
/// requests a reset to the device default.
pub open spec fn spec_available_sample_rates() -> Seq<u32> {
    seq![0u32, 22050u32, 24000u32, 44100u32, 48000u32, 88200u32, 96000u32]
}

/// The display string of sample rate `rate`: its decimal numeral with the
/// unit suffix.
pub open spec fn spec_format_sample_rate(rate: u32) -> Seq<char> {
    digits_of(rate as nat) + seq![' ', 'H', 'z']
}

/// The sample rates offered to the user; `0` acts as a reset.
pub fn get_available_sample_rates() -> (r: Vec<u32>)
    ensures
        r@ == spec_available_sample_rates(),
{
    let r: Vec<u32> = vec![0, 22050, 24000, 44100, 48000, 88200, 96000];
    proof {
        assert(r@ =~= spec_available_sample_rates());
    }
    r
}

/// Renders a sample rate for display, with its unit.
pub fn get_sample_rate_string(rate: u32) -> (r: String)
    ensures
        r@ == spec_format_sample_rate(rate),
{
    let mut out = u64_to_string(rate as u64);
    out.append(" Hz");
    proof {
        reveal_strlit(" Hz");
        assert(out@ =~= spec_format_sample_rate(rate));
    }
    out
}

/// Reads the sample rate back out of a display string: the leading numeric
/// token before the unit suffix.
pub fn get_sample_rate_value(rate_with_unit: &str) -> (r: Result<u32, FormatError>)
    ensures
        match r {
            Ok(v) => leading_u32(rate_with_unit@) == Some(v),
            Err(_) => leading_u32(rate_with_unit@) is None,
        },
{
    parse_leading_u32(rate_with_unit)
}

/// Every supported sample rate, rendered for display.
pub fn get_sample_rates_with_units() -> (r: Vec<String>)
    ensures
        r@.len() == spec_available_sample_rates().len(),
        forall|i: int|
            0 <= i < r@.len() ==> #[trigger] r@[i]@ == spec_format_sample_rate(
                spec_available_sample_rates()[i],
            ),
{
    let rates = get_available_sample_rates();
    let mut rates_units: Vec<String> = Vec::new();
    let mut i: usize = 0;
    while i < rates.len()
        invariant
            i <= rates@.len(),
            rates@ == spec_available_sample_rates(),
            rates_units@.len() == i,
            forall|j: int|
                0 <= j < i ==> #[trigger] rates_units@[j]@ == spec_format_sample_rate(
                    spec_available_sample_rates()[j],
                ),
        decreases rates@.len() - i,
    {
        rates_units.push(get_sample_rate_string(rates[i]));
        i = i + 1;
    }
    rates_units
}

/// Renders a freshly queried sample rate for display; an unknown live value
/// stays unknown.
pub fn get_current_sample_rate_with_units(current: Option<u32>) -> (r: Option<String>)
    ensures
        match current {
            Some(v) => r is Some && r->0@ == spec_format_sample_rate(v),
            None => r is None,
        },
{
    match current {
        Some(rate) => Some(get_sample_rate_string(rate)),
        None => None,
    }
}

/// Validates a display string that carries the unit suffix and yields the
/// raw sample rate for the caller to apply to the device.
pub fn set_sample_rate_with_units(rate: &str) -> (r: Result<u32, FormatError>)
    ensures
        match r {
            Ok(v) => leading_u32(rate@) == Some(v),
            Err(_) => leading_u32(rate@) is None,
        },
{
    get_sample_rate_value(rate)
}

/// The display string of a sample rate always reads back as the value it
/// was rendered from.
pub proof fn lemma_sample_rate_round_trip(rate: u32)
    ensures
        leading_u32(spec_format_sample_rate(rate)) == Some(rate),
{
    let ds = digits_of(rate as nat);
    lemma_digits_of_shape(rate as nat);
    lemma_digits_of_value_round_trip(rate as nat);
    assert(!is_digit_char(' '));
    lemma_take_digits_exact(ds, seq![' ', 'H', 'z']);
}

} // verus!
