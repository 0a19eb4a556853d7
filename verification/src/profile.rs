//! The profile store: named pairs of buffer size and sample rate.
//!
//! A profile records a name the user chose together with the two raw device
//! values. Serialization is meant for profiles a user may create, e.g. a
//! recording profile (with low latency) and a mixing / everyday profile
//! (with moderate latency allowing for larger buffer sizes).
//!
//! The store is an ordered sequence, not a map: nothing enforces that names
//! are unique, and every lookup returns the first match in insertion order.

use vstd::prelude::*;
use crate::strings::str_eq;

verus! {

/// The mathematical content of a stored profile.
pub ghost struct ProfileV {
    pub name: Seq<char>,
    pub buffer_size: u32,
    pub sample_rate: u32,
}

/// A named combination of the two live device parameters. For either field
/// `0` is the reserved "reset to device default" sentinel.
#[derive(Debug, PartialEq, Eq)]
pub struct LateProfile {
    /// the name under which to store the profile
    pub name: String,
    /// the buffer size
    pub buffer_size: u32,
    /// the sample rate
    pub sample_rate: u32,
}

impl View for LateProfile {
    type V = ProfileV;

    open spec fn view(&self) -> ProfileV {
        ProfileV { name: self.name@, buffer_size: self.buffer_size, sample_rate: self.sample_rate }
    }
}

impl DeepView for LateProfile {
    type V = ProfileV;

    open spec fn deep_view(&self) -> ProfileV {
        self.view()
    }
}

impl LateProfile {
    /// An equal copy of the profile.
    pub fn duplicate(&self) -> (r: LateProfile)
        ensures
            r@ == self@,
    {
        LateProfile {
            name: self.name.clone(),
            buffer_size: self.buffer_size,
            sample_rate: self.sample_rate,
        }
    }
}

/// The first profile whose name is `name`, in insertion order.
pub open spec fn spec_find_by_name(ps: Seq<ProfileV>, name: Seq<char>) -> Option<ProfileV>
    decreases ps.len(),
{
    if ps.len() == 0 {
        None
    } else if ps[0].name == name {
        Some(ps[0])
    } else {
        spec_find_by_name(ps.skip(1), name)
    }
}

/// The first profile whose value pair is exactly `(buffer_size,
/// sample_rate)`, in insertion order.
pub open spec fn spec_find_by_values(ps: Seq<ProfileV>, buffer_size: u32, sample_rate: u32) -> Option<
    ProfileV,
>
    decreases ps.len(),
{
    if ps.len() == 0 {
        None
    } else if ps[0].buffer_size == buffer_size && ps[0].sample_rate == sample_rate {
        Some(ps[0])
    } else {
        spec_find_by_values(ps.skip(1), buffer_size, sample_rate)
    }
}

/// The store with the first profile named `name` taken out; the store
/// unchanged when no profile has that name.
pub open spec fn spec_remove_first(ps: Seq<ProfileV>, name: Seq<char>) -> Seq<ProfileV>
    decreases ps.len(),
{
    if ps.len() == 0 {
        ps
    } else if ps[0].name == name {
        ps.skip(1)
    } else {
        seq![ps[0]] + spec_remove_first(ps.skip(1), name)
    }
}

/// The names of the stored profiles, in insertion order.
pub open spec fn spec_profile_names(ps: Seq<ProfileV>) -> Seq<Seq<char>> {
    ps.map_values(|p: ProfileV| p.name)
}

/// The names of all stored profiles, in insertion order (duplicates kept).
pub fn get_profile_names(profiles: &Vec<LateProfile>) -> (r: Vec<String>)
    ensures
        r.deep_view() == spec_profile_names(profiles.deep_view()),
{
    let mut names: Vec<String> = Vec::new();
    let mut i: usize = 0;
    while i < profiles.len()
        invariant
            i <= profiles@.len(),
            names@.len() == i,
            forall|j: int| 0 <= j < i ==> #[trigger] names@[j]@ == profiles@[j]@.name,
        decreases profiles@.len() - i,
    {
        names.push(profiles[i].name.clone());
        i = i + 1;
    }
    proof {
        assert(names.deep_view() =~= spec_profile_names(profiles.deep_view()));
    }
    names
}

/// Looks a profile up by name: a copy of the first match, in insertion
/// order, or `None` when no profile has that name.
pub fn choose_profile(profiles: &Vec<LateProfile>, name: &str) -> (r: Option<LateProfile>)
    ensures
        match spec_find_by_name(profiles.deep_view(), name@) {
            Some(p) => r is Some && r->0@ == p,
            None => r is None,
        },
{
    let ghost all = profiles.deep_view();
    let mut i: usize = 0;
    proof {
        assert(all.skip(0) =~= all);
    }
    while i < profiles.len()
        invariant
            i <= profiles@.len(),
            all == profiles.deep_view(),
            spec_find_by_name(all, name@) == spec_find_by_name(all.skip(i as int), name@),
        decreases profiles@.len() - i,
    {
        proof {
            assert(all.skip(i as int)[0] == all[i as int]);
            assert(all.skip(i as int).skip(1) =~= all.skip(i + 1));
        }
        if str_eq(profiles[i].name.as_str(), name) {
            return Some(profiles[i].duplicate());
        }
        i = i + 1;
    }
    proof {
        assert(all.skip(i as int) =~= Seq::<ProfileV>::empty());
    }
    None
}

/// Looks a profile up by its exact value pair: a copy of the first match,
/// in insertion order, or `None` when no stored pair equals the given one.
pub fn find_by_values(profiles: &Vec<LateProfile>, buffer_size: u32, sample_rate: u32) -> (r:
    Option<LateProfile>)
    ensures
        match spec_find_by_values(profiles.deep_view(), buffer_size, sample_rate) {
            Some(p) => r is Some && r->0@ == p,
            None => r is None,
        },
{
    let ghost all = profiles.deep_view();
    let mut i: usize = 0;
    proof {
        assert(all.skip(0) =~= all);
    }
    while i < profiles.len()
        invariant
            i <= profiles@.len(),
            all == profiles.deep_view(),
            spec_find_by_values(all, buffer_size, sample_rate) == spec_find_by_values(
                all.skip(i as int),
                buffer_size,
                sample_rate,
            ),
        decreases profiles@.len() - i,
    {
        proof {
            assert(all.skip(i as int)[0] == all[i as int]);
            assert(all.skip(i as int).skip(1) =~= all.skip(i + 1));
        }
        if profiles[i].buffer_size == buffer_size && profiles[i].sample_rate == sample_rate {
            return Some(profiles[i].duplicate());
        }
        i = i + 1;
    }
    proof {
        assert(all.skip(i as int) =~= Seq::<ProfileV>::empty());
    }
    None
}

/// Takes the first profile named `name` out of the store; reports whether
/// a removal occurred. A missing name is a no-op, not an error.
pub fn remove_profile(profiles: &mut Vec<LateProfile>, name: &str) -> (removed: bool)
    ensures
        final(profiles).deep_view() == spec_remove_first(old(profiles).deep_view(), name@),
        removed == (spec_find_by_name(old(profiles).deep_view(), name@) is Some),
{
    let ghost all = profiles.deep_view();
    let mut i: usize = 0;
    proof {
        assert(all.skip(0) =~= all);
    }
    while i < profiles.len()
        invariant
            i <= profiles@.len(),
            all == profiles.deep_view(),
            all == old(profiles).deep_view(),
            spec_find_by_name(all, name@) == spec_find_by_name(all.skip(i as int), name@),
            spec_remove_first(all, name@) == all.take(i as int) + spec_remove_first(
                all.skip(i as int),
                name@,
            ),
        decreases profiles@.len() - i,
    {
        proof {
            assert(all.skip(i as int)[0] == all[i as int]);
            assert(all.skip(i as int).skip(1) =~= all.skip(i + 1));
        }
        if str_eq(profiles[i].name.as_str(), name) {
            profiles.remove(i);
            proof {
                assert(profiles.deep_view() =~= all.take(i as int) + all.skip(i + 1));
            }
            return true;
        }
        proof {
            assert(all.take(i as int) + (seq![all[i as int]] + spec_remove_first(
                all.skip(i + 1),
                name@,
            )) =~= all.take(i + 1) + spec_remove_first(all.skip(i + 1), name@));
        }
        i = i + 1;
    }
    proof {
        assert(all.skip(i as int) =~= Seq::<ProfileV>::empty());
        assert(all.take(i as int) + spec_remove_first(all.skip(i as int), name@) =~= all);
        assert(profiles.deep_view() =~= all);
    }
    false
}

/// Appends a profile to the store; no uniqueness check, the caller must
/// persist afterward.
pub fn add_profile(profiles: &mut Vec<LateProfile>, profile: LateProfile)
    ensures
        final(profiles).deep_view() == old(profiles).deep_view().push(profile@),
{
    let ghost all = profiles.deep_view();
    let ghost pv = profile@;
    profiles.push(profile);
    proof {
        assert(profiles.deep_view() =~= all.push(pv));
    }
}

/// The name of the first stored profile whose value pair equals the live
/// snapshot, substituting the reset value `0` for a component that could
/// not be determined.
pub fn get_current_if_any(
    profiles: &Vec<LateProfile>,
    sample_rate: Option<u32>,
    buffer_size: Option<u32>,
) -> (r: Option<String>)
    ensures
        match spec_find_by_values(
            profiles.deep_view(),
            buffer_size.unwrap_or(0),
            sample_rate.unwrap_or(0),
        ) {
            Some(p) => r is Some && r->0@ == p.name,
            None => r is None,
        },
{
    let s = sample_rate.unwrap_or(0);
    let b = buffer_size.unwrap_or(0);
    match find_by_values(profiles, b, s) {
        // if there are multiple profiles with the same values, we return the
        // first one; there is no way to know which one the user wanted.
        Some(profile) => Some(profile.name),
        None => None,
    }
}

} // verus!
