//! The synchronization engine: the state machine that keeps the
//! active-profile indicator consistent with the profile store and the last
//! known live device values.
//!
//! The engine decides; it performs no I/O itself. Every transition yields
//! the actions the surrounding program must carry out — applying a
//! parameter to the device, persisting the store — and the caller hands
//! the next user event back in.

use vstd::prelude::*;
use vstd::pervasive::unreached;
use crate::profile::{
    add_profile, choose_profile, get_current_if_any, remove_profile, spec_find_by_name,
    spec_find_by_values, spec_remove_first, LateProfile, ProfileV,
};

verus! {

/// The "active profile" indicator shown to the user.
#[derive(Debug, Clone, PartialEq, Eq)]
pub enum ActiveProfile {
    /// No stored profile is known to match the live state.
    Unset,
    /// The named profile was last matched or selected.
    Named(String),
}

/// The mathematical content of the indicator.
pub ghost enum IndicatorV {
    Unset,
    Named(Seq<char>),
}

impl View for ActiveProfile {
    type V = IndicatorV;

    open spec fn view(&self) -> IndicatorV {
        match self {
            ActiveProfile::Unset => IndicatorV::Unset,
            ActiveProfile::Named(name) => IndicatorV::Named(name@),
        }
    }
}

/// A user interaction the engine reacts to.
#[derive(Debug, Clone)]
pub enum UiEvent {
    /// Recall a stored profile by name; the empty name clears the
    /// indicator instead.
    SelectProfile(String),
    /// An ad hoc edit of the buffer size, outside any named profile.
    ChangeBufferSize(u32),
    /// An ad hoc edit of the sample rate, outside any named profile.
    ChangeSampleRate(u32),
    /// Store the current values under a new name and make it active.
    SaveAsProfile(String),
    /// Delete the profile the indicator names.
    DeleteActive,
}

/// The mathematical content of a user interaction.
pub ghost enum EventV {
    SelectProfile(Seq<char>),
    ChangeBufferSize(u32),
    ChangeSampleRate(u32),
    SaveAsProfile(Seq<char>),
    DeleteActive,
}

impl View for UiEvent {
    type V = EventV;

    open spec fn view(&self) -> EventV {
        match self {
            UiEvent::SelectProfile(name) => EventV::SelectProfile(name@),
            UiEvent::ChangeBufferSize(v) => EventV::ChangeBufferSize(*v),
            UiEvent::ChangeSampleRate(v) => EventV::ChangeSampleRate(*v),
            UiEvent::SaveAsProfile(name) => EventV::SaveAsProfile(name@),
            UiEvent::DeleteActive => EventV::DeleteActive,
        }
    }
}

/// What the surrounding program must do after a transition, in order.
#[derive(Debug, Clone, Copy, PartialEq, Eq, Structural)]
pub enum EngineAction {
    /// Request the device adopt this buffer size (`0`: reset).
    ApplyBufferSize(u32),
    /// Request the device adopt this sample rate (`0`: reset).
    ApplySampleRate(u32),
    /// Write the whole profile store to durable storage.
    PersistProfiles,
}

/// The mathematical content of the engine state.
pub ghost struct EngineV {
    pub profiles: Seq<ProfileV>,
    pub buffer_size: Option<u32>,
    pub sample_rate: Option<u32>,
    pub active: IndicatorV,
}

/// The engine state: the store, the last known live values (`None`: never
/// determined), and the indicator.
pub struct SyncEngine {
    pub profiles: Vec<LateProfile>,
    pub buffer_size: Option<u32>,
    pub sample_rate: Option<u32>,
    pub active: ActiveProfile,
}

impl View for SyncEngine {
    type V = EngineV;

    open spec fn view(&self) -> EngineV {
        EngineV {
            profiles: self.profiles.deep_view(),
            buffer_size: self.buffer_size,
            sample_rate: self.sample_rate,
            active: self.active@,
        }
    }
}

/// A live snapshot component, with `0` substituted for "unknown" when
/// matching against stored values.
pub open spec fn or_reset(v: Option<u32>) -> u32 {
    match v {
        Some(x) => x,
        None => 0,
    }
}

/// What seeds the indicator at startup: the first stored profile whose
/// values equal the live snapshot, unknown components read as `0`.
pub open spec fn spec_startup_indicator(
    ps: Seq<ProfileV>,
    buffer_size: Option<u32>,
    sample_rate: Option<u32>,
) -> IndicatorV {
    match spec_find_by_values(ps, or_reset(buffer_size), or_reset(sample_rate)) {
        Some(p) => IndicatorV::Named(p.name),
        None => IndicatorV::Unset,
    }
}

/// The `SelectProfile` transition. A found name applies both stored values
/// and becomes active; the empty name, when not itself stored, clears the
/// indicator; a non-empty unknown name changes nothing.
pub open spec fn spec_select(st: EngineV, name: Seq<char>) -> (EngineV, Seq<EngineAction>) {
    match spec_find_by_name(st.profiles, name) {
        Some(p) => (
            EngineV {
                buffer_size: Some(p.buffer_size),
                sample_rate: Some(p.sample_rate),
                active: IndicatorV::Named(name),
                ..st
            },
            seq![
                EngineAction::ApplySampleRate(p.sample_rate),
                EngineAction::ApplyBufferSize(p.buffer_size),
            ],
        ),
        None => if name.len() == 0 {
            (EngineV { active: IndicatorV::Unset, ..st }, Seq::empty())
        } else {
            (st, Seq::empty())
        },
    }
}

/// The whole transition relation of the engine.
pub open spec fn spec_update(st: EngineV, ev: EventV) -> (EngineV, Seq<EngineAction>) {
    match ev {
        EventV::SelectProfile(name) => spec_select(st, name),
        EventV::ChangeBufferSize(v) => (
            EngineV { buffer_size: Some(v), ..st },
            seq![EngineAction::ApplyBufferSize(v)],
        ),
        EventV::ChangeSampleRate(v) => (
            EngineV { sample_rate: Some(v), ..st },
            seq![EngineAction::ApplySampleRate(v)],
        ),
        EventV::SaveAsProfile(name) => {
            let p = ProfileV {
                name: name,
                buffer_size: or_reset(st.buffer_size),
                sample_rate: or_reset(st.sample_rate),
            };
            let st1 = EngineV { profiles: st.profiles.push(p), ..st };
            let r = spec_select(st1, name);
            (r.0, seq![EngineAction::PersistProfiles] + r.1)
        },
        EventV::DeleteActive => match st.active {
            IndicatorV::Named(name) => {
                let st1 = EngineV { profiles: spec_remove_first(st.profiles, name), ..st };
                let r = spec_select(st1, Seq::empty());
                (r.0, seq![EngineAction::PersistProfiles] + r.1)
            },
            IndicatorV::Unset => (st, Seq::empty()),
        },
    }
}

impl SyncEngine {
    /// Builds the engine from the loaded store and a live snapshot; the
    /// indicator is seeded by matching the snapshot against the store.
    pub fn startup(
        profiles: Vec<LateProfile>,
        buffer_size: Option<u32>,
        sample_rate: Option<u32>,
    ) -> (engine: SyncEngine)
        ensures
            engine@.profiles == profiles.deep_view(),
            engine@.buffer_size == buffer_size,
            engine@.sample_rate == sample_rate,
            engine@.active == spec_startup_indicator(
                profiles.deep_view(),
                buffer_size,
                sample_rate,
            ),
    {
        let active = match get_current_if_any(&profiles, sample_rate, buffer_size) {
            Some(name) => ActiveProfile::Named(name),
            None => ActiveProfile::Unset,
        };
        SyncEngine { profiles, buffer_size, sample_rate, active }
    }

    /// The `SelectProfile` transition, executably.
    fn do_select(&mut self, name: String) -> (acts: Vec<EngineAction>)
        ensures
            final(self)@ == spec_select(old(self)@, name@).0,
            acts@ == spec_select(old(self)@, name@).1,
    {
        match choose_profile(&self.profiles, name.as_str()) {
            Some(p) => {
                self.sample_rate = Some(p.sample_rate);
                self.buffer_size = Some(p.buffer_size);
                self.active = ActiveProfile::Named(name);
                let mut acts: Vec<EngineAction> = Vec::new();
                acts.push(EngineAction::ApplySampleRate(p.sample_rate));
                acts.push(EngineAction::ApplyBufferSize(p.buffer_size));
                proof {
                    assert(acts@ =~= spec_select(old(self)@, name@).1);
                }
                acts
            },
            None => {
                if name.as_str().unicode_len() == 0 {
                    self.active = ActiveProfile::Unset;
                }
                let acts: Vec<EngineAction> = Vec::new();
                proof {
                    assert(acts@ =~= spec_select(old(self)@, name@).1);
                }
                acts
            },
        }
    }

    /// Reacts to one user event: moves to the next state and yields the
    /// actions the caller must perform, in order. Deleting requires an
    /// active named profile — there is no well-defined name to delete
    /// otherwise.
    pub fn update(&mut self, event: UiEvent) -> (acts: Vec<EngineAction>)
        requires
            event is DeleteActive ==> old(self)@.active is Named,
        ensures
            final(self)@ == spec_update(old(self)@, event@).0,
            acts@ == spec_update(old(self)@, event@).1,
    {
        match event {
            UiEvent::SelectProfile(name) => self.do_select(name),
            UiEvent::ChangeBufferSize(v) => {
                self.buffer_size = Some(v);
                let mut acts: Vec<EngineAction> = Vec::new();
                acts.push(EngineAction::ApplyBufferSize(v));
                proof {
                    assert(acts@ =~= seq![EngineAction::ApplyBufferSize(v)]);
                }
                acts
            },
            UiEvent::ChangeSampleRate(v) => {
                self.sample_rate = Some(v);
                let mut acts: Vec<EngineAction> = Vec::new();
                acts.push(EngineAction::ApplySampleRate(v));
                proof {
                    assert(acts@ =~= seq![EngineAction::ApplySampleRate(v)]);
                }
                acts
            },
            UiEvent::SaveAsProfile(name) => {
                let new_profile = LateProfile {
                    name: name.clone(),
                    buffer_size: self.buffer_size.unwrap_or(0),
                    sample_rate: self.sample_rate.unwrap_or(0),
                };
                add_profile(&mut self.profiles, new_profile);
                let mut acts: Vec<EngineAction> = Vec::new();
                acts.push(EngineAction::PersistProfiles);
                let mut more = self.do_select(name);
                acts.append(&mut more);
                proof {
                    assert(acts@ =~= spec_update(old(self)@, EventV::SaveAsProfile(name@)).1);
                }
                acts
            },
            UiEvent::DeleteActive => {
                let name = match &self.active {
                    ActiveProfile::Named(n) => n.clone(),
                    ActiveProfile::Unset => unreached(),
                };
                remove_profile(&mut self.profiles, name.as_str());
                let mut acts: Vec<EngineAction> = Vec::new();
                acts.push(EngineAction::PersistProfiles);
                let mut more = self.do_select(String::new());
                acts.append(&mut more);
                proof {
                    assert(acts@ =~= spec_update(old(self)@, EventV::DeleteActive).1);
                }
                acts
            },
        }
    }
}

} // verus!
