//! Study settings other than the fuzzy threshold: global values, per-deck
//! overrides, and the effective settings of a deck.
use vstd::prelude::*;
use crate::types::{Algorithm, MatchingMode, RatingScale};

verus! {

/// Settings that apply to studying a deck.
#[derive(Debug, Clone, Copy, PartialEq, Eq, Structural)]
pub struct StudySettings {
    pub algorithm: Algorithm,
    pub rating_scale: RatingScale,
    pub matching_mode: MatchingMode,
    pub new_cards_per_day: u32,
    pub reviews_per_day: u32,
    pub daily_reset_hour: u32,
}

/// The settings a deck may override; the reset hour is always global.
#[derive(Debug, Clone, Copy, PartialEq, Eq, Structural)]
pub struct DeckOverrides {
    pub algorithm: Option<Algorithm>,
    pub rating_scale: Option<RatingScale>,
    pub matching_mode: Option<MatchingMode>,
    pub new_cards_per_day: Option<u32>,
    pub reviews_per_day: Option<u32>,
}

/// The override if there is one, else the global value.
pub open spec fn pick<T>(o: Option<T>, global: T) -> T {
    match o {
        Some(v) => v,
        None => global,
    }
}

/// The effective settings: each field the deck overrides, the global value
/// otherwise, and the global reset hour in any case.
pub open spec fn merged(global: StudySettings, deck: Option<DeckOverrides>) -> StudySettings {
    match deck {
        Some(d) => StudySettings {
            algorithm: pick(d.algorithm, global.algorithm),
            rating_scale: pick(d.rating_scale, global.rating_scale),
            matching_mode: pick(d.matching_mode, global.matching_mode),
            new_cards_per_day: pick(d.new_cards_per_day, global.new_cards_per_day),
            reviews_per_day: pick(d.reviews_per_day, global.reviews_per_day),
            daily_reset_hour: global.daily_reset_hour,
        },
        None => global,
    }
}

fn pick_exec<T: Copy>(o: Option<T>, global: T) -> (r: T)
    ensures
        r == pick(o, global),
{
    match o {
        Some(v) => v,
        None => global,
    }
}

impl StudySettings {
    /// The settings of a new device: SM-2, four-point scale, fuzzy matching,
    /// 20 new cards and 200 reviews a day, a day that starts at midnight.
    pub fn defaults() -> (r: StudySettings)
        ensures
            r == (StudySettings {
                algorithm: Algorithm::Sm2,
                rating_scale: RatingScale::FourPoint,
                matching_mode: MatchingMode::Fuzzy,
                new_cards_per_day: 20,
                reviews_per_day: 200,
                daily_reset_hour: 0,
            }),
    {
        StudySettings {
            algorithm: Algorithm::Sm2,
            rating_scale: RatingScale::FourPoint,
            matching_mode: MatchingMode::Fuzzy,
            new_cards_per_day: 20,
            reviews_per_day: 200,
            daily_reset_hour: 0,
        }
    }

    /// The effective settings of a deck with the given overrides, if any.
    pub fn merge(global: &StudySettings, deck: Option<DeckOverrides>) -> (r: StudySettings)
        ensures
            r == merged(*global, deck),
    {
        match deck {
            Some(d) => StudySettings {
                algorithm: pick_exec(d.algorithm, global.algorithm),
                rating_scale: pick_exec(d.rating_scale, global.rating_scale),
                matching_mode: pick_exec(d.matching_mode, global.matching_mode),
                new_cards_per_day: pick_exec(d.new_cards_per_day, global.new_cards_per_day),
                reviews_per_day: pick_exec(d.reviews_per_day, global.reviews_per_day),
                daily_reset_hour: global.daily_reset_hour,
            },
            None => *global,
        }
    }
}

impl DeckOverrides {
    /// A deck that overrides nothing.
    pub fn none() -> (r: DeckOverrides)
        ensures
            r.algorithm is None && r.rating_scale is None && r.matching_mode is None
                && r.new_cards_per_day is None && r.reviews_per_day is None,
    {
        DeckOverrides {
            algorithm: None,
            rating_scale: None,
            matching_mode: None,
            new_cards_per_day: None,
            reviews_per_day: None,
        }
    }
}

/// No deck changes the reset hour, and a deck that overrides nothing has the
/// global settings.
pub proof fn lemma_merge_keeps_global_reset(global: StudySettings, deck: Option<DeckOverrides>)
    ensures
        merged(global, deck).daily_reset_hour == global.daily_reset_hour,
        deck matches Some(d) && d.algorithm is None && d.rating_scale is None
            && d.matching_mode is None && d.new_cards_per_day is None && d.reviews_per_day is None
            ==> merged(global, deck) == global,
{
}

} // verus!
