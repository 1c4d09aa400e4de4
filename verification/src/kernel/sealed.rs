//! Seals the set of game states: only the engine's own phase types can
//! implement [`crate::kernel::State`].

use vstd::prelude::*;

verus! {

/// Implemented exactly by the engine's phase types.
pub trait SealedState {

}

impl SealedState for crate::kernel::place_tile::PlacingTile {

}

impl SealedState for crate::kernel::buy_stock::BuyingStock {

}

impl SealedState for crate::kernel::resolve_merge::MaybeResolvingMerge {

}

impl SealedState for crate::kernel::resolve_merge::ResolvingMerge {

}

impl SealedState for crate::kernel::ambiguous::Ambiguous {

}

impl SealedState for crate::messages::GameOver {

}

/// Implemented exactly by the engine's merge-resolution outcomes.
pub trait SealedResolution {

}

impl SealedResolution for crate::kernel::resolve_merge::ContinueMerging {

}

impl SealedResolution for crate::kernel::resolve_merge::DoneMerging {

}

} // verus!
