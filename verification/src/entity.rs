//! The kinds of creatures and objects in the aquarium, and the data that
//! death callbacks and entity kinds carry.
use vstd::prelude::*;

verus! {

pub type EntityId = u64;

#[derive(Clone, Copy, Debug, PartialEq, Eq, Hash, Structural)]
pub enum EntityType {
    Fish,
    Shark,
    Teeth,
    Bubble,
    Waterline,
    Seaweed,
    Castle,
    Ship,
    Whale,
    Monster,
    BigFish,
    Splat,
    Hook,
    RandomObject,
    Duck,
    Dolphin,
    Submarine,
}

/// What happens to an entity once it leaves the screen.
#[derive(Clone, Copy, Debug, PartialEq, Eq, Structural)]
pub enum OffscreenBehavior {
    Keep,
    Die,
}

/// Extra data that varies by entity type.
#[derive(Clone, Debug, Default)]
pub struct EntityExtra {
    /// For teeth: the shark entity they follow.
    pub follow_entity: Option<EntityId>,
    /// For seaweed: the column it occupies.
    pub column: Option<u16>,
    /// For hook: whether the fishing rod has been spawned.
    pub rod_spawned: bool,
}

/// What a death callback learns about the entity that died and the screen.
pub struct DeathContext {
    pub entity_type: EntityType,
    pub screen_width: u16,
    pub screen_height: u16,
    pub classic_mode: bool,
}

} // verus!
