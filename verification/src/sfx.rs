use crate::character::{
    ability_type_spec, is_attack_spec, is_dodge_spec, is_wield_spec, CharacterAbilityType,
    CharacterState, ItemKind, Loadout, ToolCategory,
};
use std::time::Instant;
use vstd::prelude::*;

verus! {

/// `std::time::Instant`, carried opaquely: what sound effects remember of
/// when an event was last played. Nothing is read from it here.
#[verifier::external_type_specification]
#[verifier::external_body]
pub struct ExInstant(Instant);

/// Sound effects that character states trigger.
#[derive(Copy, Clone, Debug, PartialEq, Eq, Hash, Structural)]
pub enum SfxEvent {
    Idle,
    Wield(ToolCategory),
    Unwield(ToolCategory),
    Attack(CharacterAbilityType, ToolCategory),
}

/// What was last played for an entity.
#[derive(Copy, Clone, Debug)]
pub struct PreviousEntityState {
    pub event: SfxEvent,
    pub time: Instant,
    pub weapon_drawn: bool,
}

/// Maps what a character does in combat to sound effects.
pub struct CombatEventMapper;

/// The character's weapon is out: held ready, or being drawn.
pub open spec fn weapon_drawn_spec(s: &CharacterState) -> bool {
    is_wield_spec(s) || s is Equipping
}

/// The sound of a character in state `s`, after `previous`, with `loadout`:
/// with a tool in hand, an attack sounds as that attack with that tool; else,
/// drawing the weapon sounds as wielding it and putting it away as unwielding
/// it, unless the character is dodging; in every other case, nothing.
pub open spec fn combat_event(
    s: &CharacterState,
    previous: PreviousEntityState,
    loadout: Option<Loadout>,
) -> SfxEvent {
    match loadout {
        Some(l) => match l.active_item {
            Some(config) => match config.item.kind {
                ItemKind::Tool(tool) => if is_attack_spec(s) {
                    SfxEvent::Attack(ability_type_spec(s), tool)
                } else if !previous.weapon_drawn && !is_dodge_spec(s) && weapon_drawn_spec(s) {
                    SfxEvent::Wield(tool)
                } else if previous.weapon_drawn && !is_dodge_spec(s) && !weapon_drawn_spec(s) {
                    SfxEvent::Unwield(tool)
                } else {
                    SfxEvent::Idle
                },
                ItemKind::Other => SfxEvent::Idle,
            },
            None => SfxEvent::Idle,
        },
        None => SfxEvent::Idle,
    }
}

impl CombatEventMapper {
    /// The sound effect of a character in `character_state`, after
    /// `previous_state`, holding what `loadout` says.
    pub fn map_event(
        character_state: &CharacterState,
        previous_state: &PreviousEntityState,
        loadout: Option<&Loadout>,
    ) -> (event: SfxEvent)
        ensures
            event == combat_event(
                character_state,
                *previous_state,
                match loadout {
                    Some(l) => Some(*l),
                    None => None,
                },
            ),
    {
        if let Some(active_loadout) = loadout {
            if let Some(item_config) = &active_loadout.active_item {
                if let ItemKind::Tool(tool) = &item_config.item.kind {
                    if character_state.is_attack() {
                        return SfxEvent::Attack(CharacterAbilityType::from_state(character_state), *tool);
                    } else {
                        let wield_event = match (
                            previous_state.weapon_drawn,
                            character_state.is_dodge(),
                            Self::weapon_drawn(character_state),
                        ) {
                            (false, false, true) => Some(SfxEvent::Wield(*tool)),
                            (true, false, false) => Some(SfxEvent::Unwield(*tool)),
                            _ => None,
                        };
                        if let Some(event) = wield_event {
                            return event;
                        }
                    }
                }
            }
        }
        SfxEvent::Idle
    }

    /// The character's weapon is out: held ready, or being drawn.
    pub fn weapon_drawn(character: &CharacterState) -> (drawn: bool)
        ensures
            drawn == weapon_drawn_spec(character),
    {
        character.is_wield() || match character {
            CharacterState::Equipping(_) => true,
            _ => false,
        }
    }
}


/// A dodging character never draws or puts away its weapon.
pub proof fn lemma_dodge_is_silent(
    s: &CharacterState,
    previous: PreviousEntityState,
    loadout: Option<Loadout>,
)
    requires
        is_dodge_spec(s),
    ensures
        !(combat_event(s, previous, loadout) is Wield),
        !(combat_event(s, previous, loadout) is Unwield),
{
}

/// Attacks of a combo at two different stages sound different.
pub proof fn lemma_combo_stages_differ(
    s1: &CharacterState,
    s2: &CharacterState,
    previous: PreviousEntityState,
    loadout: Option<Loadout>,
)
    requires
        s1 is ComboMelee,
        s2 is ComboMelee,
        s1->ComboMelee_0.stage != s2->ComboMelee_0.stage,
        loadout is Some,
        loadout->0.active_item is Some,
        loadout->0.active_item->0.item.kind is Tool,
    ensures
        combat_event(s1, previous, loadout) != combat_event(s2, previous, loadout),
{
}

} // verus!
