use std::time::{Duration, Instant};
use veloren::character::{
    CharacterAbilityType, CharacterState, Item, ItemConfig, ItemKind, Loadout, ToolCategory,
};
use veloren::sfx::{CombatEventMapper, PreviousEntityState, SfxEvent};
use veloren::states;

fn loadout_with(asset: &str) -> Loadout {
    let mut loadout = Loadout::default();

    loadout.active_item = Some(ItemConfig {
        item: Item::new_from_asset_expect(asset),
        ability1: None,
        ability2: None,
        ability3: None,
        block_ability: None,
        dodge_ability: None,
    });
    loadout
}

fn combo_state(stage: u32) -> CharacterState {
    CharacterState::ComboMelee(states::combo_melee::Data {
        static_data: states::combo_melee::StaticData {
            num_stages: 1,
            stage_data: vec![states::combo_melee::Stage {
                stage: 1,
                base_damage: 100,
                max_damage: 120,
                damage_increase: 10,
                base_buildup_duration: Duration::from_millis(500),
                base_swing_duration: Duration::from_millis(200),
                base_recover_duration: Duration::from_millis(400),
            }],
            initial_energy_gain: 0,
            max_energy_gain: 100,
            energy_increase: 20,
            is_interruptible: true,
        },
        stage,
        combo: 0,
        timer: Duration::default(),
        stage_section: states::utils::StageSection::Swing,
        next_stage: false,
    })
}

#[test]
fn maps_wield_while_equipping() {
    let mut loadout = Loadout::default();

    loadout.active_item = Some(ItemConfig {
        item: Item::new_from_asset_expect("common.items.weapons.axe.starter_axe"),
        ability1: None,
        ability2: None,
        ability3: None,
        block_ability: None,
        dodge_ability: None,
    });

    let result = CombatEventMapper::map_event(
        &CharacterState::Equipping(states::equipping::Data {
            time_left: Duration::from_millis(10),
        }),
        &PreviousEntityState {
            event: SfxEvent::Idle,
            time: Instant::now(),
            weapon_drawn: false,
        },
        Some(&loadout),
    );

    assert_eq!(result, SfxEvent::Wield(ToolCategory::Axe));
}

#[test]
fn maps_unwield() {
    let mut loadout = Loadout::default();

    loadout.active_item = Some(ItemConfig {
        item: Item::new_from_asset_expect("common.items.weapons.bow.starter_bow"),
        ability1: None,
        ability2: None,
        ability3: None,
        block_ability: None,
        dodge_ability: None,
    });

    let result = CombatEventMapper::map_event(
        &CharacterState::default(),
        &PreviousEntityState {
            event: SfxEvent::Idle,
            time: Instant::now(),
            weapon_drawn: true,
        },
        Some(&loadout),
    );

    assert_eq!(result, SfxEvent::Unwield(ToolCategory::Bow));
}

#[test]
fn maps_basic_melee() {
    let mut loadout = Loadout::default();

    loadout.active_item = Some(ItemConfig {
        item: Item::new_from_asset_expect("common.items.weapons.axe.starter_axe"),
        ability1: None,
        ability2: None,
        ability3: None,
        block_ability: None,
        dodge_ability: None,
    });

    let result = CombatEventMapper::map_event(
        &CharacterState::BasicMelee(states::basic_melee::Data {
            buildup_duration: Duration::default(),
            recover_duration: Duration::default(),
            base_healthchange: 10,
            exhausted: false,
        }),
        &PreviousEntityState {
            event: SfxEvent::Idle,
            time: Instant::now(),
            weapon_drawn: true,
        },
        Some(&loadout),
    );

    assert_eq!(
        result,
        SfxEvent::Attack(CharacterAbilityType::BasicMelee, ToolCategory::Axe)
    );
}

#[test]
fn matches_ability_stage() {
    let mut loadout = Loadout::default();

    loadout.active_item = Some(ItemConfig {
        item: Item::new_from_asset_expect("common.items.weapons.sword.starter_sword"),
        ability1: None,
        ability2: None,
        ability3: None,
        block_ability: None,
        dodge_ability: None,
    });

    let result = CombatEventMapper::map_event(
        &CharacterState::ComboMelee(states::combo_melee::Data {
            static_data: states::combo_melee::StaticData {
                num_stages: 1,
                stage_data: vec![states::combo_melee::Stage {
                    stage: 1,
                    base_damage: 100,
                    max_damage: 120,
                    damage_increase: 10,
                    base_buildup_duration: Duration::from_millis(500),
                    base_swing_duration: Duration::from_millis(200),
                    base_recover_duration: Duration::from_millis(400),
                }],
                initial_energy_gain: 0,
                max_energy_gain: 100,
                energy_increase: 20,
                is_interruptible: true,
            },
            stage: 1,
            combo: 0,
            timer: Duration::default(),
            stage_section: states::utils::StageSection::Swing,
            next_stage: false,
        }),
        &PreviousEntityState {
            event: SfxEvent::Idle,
            time: Instant::now(),
            weapon_drawn: true,
        },
        Some(&loadout),
    );

    assert_eq!(
        result,
        SfxEvent::Attack(
            CharacterAbilityType::ComboMelee(states::utils::StageSection::Swing, 1),
            ToolCategory::Sword
        )
    );
}

#[test]
fn ignores_different_ability_stage() {
    let mut loadout = Loadout::default();

    loadout.active_item = Some(ItemConfig {
        item: Item::new_from_asset_expect("common.items.weapons.sword.starter_sword"),
        ability1: None,
        ability2: None,
        ability3: None,
        block_ability: None,
        dodge_ability: None,
    });

    let result = CombatEventMapper::map_event(
        &CharacterState::ComboMelee(states::combo_melee::Data {
            static_data: states::combo_melee::StaticData {
                num_stages: 1,
                stage_data: vec![states::combo_melee::Stage {
                    stage: 1,
                    base_damage: 100,
                    max_damage: 120,
                    damage_increase: 10,
                    base_buildup_duration: Duration::from_millis(500),
                    base_swing_duration: Duration::from_millis(200),
                    base_recover_duration: Duration::from_millis(400),
                }],
                initial_energy_gain: 0,
                max_energy_gain: 100,
                energy_increase: 20,
                is_interruptible: true,
            },
            stage: 1,
            combo: 0,
            timer: Duration::default(),
            stage_section: states::utils::StageSection::Swing,
            next_stage: false,
        }),
        &PreviousEntityState {
            event: SfxEvent::Idle,
            time: Instant::now(),
            weapon_drawn: true,
        },
        Some(&loadout),
    );

    assert_ne!(
        result,
        SfxEvent::Attack(
            CharacterAbilityType::ComboMelee(states::utils::StageSection::Swing, 2),
            ToolCategory::Sword
        )
    );
}

#[test]
fn no_event_without_loadout() {
    let result = CombatEventMapper::map_event(
        &CharacterState::Wielding,
        &PreviousEntityState {
            event: SfxEvent::Idle,
            time: Instant::now(),
            weapon_drawn: false,
        },
        None,
    );
    assert_eq!(result, SfxEvent::Idle);
}

#[test]
fn no_event_without_active_item() {
    let loadout = Loadout::default();
    let result = CombatEventMapper::map_event(
        &CharacterState::Wielding,
        &PreviousEntityState {
            event: SfxEvent::Idle,
            time: Instant::now(),
            weapon_drawn: false,
        },
        Some(&loadout),
    );
    assert_eq!(result, SfxEvent::Idle);
}

#[test]
fn rolling_neither_wields_nor_unwields() {
    let loadout = loadout_with("common.items.weapons.hammer.starter_hammer");
    for drawn in [false, true] {
        let result = CombatEventMapper::map_event(
            &CharacterState::Roll,
            &PreviousEntityState {
                event: SfxEvent::Idle,
                time: Instant::now(),
                weapon_drawn: drawn,
            },
            Some(&loadout),
        );
        assert_eq!(result, SfxEvent::Idle);
    }
}

#[test]
fn keeping_weapon_drawn_is_silent() {
    let loadout = loadout_with("common.items.weapons.staff.starter_staff");
    let result = CombatEventMapper::map_event(
        &CharacterState::Wielding,
        &PreviousEntityState {
            event: SfxEvent::Idle,
            time: Instant::now(),
            weapon_drawn: true,
        },
        Some(&loadout),
    );
    assert_eq!(result, SfxEvent::Idle);
}

#[test]
fn combo_stage_two_is_reported() {
    let loadout = loadout_with("common.items.weapons.sword.starter_sword");
    let result = CombatEventMapper::map_event(
        &combo_state(2),
        &PreviousEntityState {
            event: SfxEvent::Idle,
            time: Instant::now(),
            weapon_drawn: true,
        },
        Some(&loadout),
    );
    assert_eq!(
        result,
        SfxEvent::Attack(
            CharacterAbilityType::ComboMelee(states::utils::StageSection::Swing, 2),
            ToolCategory::Sword
        )
    );
}

#[test]
fn weapon_assets_name_their_category() {
    let cases = [
        ("common.items.weapons.sword.starter_sword", ToolCategory::Sword),
        ("common.items.weapons.axe.starter_axe", ToolCategory::Axe),
        ("common.items.weapons.hammer.starter_hammer", ToolCategory::Hammer),
        ("common.items.weapons.bow.starter_bow", ToolCategory::Bow),
        ("common.items.weapons.dagger.starter_dagger", ToolCategory::Dagger),
        ("common.items.weapons.staff.starter_staff", ToolCategory::Staff),
        ("common.items.weapons.sceptre.starter_sceptre", ToolCategory::Sceptre),
        ("common.items.weapons.shield.shield_1", ToolCategory::Shield),
        ("common.items.weapons.tool.broom", ToolCategory::Farming),
    ];
    for (asset, category) in cases {
        assert_eq!(
            Item::new_from_asset_expect(asset).kind,
            ItemKind::Tool(category)
        );
    }
}

#[test]
fn weapon_drawn_while_equipping_or_wielding() {
    assert!(CombatEventMapper::weapon_drawn(&CharacterState::Wielding));
    assert!(CombatEventMapper::weapon_drawn(&CharacterState::Equipping(
        states::equipping::Data {
            time_left: Duration::from_millis(1),
        }
    )));
    assert!(!CombatEventMapper::weapon_drawn(&CharacterState::Idle));
    assert!(!CombatEventMapper::weapon_drawn(&CharacterState::Roll));
}
