use crate::states::{basic_melee, combo_melee, equipping, utils::StageSection};
use vstd::string::StringSliceAdditionalSpecFns;
use vstd::prelude::*;

verus! {

/// The kinds of tool a character can hold, as sound effects tell them apart.
#[derive(Copy, Clone, Debug, PartialEq, Eq, Hash, Structural)]
pub enum ToolCategory {
    Sword,
    Axe,
    Hammer,
    Bow,
    Dagger,
    Staff,
    Sceptre,
    Shield,
    Debug,
    Farming,
    Empty,
}

/// What an item is.
#[derive(Copy, Clone, Debug, PartialEq, Eq, Structural)]
pub enum ItemKind {
    /// A tool or weapon of a category.
    Tool(ToolCategory),
    /// Anything that is not held as a tool.
    Other,
}

/// An item.
#[derive(Copy, Clone, Debug, PartialEq, Eq, Structural)]
pub struct Item {
    pub kind: ItemKind,
}

/// Abilities an equipped tool can grant.
#[derive(Copy, Clone, Debug, PartialEq, Eq, Structural)]
pub enum CharacterAbility {
    BasicMelee,
    BasicRanged,
    Boost,
    DashMelee,
    BasicBlock,
    Roll,
    ComboMelee,
    LeapMelee,
    SpinMelee,
    ChargedRanged,
}

/// An item held in a hand, with the abilities it grants.
#[derive(Copy, Clone, Debug, PartialEq, Eq, Structural)]
pub struct ItemConfig {
    pub item: Item,
    pub ability1: Option<CharacterAbility>,
    pub ability2: Option<CharacterAbility>,
    pub ability3: Option<CharacterAbility>,
    pub block_ability: Option<CharacterAbility>,
    pub dodge_ability: Option<CharacterAbility>,
}

/// What a character has equipped.
#[derive(Copy, Clone, Debug, PartialEq, Eq, Structural)]
pub struct Loadout {
    pub active_item: Option<ItemConfig>,
    pub second_item: Option<ItemConfig>,
}

impl Default for Loadout {
    fn default() -> (l: Self)
        ensures
            l.active_item is None,
            l.second_item is None,
    {
        Loadout { active_item: None, second_item: None }
    }
}

/// What a character is doing.
#[derive(Debug, PartialEq, Eq)]
pub enum CharacterState {
    Idle,
    Climb,
    Sit,
    Equipping(equipping::Data),
    Wielding,
    Glide,
    BasicBlock,
    Roll,
    BasicMelee(basic_melee::Data),
    BasicRanged,
    Boost,
    DashMelee,
    LeapMelee,
    SpinMelee,
    ComboMelee(combo_melee::Data),
    ChargedRanged,
}

impl Default for CharacterState {
    fn default() -> (s: Self)
        ensures
            s is Idle,
    {
        CharacterState::Idle
    }
}

/// The character is attacking.
pub open spec fn is_attack_spec(s: &CharacterState) -> bool {
    match s {
        CharacterState::BasicMelee(_) => true,
        CharacterState::BasicRanged => true,
        CharacterState::Boost => true,
        CharacterState::DashMelee => true,
        CharacterState::BasicBlock => true,
        CharacterState::LeapMelee => true,
        CharacterState::ComboMelee(_) => true,
        CharacterState::SpinMelee => true,
        CharacterState::ChargedRanged => true,
        _ => false,
    }
}

/// The character holds its weapon ready.
pub open spec fn is_wield_spec(s: &CharacterState) -> bool {
    match s {
        CharacterState::Wielding => true,
        CharacterState::BasicMelee(_) => true,
        CharacterState::BasicRanged => true,
        CharacterState::DashMelee => true,
        CharacterState::BasicBlock => true,
        CharacterState::LeapMelee => true,
        CharacterState::ComboMelee(_) => true,
        CharacterState::SpinMelee => true,
        CharacterState::ChargedRanged => true,
        _ => false,
    }
}

/// The character is dodging.
pub open spec fn is_dodge_spec(s: &CharacterState) -> bool {
    s is Roll
}

impl CharacterState {
    pub fn is_attack(&self) -> (r: bool)
        ensures
            r == is_attack_spec(self),
    {
        match self {
            CharacterState::BasicMelee(_) => true,
            CharacterState::BasicRanged => true,
            CharacterState::Boost => true,
            CharacterState::DashMelee => true,
            CharacterState::BasicBlock => true,
            CharacterState::LeapMelee => true,
            CharacterState::ComboMelee(_) => true,
            CharacterState::SpinMelee => true,
            CharacterState::ChargedRanged => true,
            _ => false,
        }
    }

    pub fn is_wield(&self) -> (r: bool)
        ensures
            r == is_wield_spec(self),
    {
        match self {
            CharacterState::Wielding => true,
            CharacterState::BasicMelee(_) => true,
            CharacterState::BasicRanged => true,
            CharacterState::DashMelee => true,
            CharacterState::BasicBlock => true,
            CharacterState::LeapMelee => true,
            CharacterState::ComboMelee(_) => true,
            CharacterState::SpinMelee => true,
            CharacterState::ChargedRanged => true,
            _ => false,
        }
    }

    pub fn is_dodge(&self) -> (r: bool)
        ensures
            r == is_dodge_spec(self),
    {
        match self {
            CharacterState::Roll => true,
            _ => false,
        }
    }
}

/// The kind of ability being used, as sound effects tell them apart; a combo
/// carries its section and stage.
#[derive(Copy, Clone, Debug, PartialEq, Eq, Hash, Structural)]
pub enum CharacterAbilityType {
    BasicMelee,
    BasicRanged,
    Boost,
    ChargedRanged,
    DashMelee,
    BasicBlock,
    ComboMelee(StageSection, u32),
    LeapMelee,
    SpinMelee,
}

/// The ability type of a character state; states that use no ability count
/// as a basic melee attack.
pub open spec fn ability_type_spec(s: &CharacterState) -> CharacterAbilityType {
    match s {
        CharacterState::BasicMelee(_) => CharacterAbilityType::BasicMelee,
        CharacterState::BasicRanged => CharacterAbilityType::BasicRanged,
        CharacterState::Boost => CharacterAbilityType::Boost,
        CharacterState::DashMelee => CharacterAbilityType::DashMelee,
        CharacterState::BasicBlock => CharacterAbilityType::BasicBlock,
        CharacterState::LeapMelee => CharacterAbilityType::LeapMelee,
        CharacterState::ComboMelee(data) => CharacterAbilityType::ComboMelee(
            data.stage_section,
            data.stage,
        ),
        CharacterState::SpinMelee => CharacterAbilityType::SpinMelee,
        CharacterState::ChargedRanged => CharacterAbilityType::ChargedRanged,
        _ => CharacterAbilityType::BasicMelee,
    }
}

impl CharacterAbilityType {
    /// The ability type of a character state.
    pub fn from_state(s: &CharacterState) -> (t: Self)
        ensures
            t == ability_type_spec(s),
    {
        match s {
            CharacterState::BasicMelee(_) => CharacterAbilityType::BasicMelee,
            CharacterState::BasicRanged => CharacterAbilityType::BasicRanged,
            CharacterState::Boost => CharacterAbilityType::Boost,
            CharacterState::DashMelee => CharacterAbilityType::DashMelee,
            CharacterState::BasicBlock => CharacterAbilityType::BasicBlock,
            CharacterState::LeapMelee => CharacterAbilityType::LeapMelee,
            CharacterState::ComboMelee(data) => CharacterAbilityType::ComboMelee(
                data.stage_section,
                data.stage,
            ),
            CharacterState::SpinMelee => CharacterAbilityType::SpinMelee,
            CharacterState::ChargedRanged => CharacterAbilityType::ChargedRanged,
            _ => CharacterAbilityType::BasicMelee,
        }
    }
}


// ------------------------------------------------------------------------
// Items from asset specifiers
// ------------------------------------------------------------------------

/// The directory of weapon assets, `common.items.weapons.`.
pub open spec fn weapons_dir() -> Seq<u8> {
    seq![99u8, 111u8, 109u8, 109u8, 111u8, 110u8, 46u8, 105u8, 116u8, 101u8, 109u8, 115u8, 46u8, 119u8, 101u8, 97u8, 112u8, 111u8, 110u8, 115u8, 46u8]
}

/// The name of the asset directory of sword tools.
pub open spec fn dir_sword() -> Seq<u8> {
    seq![115u8, 119u8, 111u8, 114u8, 100u8]
}

/// The name of the asset directory of axe tools.
pub open spec fn dir_axe() -> Seq<u8> {
    seq![97u8, 120u8, 101u8]
}

/// The name of the asset directory of hammer tools.
pub open spec fn dir_hammer() -> Seq<u8> {
    seq![104u8, 97u8, 109u8, 109u8, 101u8, 114u8]
}

/// The name of the asset directory of bow tools.
pub open spec fn dir_bow() -> Seq<u8> {
    seq![98u8, 111u8, 119u8]
}

/// The name of the asset directory of dagger tools.
pub open spec fn dir_dagger() -> Seq<u8> {
    seq![100u8, 97u8, 103u8, 103u8, 101u8, 114u8]
}

/// The name of the asset directory of staff tools.
pub open spec fn dir_staff() -> Seq<u8> {
    seq![115u8, 116u8, 97u8, 102u8, 102u8]
}

/// The name of the asset directory of sceptre tools.
pub open spec fn dir_sceptre() -> Seq<u8> {
    seq![115u8, 99u8, 101u8, 112u8, 116u8, 114u8, 101u8]
}

/// The name of the asset directory of shield tools.
pub open spec fn dir_shield() -> Seq<u8> {
    seq![115u8, 104u8, 105u8, 101u8, 108u8, 100u8]
}

/// The name of the asset directory of debug tools.
pub open spec fn dir_debug() -> Seq<u8> {
    seq![100u8, 101u8, 98u8, 117u8, 103u8]
}

/// The name of the asset directory of farming tools.
pub open spec fn dir_tool() -> Seq<u8> {
    seq![116u8, 111u8, 111u8, 108u8]
}

/// The name of the asset directory of empty tools.
pub open spec fn dir_empty() -> Seq<u8> {
    seq![101u8, 109u8, 112u8, 116u8, 121u8]
}

/// `pat` stands in `b` from `start`.
pub open spec fn has_at(b: Seq<u8>, start: int, pat: Seq<u8>) -> bool {
    &&& 0 <= start
    &&& start + pat.len() <= b.len()
    &&& b.subrange(start, start + pat.len()) == pat
}

/// Directory `name`, followed by a dot, stands in `b` from `start`.
pub open spec fn dir_at(b: Seq<u8>, start: int, name: Seq<u8>) -> bool {
    &&& has_at(b, start, name)
    &&& start + name.len() < b.len()
    &&& b[start + name.len()] == 46u8
}

/// The tool category of the weapon asset named by `b`: the directory that
/// follows `common.items.weapons.` says which it is.
pub open spec fn weapon_category(b: Seq<u8>) -> Option<ToolCategory> {
    let p = weapons_dir().len() as int;
    if !has_at(b, 0, weapons_dir()) {
        None
    } else if dir_at(b, p, dir_sword()) {
        Some(ToolCategory::Sword)
    } else if dir_at(b, p, dir_axe()) {
        Some(ToolCategory::Axe)
    } else if dir_at(b, p, dir_hammer()) {
        Some(ToolCategory::Hammer)
    } else if dir_at(b, p, dir_bow()) {
        Some(ToolCategory::Bow)
    } else if dir_at(b, p, dir_dagger()) {
        Some(ToolCategory::Dagger)
    } else if dir_at(b, p, dir_staff()) {
        Some(ToolCategory::Staff)
    } else if dir_at(b, p, dir_sceptre()) {
        Some(ToolCategory::Sceptre)
    } else if dir_at(b, p, dir_shield()) {
        Some(ToolCategory::Shield)
    } else if dir_at(b, p, dir_debug()) {
        Some(ToolCategory::Debug)
    } else if dir_at(b, p, dir_tool()) {
        Some(ToolCategory::Farming)
    } else if dir_at(b, p, dir_empty()) {
        Some(ToolCategory::Empty)
    } else {
        None
    }
}

fn has_at_exec(b: &[u8], start: usize, pat: &[u8]) -> (r: bool)
    ensures
        r == has_at(b@, start as int, pat@),
{
    let n = b.len();
    if start > n || pat.len() > n - start {
        return false;
    }
    let mut i: usize = 0;
    while i < pat.len()
        invariant
            n == b@.len(),
            start + pat@.len() <= n,
            0 <= i <= pat@.len(),
            forall|j: int| 0 <= j < i ==> b@[start + j] == pat@[j],
        decreases pat@.len() - i,
    {
        if b[start + i] != pat[i] {
            assert(b@.subrange(start as int, start + pat@.len())[i as int] != pat@[i as int]);
            return false;
        }
        i = i + 1;
    }
    assert(b@.subrange(start as int, start + pat@.len()) =~= pat@);
    true
}

fn dir_at_exec(b: &[u8], start: usize, name: &[u8]) -> (r: bool)
    ensures
        r == dir_at(b@, start as int, name@),
{
    let n = b.len();
    if has_at_exec(b, start, name) && start + name.len() < n {
        b[start + name.len()] == 46u8
    } else {
        false
    }
}

impl Item {
    /// The item that the asset `specifier` describes. The asset is found by
    /// its place in the tree of weapon assets.
    pub fn new_from_asset_expect(specifier: &str) -> (item: Self)
        requires
            weapon_category(specifier.spec_bytes()) is Some,
        ensures
            item.kind == ItemKind::Tool(weapon_category(specifier.spec_bytes())->0),
    {
        let b = specifier.as_bytes();
        let prefix: [u8; 21] = [99u8, 111u8, 109u8, 109u8, 111u8, 110u8, 46u8, 105u8, 116u8, 101u8, 109u8, 115u8, 46u8, 119u8, 101u8, 97u8, 112u8, 111u8, 110u8, 115u8, 46u8];
        assert(prefix@ =~= weapons_dir());
        let p = prefix.len();
        let found = has_at_exec(b, 0, prefix.as_slice());
        let category = if !found {
            ToolCategory::Empty
        } else if dir_at_exec(b, p, [115u8, 119u8, 111u8, 114u8, 100u8].as_slice()) {
            ToolCategory::Sword
        } else if dir_at_exec(b, p, [97u8, 120u8, 101u8].as_slice()) {
            ToolCategory::Axe
        } else if dir_at_exec(b, p, [104u8, 97u8, 109u8, 109u8, 101u8, 114u8].as_slice()) {
            ToolCategory::Hammer
        } else if dir_at_exec(b, p, [98u8, 111u8, 119u8].as_slice()) {
            ToolCategory::Bow
        } else if dir_at_exec(b, p, [100u8, 97u8, 103u8, 103u8, 101u8, 114u8].as_slice()) {
            ToolCategory::Dagger
        } else if dir_at_exec(b, p, [115u8, 116u8, 97u8, 102u8, 102u8].as_slice()) {
            ToolCategory::Staff
        } else if dir_at_exec(b, p, [115u8, 99u8, 101u8, 112u8, 116u8, 114u8, 101u8].as_slice()) {
            ToolCategory::Sceptre
        } else if dir_at_exec(b, p, [115u8, 104u8, 105u8, 101u8, 108u8, 100u8].as_slice()) {
            ToolCategory::Shield
        } else if dir_at_exec(b, p, [100u8, 101u8, 98u8, 117u8, 103u8].as_slice()) {
            ToolCategory::Debug
        } else if dir_at_exec(b, p, [116u8, 111u8, 111u8, 108u8].as_slice()) {
            ToolCategory::Farming
        } else if dir_at_exec(b, p, [101u8, 109u8, 112u8, 116u8, 121u8].as_slice()) {
            ToolCategory::Empty
        } else {
            ToolCategory::Empty
        };
        Item { kind: ItemKind::Tool(category) }
    }
}

} // verus!
