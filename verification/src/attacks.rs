//! Attacks of a character: their data, the list of attack names the
//! editor shows, and which parts of an attack's form are open.

use crate::keyed::KeyedMap;
use crate::name_index::{add_first, delete_named, rename_named, renamed, tracks_keys, without_name};
use crate::names::views;
use crate::unique::first_free_key;
use vstd::prelude::*;
use vstd::string::StringExecFns;

verus! {

/// A two-dimensional vector of whole numbers (positions, offsets, forces).
#[derive(Clone, Copy, Debug, PartialEq, Eq, Structural)]
pub struct Vec2i {
    pub x: i32,
    pub y: i32,
}

impl Default for Vec2i {
    /// The zero vector.
    fn default() -> (r: Self)
        ensures
            r == (Vec2i { x: 0, y: 0 }),
    {
        Vec2i { x: 0, y: 0 }
    }
}

/// The height an attack must be guarded at.
#[derive(Clone, Copy, Debug, PartialEq, Eq, Structural)]
pub enum Guard {
    Low,
    Mid,
    High,
}

/// What a hit does to a defender on the ground.
#[derive(Clone, Copy, Debug, PartialEq, Eq, Structural)]
pub enum GroundAction {
    Knockdown,
    GroundSlam,
    OnTheGround,
}

/// What an attack does when it hits.
#[derive(Clone, Copy, Debug, PartialEq, Eq, Structural)]
pub struct HitEffect {
    pub launcher: bool,
    pub stun: i32,
    pub air_stun: i32,
    pub attacker_stop: i32,
    pub defender_stop: i32,
    pub air_force: Vec2i,
    pub ground_pushback: i32,
    pub attacker_meter: i32,
    pub defender_meter: i32,
    pub starter_limit: i32,
    pub limit_cost: i32,
    pub damage: i32,
    pub lethal: bool,
    pub proration: i32,
    pub spirit_cost: i32,
    pub spirit_delay: i32,
    pub reset_spirit_delay: bool,
    pub ground_action: GroundAction,
}

/// What an attack does when it is guarded.
#[derive(Clone, Copy, Debug, PartialEq, Eq, Structural)]
pub struct GuardEffect {
    pub attacker_stop: i32,
    pub defender_stop: i32,
    pub stun: i32,
    pub air_stun: i32,
    pub air_force: Vec2i,
    pub ground_pushback: i32,
    pub attacker_meter: i32,
    pub defender_meter: i32,
    pub spirit_cost: i32,
    pub spirit_delay: i32,
    pub reset_spirit_delay: bool,
    pub damage: i32,
}

/// What an attack does when it is grazed.
#[derive(Clone, Copy, Debug, PartialEq, Eq, Structural)]
pub struct GrazeEffect {
    pub defender_stop: i32,
    pub attacker_meter: i32,
    pub defender_meter: i32,
    pub spirit_cost: i32,
    pub spirit_delay: i32,
    pub reset_spirit_delay: bool,
    pub damage: i32,
}

/// The data of one attack.
#[derive(Clone, Copy, Debug, PartialEq, Eq, Structural)]
pub struct AttackInfo {
    pub melee: bool,
    pub magic: bool,
    pub grazeable: bool,
    pub air_unblockable: bool,
    pub can_counter_hit: bool,
    pub guard: Guard,
    pub on_hit: HitEffect,
    pub on_counter_hit: HitEffect,
    pub on_guard_crush: HitEffect,
    pub on_block: GuardEffect,
    pub on_wrongblock: GuardEffect,
    pub on_graze: GrazeEffect,
}

pub open spec fn zero_vec() -> Vec2i {
    Vec2i { x: 0, y: 0 }
}

pub open spec fn default_hit_effect() -> HitEffect {
    HitEffect {
        launcher: false,
        stun: 0,
        air_stun: 0,
        attacker_stop: 0,
        defender_stop: 0,
        air_force: zero_vec(),
        ground_pushback: 0,
        attacker_meter: 0,
        defender_meter: 0,
        starter_limit: 0,
        limit_cost: 0,
        damage: 0,
        lethal: false,
        proration: 0,
        spirit_cost: 0,
        spirit_delay: 0,
        reset_spirit_delay: false,
        ground_action: GroundAction::Knockdown,
    }
}

pub open spec fn default_guard_effect() -> GuardEffect {
    GuardEffect {
        attacker_stop: 0,
        defender_stop: 0,
        stun: 0,
        air_stun: 0,
        air_force: zero_vec(),
        ground_pushback: 0,
        attacker_meter: 0,
        defender_meter: 0,
        spirit_cost: 0,
        spirit_delay: 0,
        reset_spirit_delay: false,
        damage: 0,
    }
}

pub open spec fn default_graze_effect() -> GrazeEffect {
    GrazeEffect {
        defender_stop: 0,
        attacker_meter: 0,
        defender_meter: 0,
        spirit_cost: 0,
        spirit_delay: 0,
        reset_spirit_delay: false,
        damage: 0,
    }
}

/// A blank attack: every number zero, every flag off, guarded mid.
pub open spec fn default_attack_info() -> AttackInfo {
    AttackInfo {
        melee: false,
        magic: false,
        grazeable: false,
        air_unblockable: false,
        can_counter_hit: false,
        guard: Guard::Mid,
        on_hit: default_hit_effect(),
        on_counter_hit: default_hit_effect(),
        on_guard_crush: default_hit_effect(),
        on_block: default_guard_effect(),
        on_wrongblock: default_guard_effect(),
        on_graze: default_graze_effect(),
    }
}

impl Default for AttackInfo {
    fn default() -> (r: Self)
        ensures
            r == default_attack_info(),
    {
        let zero = Vec2i { x: 0, y: 0 };
        let hit = HitEffect {
            launcher: false,
            stun: 0,
            air_stun: 0,
            attacker_stop: 0,
            defender_stop: 0,
            air_force: zero,
            ground_pushback: 0,
            attacker_meter: 0,
            defender_meter: 0,
            starter_limit: 0,
            limit_cost: 0,
            damage: 0,
            lethal: false,
            proration: 0,
            spirit_cost: 0,
            spirit_delay: 0,
            reset_spirit_delay: false,
            ground_action: GroundAction::Knockdown,
        };
        let guard = GuardEffect {
            attacker_stop: 0,
            defender_stop: 0,
            stun: 0,
            air_stun: 0,
            air_force: zero,
            ground_pushback: 0,
            attacker_meter: 0,
            defender_meter: 0,
            spirit_cost: 0,
            spirit_delay: 0,
            reset_spirit_delay: false,
            damage: 0,
        };
        let graze = GrazeEffect {
            defender_stop: 0,
            attacker_meter: 0,
            defender_meter: 0,
            spirit_cost: 0,
            spirit_delay: 0,
            reset_spirit_delay: false,
            damage: 0,
        };
        AttackInfo {
            melee: false,
            magic: false,
            grazeable: false,
            air_unblockable: false,
            can_counter_hit: false,
            guard: Guard::Mid,
            on_hit: hit,
            on_counter_hit: hit,
            on_guard_crush: hit,
            on_block: guard,
            on_wrongblock: guard,
            on_graze: graze,
        }
    }
}

/// Which parts of the attack form are open.
#[derive(Clone, Copy, Debug, PartialEq, Eq, Structural)]
pub struct AttackInfoSections {
    /// "On Counter Hit" is offered.
    pub counter_hit: bool,
    /// "On Guard Crush" is offered.
    pub guard_crush: bool,
    /// "On Wrongblock" is offered.
    pub wrongblock: bool,
    /// "On Graze" is offered.
    pub graze: bool,
    /// The air fields of "On Block" are shown.
    pub block_air_fields: bool,
    /// The ground pushback field of "On Hit" is shown.
    pub hit_ground_pushback: bool,
    /// The ground pushback field of "On Counter Hit" is shown.
    pub counter_hit_ground_pushback: bool,
    /// The ground pushback field of "On Guard Crush" is shown.
    pub guard_crush_ground_pushback: bool,
    /// The limit cost field of "On Hit" is shown.
    pub hit_limit_cost: bool,
    /// The spirit fields of "On Hit" are shown.
    pub hit_spirit: bool,
    /// The limit cost field of "On Counter Hit" is shown.
    pub counter_hit_limit_cost: bool,
    /// The spirit fields of "On Counter Hit" are shown.
    pub counter_hit_spirit: bool,
    /// The limit cost field of "On Guard Crush" is shown.
    pub guard_crush_limit_cost: bool,
    /// The spirit fields of "On Guard Crush" are shown.
    pub guard_crush_spirit: bool,
    /// The air fields of "On Wrongblock" are shown.
    pub wrongblock_air_fields: bool,
}

/// An attack can be guarded the wrong way unless it is guarded mid.
pub open spec fn can_wrongblock(data: AttackInfo) -> bool {
    data.guard != Guard::Mid
}

/// An attack can crush a guard when guarding it (or guarding it the wrong
/// way, where that is possible) costs spirit.
pub open spec fn can_crush(data: AttackInfo) -> bool {
    data.on_block.spirit_cost > 0 || (can_wrongblock(data) && data.on_wrongblock.spirit_cost > 0)
}

/// The parts of the form that are open for `data`. Of the three hit
/// sections only "On Hit" shows the limit cost, and "On Guard Crush" shows
/// no spirit fields; "On Wrongblock" never shows air fields.
pub open spec fn sections_of(data: AttackInfo) -> AttackInfoSections {
    AttackInfoSections {
        counter_hit: data.can_counter_hit,
        guard_crush: can_crush(data),
        wrongblock: can_wrongblock(data),
        graze: data.grazeable,
        block_air_fields: !data.air_unblockable,
        hit_ground_pushback: !data.on_hit.launcher,
        counter_hit_ground_pushback: !data.on_counter_hit.launcher,
        guard_crush_ground_pushback: !data.on_guard_crush.launcher,
        hit_limit_cost: true,
        hit_spirit: true,
        counter_hit_limit_cost: false,
        counter_hit_spirit: true,
        guard_crush_limit_cost: false,
        guard_crush_spirit: false,
        wrongblock_air_fields: false,
    }
}

/// Each hit section shows its ground pushback field exactly when that same
/// section does not launch, whatever the other sections hold; the other
/// sections are offered as the attack's own flags say. Only "On Hit" shows
/// the limit cost, "On Guard Crush" shows no spirit fields, and "On
/// Wrongblock" no air fields.
pub proof fn lemma_sections_follow_their_own_data(d: AttackInfo)
    ensures
        sections_of(d).hit_ground_pushback == !d.on_hit.launcher,
        sections_of(d).counter_hit_ground_pushback == !d.on_counter_hit.launcher,
        sections_of(d).guard_crush_ground_pushback == !d.on_guard_crush.launcher,
        sections_of(d).counter_hit == d.can_counter_hit,
        sections_of(d).graze == d.grazeable,
        sections_of(d).block_air_fields == !d.air_unblockable,
        sections_of(d).wrongblock == (d.guard != Guard::Mid),
        sections_of(d).guard_crush == (d.on_block.spirit_cost > 0 || (d.guard != Guard::Mid
            && d.on_wrongblock.spirit_cost > 0)),
        sections_of(d).hit_limit_cost && sections_of(d).hit_spirit,
        !sections_of(d).counter_hit_limit_cost && sections_of(d).counter_hit_spirit,
        !sections_of(d).guard_crush_limit_cost && !sections_of(d).guard_crush_spirit,
        !sections_of(d).wrongblock_air_fields,
{
}

/// Changing only what happens on a counter hit changes only the counter
/// hit's ground pushback field, and changing only what happens on a hit
/// changes only the hit's.
pub proof fn lemma_sections_of_one_hit_section(d: AttackInfo, counter: HitEffect, hit: HitEffect)
    ensures
        sections_of(AttackInfo { on_counter_hit: counter, ..d }) == (AttackInfoSections {
            counter_hit_ground_pushback: !counter.launcher,
            ..sections_of(d)
        }),
        sections_of(AttackInfo { on_hit: hit, ..d }) == (AttackInfoSections {
            hit_ground_pushback: !hit.launcher,
            ..sections_of(d)
        }),
{
}

/// The form that edits one attack.
pub struct AttackInfoUi {}

impl AttackInfoUi {
    pub fn new() -> (r: Self) {
        AttackInfoUi {  }
    }

    /// Which parts of the form are open for `data`.
    pub fn sections(&self, data: &AttackInfo) -> (r: AttackInfoSections)
        ensures
            r == sections_of(*data),
    {
        let wrongblock = data.guard != Guard::Mid;
        AttackInfoSections {
            counter_hit: data.can_counter_hit,
            guard_crush: data.on_block.spirit_cost > 0 || (wrongblock
                && data.on_wrongblock.spirit_cost > 0),
            wrongblock,
            graze: data.grazeable,
            block_air_fields: !data.air_unblockable,
            hit_ground_pushback: !data.on_hit.launcher,
            counter_hit_ground_pushback: !data.on_counter_hit.launcher,
            guard_crush_ground_pushback: !data.on_guard_crush.launcher,
            hit_limit_cost: true,
            hit_spirit: true,
            counter_hit_limit_cost: false,
            counter_hit_spirit: true,
            guard_crush_limit_cost: false,
            guard_crush_spirit: false,
            wrongblock_air_fields: false,
        }
    }
}

/// The attacks of a character, by name.
pub struct Attacks {
    pub attacks: KeyedMap<AttackInfo>,
}

impl Attacks {
    /// A name built from `key` that no attack has yet.
    pub fn guarentee_unique_key(&self, key: String) -> (r: String)
        requires
            self.attacks.wf(),
        ensures
            !self.attacks.as_map().contains_key(r@),
            r@ == first_free_key(self.attacks.as_map().dom(), key@),
    {
        self.attacks.guarentee_unique_key(key)
    }
}

/// The name given to a new attack before it is made unique.
pub open spec fn new_attack_name() -> Seq<char> {
    seq!['n', 'e', 'w', ' ', 'a', 't', 't', 'a', 'c', 'k']
}

/// The list of attack names the editor shows.
pub struct AttacksUi {
    attack_names: Vec<String>,
}

impl View for AttacksUi {
    type V = Seq<Seq<char>>;

    closed spec fn view(&self) -> Seq<Seq<char>> {
        views(self.attack_names@)
    }
}

impl AttacksUi {
    /// Lists the names of the attacks in `data`.
    pub fn new(data: &Attacks) -> (r: Self)
        ensures
            r@ == data.attacks.key_seq(),
            data.attacks.wf() ==> tracks_keys(r@, data.attacks.as_map()),
    {
        let r = AttacksUi { attack_names: data.attacks.keys() };
        proof {
            if data.attacks.wf() {
                data.attacks.lemma_well_formed();
            }
        }
        r
    }

    /// The names, in the order shown.
    pub fn attack_names(&self) -> (r: &Vec<String>)
        ensures
            views(r@) == self@,
    {
        &self.attack_names
    }

    /// "New": adds a blank attack under a fresh name built from "new
    /// attack", shown first.
    pub fn add_new_attack(&mut self, data: &mut Attacks)
        requires
            old(data).attacks.wf(),
        ensures
            final(data).attacks.wf(),
            final(data).attacks.as_map() == old(data).attacks.as_map().insert(
                first_free_key(old(data).attacks.as_map().dom(), new_attack_name()),
                default_attack_info(),
            ),
            !old(data).attacks.as_map().contains_key(first_free_key(old(data).attacks.as_map().dom(), new_attack_name())),
            final(self)@ == seq![first_free_key(old(data).attacks.as_map().dom(), new_attack_name())]
                + old(self)@,
            tracks_keys(old(self)@, old(data).attacks.as_map()) ==> tracks_keys(
                final(self)@,
                final(data).attacks.as_map(),
            ),
    {
        proof {
            reveal_strlit("new attack");
        }
        let base = String::from_str("new attack");
        proof {
            assert(base@ == new_attack_name());
        }
        add_first(&mut self.attack_names, &mut data.attacks, base, AttackInfo::default());
    }

    /// "Delete" on the row of `key`: the attack goes from the list and the
    /// data.
    pub fn delete_attack(&mut self, data: &mut Attacks, key: &String)
        requires
            old(data).attacks.wf(),
        ensures
            final(data).attacks.wf(),
            final(self)@ == without_name(old(self)@, key@),
            old(self)@.contains(key@) ==> final(data).attacks.as_map() == old(data).attacks.as_map().remove(key@),
            !old(self)@.contains(key@) ==> final(data).attacks.as_map() == old(data).attacks.as_map(),
            tracks_keys(old(self)@, old(data).attacks.as_map()) ==> tracks_keys(
                final(self)@,
                final(data).attacks.as_map(),
            ),
    {
        delete_named(&mut self.attack_names, &mut data.attacks, key);
    }

    /// An edited name: the attack `old_name` moves to a fresh name built
    /// from `new_name`, in the same row.
    pub fn rename_attack(&mut self, data: &mut Attacks, old_name: &String, new_name: String)
        requires
            old(data).attacks.wf(),
            old(data).attacks.as_map().contains_key(old_name@),
        ensures
            final(data).attacks.wf(),
            final(data).attacks.as_map() == old(data).attacks.as_map().remove(old_name@).insert(
                first_free_key(old(data).attacks.as_map().remove(old_name@).dom(), new_name@),
                old(data).attacks.as_map()[old_name@],
            ),
            final(self)@ == renamed(
                old(self)@,
                old_name@,
                first_free_key(old(data).attacks.as_map().remove(old_name@).dom(), new_name@),
            ),
            tracks_keys(old(self)@, old(data).attacks.as_map()) ==> tracks_keys(
                final(self)@,
                final(data).attacks.as_map(),
            ),
    {
        rename_named(&mut self.attack_names, &mut data.attacks, old_name, new_name);
    }
}

} // verus!
