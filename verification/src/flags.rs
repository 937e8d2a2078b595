//! The flags of a state's frames and the form that edits them.

use crate::attacks::Vec2i;
use vstd::prelude::*;

verus! {

/// Whether an attack of a kind can hit during the frames.
#[derive(Clone, Copy, Debug, PartialEq, Eq, Structural)]
pub enum Hittable {
    Hit,
    Invuln,
}

/// A screen flash the frames play.
#[derive(Clone, Copy, Debug, PartialEq, Eq, Structural)]
pub enum FlashType {
    GuardCrush,
    Super,
    PartialSuper,
}

/// What holds of a character during some frames of a state.
#[derive(Clone, Copy, Debug, PartialEq, Eq, Structural)]
pub struct Flags {
    pub can_block: bool,
    pub grazing: bool,
    pub crouching: bool,
    pub can_be_counter_hit: bool,
    pub airborne: bool,
    pub reset_velocity: bool,
    pub jump_start: bool,
    pub allow_reface: bool,
    pub cutscene: bool,
    pub flash: Option<FlashType>,
    pub spirit_cost: i32,
    pub spirit_delay: i32,
    pub reset_spirit_delay: bool,
    pub lockout_timer: i32,
    pub reset_lockout_timer: bool,
    pub meter_cost: i32,
    pub melee: Hittable,
    pub bullet: Hittable,
    pub accel: Vec2i,
    pub friction: i32,
}

/// The form that edits and shows flags.
pub struct FlagsUi {}

impl FlagsUi {
    /// Friction is edited and shown only while the character is grounded.
    pub fn friction_shown(data: &Flags) -> (r: bool)
        ensures
            r == !data.airborne,
    {
        !data.airborne
    }

    /// The flashes offered, in the order offered: none, then each kind.
    pub fn flash_choices() -> (r: Vec<Option<FlashType>>)
        ensures
            r@ == seq![
                None::<FlashType>,
                Some(FlashType::GuardCrush),
                Some(FlashType::Super),
                Some(FlashType::PartialSuper),
            ],
    {
        let mut r = Vec::new();
        r.push(None);
        r.push(Some(FlashType::GuardCrush));
        r.push(Some(FlashType::Super));
        r.push(Some(FlashType::PartialSuper));
        proof {
            assert(r@ =~= seq![
                None::<FlashType>,
                Some(FlashType::GuardCrush),
                Some(FlashType::Super),
                Some(FlashType::PartialSuper),
            ]);
        }
        r
    }
}

} // verus!
