//! Commands: what a player input needs and does to start a state.

use crate::moves::{air_prefix, ground_variant, ground_variant_of, kind_name, lemma_ground_kind_drops_air_prefix, MoveType};
use vstd::prelude::*;
use vstd::string::StringExecFns;

verus! {

/// Something a command does when it starts.
#[derive(Clone, Copy, Debug, PartialEq, Eq, Structural)]
pub enum Effect {
    RefillSpirit,
    UseAirAction,
}

/// Something that must hold for a command to start.
#[derive(Clone, Debug)]
pub enum Requirement {
    Grounded,
    Airborne,
    InBlockstun,
    NotLockedOut,
    HasAirActions,
    CancelFrom(String),
    NoCancelFrom(String),
    CanCancel(MoveType),
    Meter(i32),
    Spirit(i32),
}

/// A requirement, with state names as character sequences.
pub enum RequirementView {
    Grounded,
    Airborne,
    InBlockstun,
    NotLockedOut,
    HasAirActions,
    CancelFrom(Seq<char>),
    NoCancelFrom(Seq<char>),
    CanCancel(MoveType),
    Meter(i32),
    Spirit(i32),
}

impl View for Requirement {
    type V = RequirementView;

    open spec fn view(&self) -> RequirementView {
        match self {
            Requirement::Grounded => RequirementView::Grounded,
            Requirement::Airborne => RequirementView::Airborne,
            Requirement::InBlockstun => RequirementView::InBlockstun,
            Requirement::NotLockedOut => RequirementView::NotLockedOut,
            Requirement::HasAirActions => RequirementView::HasAirActions,
            Requirement::CancelFrom(s) => RequirementView::CancelFrom(s@),
            Requirement::NoCancelFrom(s) => RequirementView::NoCancelFrom(s@),
            Requirement::CanCancel(m) => RequirementView::CanCancel(*m),
            Requirement::Meter(n) => RequirementView::Meter(*n),
            Requirement::Spirit(n) => RequirementView::Spirit(*n),
        }
    }
}

/// A player input, by its code in the game's input table.
#[derive(Clone, Copy, Debug, PartialEq, Eq, Structural, Hash)]
pub struct Input {
    pub code: u32,
}

/// An input's command: it starts state `state_id` at `frame` when all its
/// requirements hold, and then has its effects.
#[derive(Clone, Debug)]
pub struct Command {
    pub effects: Vec<Effect>,
    pub reqs: Vec<Requirement>,
    pub state_id: String,
    pub frame: usize,
}

/// A command, with names as character sequences.
pub struct CommandView {
    pub effects: Seq<Effect>,
    pub reqs: Seq<RequirementView>,
    pub state_id: Seq<char>,
    pub frame: usize,
}

impl View for Command {
    type V = CommandView;

    open spec fn view(&self) -> CommandView {
        CommandView {
            effects: self.effects@,
            reqs: self.reqs@.map_values(|r: Requirement| r@),
            state_id: self.state_id@,
            frame: self.frame,
        }
    }
}

/// A move of the command list; each names the state it starts.
#[derive(Clone, Debug)]
pub enum MoveId {
    BorderEscapeJump,
    MeleeRestitution,
    FlyStart,
    ForwardDash,
    ForwardDashStart,
    ForwardDashEnd,
    Stand,
    ToStand,
    Crouch,
    ToCrouch,
    WalkForward,
    /// Any other move, by the name of its state.
    Other(String),
}

/// The name of the state a move starts.
pub open spec fn file_name_of(id: MoveId) -> Seq<char> {
    match id {
        MoveId::BorderEscapeJump => "border_escape_jump"@,
        MoveId::MeleeRestitution => "melee_restitution"@,
        MoveId::FlyStart => "fly_start"@,
        MoveId::ForwardDash => "forward_dash"@,
        MoveId::ForwardDashStart => "forward_dash_start"@,
        MoveId::ForwardDashEnd => "forward_dash_end"@,
        MoveId::Stand => "stand"@,
        MoveId::ToStand => "to_stand"@,
        MoveId::Crouch => "crouch"@,
        MoveId::ToCrouch => "to_crouch"@,
        MoveId::WalkForward => "walk_forward"@,
        MoveId::Other(s) => s@,
    }
}

impl MoveId {
    /// The name of the state this move starts.
    pub fn file_name(&self) -> (r: String)
        ensures
            r@ == file_name_of(*self),
    {
        match self {
            MoveId::BorderEscapeJump => String::from_str("border_escape_jump"),
            MoveId::MeleeRestitution => String::from_str("melee_restitution"),
            MoveId::FlyStart => String::from_str("fly_start"),
            MoveId::ForwardDash => String::from_str("forward_dash"),
            MoveId::ForwardDashStart => String::from_str("forward_dash_start"),
            MoveId::ForwardDashEnd => String::from_str("forward_dash_end"),
            MoveId::Stand => String::from_str("stand"),
            MoveId::ToStand => String::from_str("to_stand"),
            MoveId::Crouch => String::from_str("crouch"),
            MoveId::ToCrouch => String::from_str("to_crouch"),
            MoveId::WalkForward => String::from_str("walk_forward"),
            MoveId::Other(s) => s.clone(),
        }
    }
}

/// The effects particular to a move.
pub open spec fn move_effects(id: MoveId) -> Seq<Effect> {
    match id {
        MoveId::BorderEscapeJump | MoveId::MeleeRestitution => seq![Effect::RefillSpirit],
        MoveId::FlyStart => seq![Effect::UseAirAction],
        _ => Seq::empty(),
    }
}

/// The requirements particular to a move: what it escapes from, or which
/// states it must (or must not) follow.
pub open spec fn move_reqs(id: MoveId) -> Seq<RequirementView> {
    match id {
        MoveId::BorderEscapeJump | MoveId::MeleeRestitution => seq![
            RequirementView::Grounded,
            RequirementView::InBlockstun,
            RequirementView::NotLockedOut,
        ],
        MoveId::FlyStart => seq![RequirementView::HasAirActions, RequirementView::Airborne],
        MoveId::ForwardDashEnd => seq![RequirementView::CancelFrom(file_name_of(MoveId::ForwardDash))],
        MoveId::ToCrouch => seq![RequirementView::CancelFrom(file_name_of(MoveId::Stand))],
        MoveId::ToStand => seq![RequirementView::CancelFrom(file_name_of(MoveId::Crouch))],
        MoveId::Crouch => seq![RequirementView::NoCancelFrom(file_name_of(MoveId::ToCrouch))],
        MoveId::Stand => seq![
            RequirementView::NoCancelFrom(file_name_of(MoveId::ToStand)),
            RequirementView::NoCancelFrom(file_name_of(MoveId::ForwardDash)),
            RequirementView::NoCancelFrom(file_name_of(MoveId::ForwardDashEnd)),
        ],
        MoveId::WalkForward => seq![
            RequirementView::NoCancelFrom(file_name_of(MoveId::ForwardDash)),
            RequirementView::NoCancelFrom(file_name_of(MoveId::ForwardDashStart)),
            RequirementView::NoCancelFrom(file_name_of(MoveId::ForwardDashEnd)),
        ],
        MoveId::ForwardDashStart => seq![
            RequirementView::NoCancelFrom(file_name_of(MoveId::ForwardDash)),
            RequirementView::NoCancelFrom(file_name_of(MoveId::ForwardDashEnd)),
        ],
        _ => Seq::empty(),
    }
}

/// The requirements that come from the kind of the state started: it must
/// be allowed to cancel into that kind (an airborne kind counts as its ground
/// kind), on the ground or in the air as the kind demands.
pub open spec fn move_type_reqs(t: MoveType) -> Seq<RequirementView> {
    match t {
        MoveType::Fly => seq![RequirementView::CanCancel(MoveType::Fly), RequirementView::Airborne],
        _ => match ground_variant_of(t) {
            Some(g) => seq![RequirementView::CanCancel(g), RequirementView::Airborne],
            None => seq![RequirementView::CanCancel(t), RequirementView::Grounded],
        },
    }
}

/// The meter and spirit a state needs to start, when it needs any.
pub open spec fn resource_reqs(meter: i32, spirit: i32) -> Seq<RequirementView> {
    (if meter > 0 {
        seq![RequirementView::Meter(meter)]
    } else {
        Seq::empty()
    }) + (if spirit > 0 {
        seq![RequirementView::Spirit(spirit)]
    } else {
        Seq::empty()
    })
}

/// The command that starts the state of move `id`.
pub open spec fn command_spec(id: MoveId, state_type: MoveType, meter: i32, spirit: i32) -> CommandView {
    CommandView {
        effects: move_effects(id),
        reqs: move_reqs(id) + move_type_reqs(state_type) + resource_reqs(meter, spirit),
        state_id: file_name_of(id),
        frame: 0,
    }
}

fn push_req(reqs: &mut Vec<Requirement>, r: Requirement)
    ensures
        final(reqs)@.map_values(|q: Requirement| q@) == old(reqs)@.map_values(|q: Requirement| q@).push(r@),
{
    let ghost before = reqs@;
    reqs.push(r);
    proof {
        assert(reqs@.map_values(|q: Requirement| q@) =~= before.map_values(|q: Requirement| q@).push(r@));
    }
}

/// The moves between postures start only from the other posture, which is
/// their first requirement: "to_stand" from "crouch", "to_crouch" from
/// "stand", and the end of a forward dash from "forward_dash". Crouching
/// and standing in turn never follow the move that leads into them.
pub proof fn lemma_posture_changes_start_from_the_other_posture(t: MoveType, meter: i32, spirit: i32)
    ensures
        command_spec(MoveId::ToStand, t, meter, spirit).reqs[0] == RequirementView::CancelFrom(seq!['c', 'r', 'o', 'u', 'c', 'h']),
        command_spec(MoveId::ToStand, t, meter, spirit).state_id == seq!['t', 'o', '_', 's', 't', 'a', 'n', 'd'],
        command_spec(MoveId::ToCrouch, t, meter, spirit).reqs[0] == RequirementView::CancelFrom(seq!['s', 't', 'a', 'n', 'd']),
        command_spec(MoveId::ToCrouch, t, meter, spirit).state_id == seq!['t', 'o', '_', 'c', 'r', 'o', 'u', 'c', 'h'],
        command_spec(MoveId::ForwardDashEnd, t, meter, spirit).reqs[0] == RequirementView::CancelFrom(seq!['f', 'o', 'r', 'w', 'a', 'r', 'd', '_', 'd', 'a', 's', 'h']),
        command_spec(MoveId::Crouch, t, meter, spirit).reqs[0] == RequirementView::NoCancelFrom(seq!['t', 'o', '_', 'c', 'r', 'o', 'u', 'c', 'h']),
        command_spec(MoveId::Stand, t, meter, spirit).reqs[0] == RequirementView::NoCancelFrom(seq!['t', 'o', '_', 's', 't', 'a', 'n', 'd']),
{
    reveal_strlit("crouch");
    reveal_strlit("stand");
    reveal_strlit("to_stand");
    reveal_strlit("to_crouch");
    reveal_strlit("forward_dash");
    assert(file_name_of(MoveId::Crouch) =~= seq!['c', 'r', 'o', 'u', 'c', 'h']);
    assert(file_name_of(MoveId::Stand) =~= seq!['s', 't', 'a', 'n', 'd']);
    assert(file_name_of(MoveId::ToStand) =~= seq!['t', 'o', '_', 's', 't', 'a', 'n', 'd']);
    assert(file_name_of(MoveId::ToCrouch) =~= seq!['t', 'o', '_', 'c', 'r', 'o', 'u', 'c', 'h']);
    assert(file_name_of(MoveId::ForwardDash) =~= seq!['f', 'o', 'r', 'w', 'a', 'r', 'd', '_', 'd', 'a', 's', 'h']);
}

/// A command for a state of an airborne kind needs the character airborne
/// and allowed to cancel into the kind named without the `Air` prefix; one
/// for a state of a ground kind other than flying needs it grounded and
/// allowed to cancel into that kind itself.
pub proof fn lemma_command_kind_requirements(id: MoveId, t: MoveType, g: MoveType, meter: i32, spirit: i32)
    ensures
        kind_name(t) == air_prefix() + kind_name(g) ==> {
            &&& command_spec(id, t, meter, spirit).reqs.contains(RequirementView::CanCancel(g))
            &&& command_spec(id, t, meter, spirit).reqs.contains(RequirementView::Airborne)
        },
        !(kind_name(t).len() > 3 && kind_name(t).take(3) == air_prefix()) && t != MoveType::Fly ==> {
            &&& command_spec(id, t, meter, spirit).reqs.contains(RequirementView::CanCancel(t))
            &&& command_spec(id, t, meter, spirit).reqs.contains(RequirementView::Grounded)
        },
{
    lemma_ground_kind_drops_air_prefix(t, g);
    let reqs = command_spec(id, t, meter, spirit).reqs;
    let n = move_reqs(id).len() as int;
    assert(reqs[n] == move_type_reqs(t)[0]);
    assert(reqs[n + 1] == move_type_reqs(t)[1]);
}

/// A command needs meter exactly when its state needs a positive amount,
/// and then exactly that amount; likewise for spirit.
pub proof fn lemma_command_resource_requirements(id: MoveId, t: MoveType, meter: i32, spirit: i32)
    ensures
        meter > 0 ==> command_spec(id, t, meter, spirit).reqs.contains(RequirementView::Meter(meter)),
        forall|x: i32|
            #[trigger] command_spec(id, t, meter, spirit).reqs.contains(RequirementView::Meter(x)) ==> x == meter
                && meter > 0,
        spirit > 0 ==> command_spec(id, t, meter, spirit).reqs.contains(RequirementView::Spirit(spirit)),
        forall|x: i32|
            #[trigger] command_spec(id, t, meter, spirit).reqs.contains(RequirementView::Spirit(x)) ==> x == spirit
                && spirit > 0,
{
    let a = move_reqs(id);
    let b = move_type_reqs(t);
    let c = resource_reqs(meter, spirit);
    let reqs = command_spec(id, t, meter, spirit).reqs;
    assert(reqs == a + b + c);
    assert forall|i: int| 0 <= i < a.len() + b.len() implies !((#[trigger] reqs[i]) is Meter) && !(reqs[i] is Spirit) by {
        if i < a.len() {
            assert(reqs[i] == a[i]);
        } else {
            assert(reqs[i] == b[i - a.len()]);
        }
    }
    let n: int = (a.len() + b.len()) as int;
    if meter > 0 {
        assert(reqs[n] == RequirementView::Meter(meter));
    }
    if spirit > 0 {
        if meter > 0 {
            assert(reqs[n + 1] == RequirementView::Spirit(spirit));
        } else {
            assert(reqs[n] == RequirementView::Spirit(spirit));
        }
    }
    assert forall|x: i32| #[trigger] reqs.contains(RequirementView::Meter(x)) implies x == meter && meter > 0 by {
        let i = choose|i: int| 0 <= i < reqs.len() && reqs[i] == RequirementView::Meter(x);
        assert(reqs[i] == c[i - n]);
    }
    assert forall|x: i32| #[trigger] reqs.contains(RequirementView::Spirit(x)) implies x == spirit && spirit > 0 by {
        let i = choose|i: int| 0 <= i < reqs.len() && reqs[i] == RequirementView::Spirit(x);
        assert(reqs[i] == c[i - n]);
    }
}

/// Standing, walking forward and starting a forward dash never follow a
/// forward dash that is under way; the escapes from blockstun work only on
/// the ground, in blockstun and when not locked out, and refill spirit;
/// starting to fly needs an air action left and uses it.
pub proof fn lemma_special_moves_requirements(t: MoveType, meter: i32, spirit: i32)
    ensures
        command_spec(MoveId::Stand, t, meter, spirit).reqs.contains(RequirementView::NoCancelFrom(seq!['f', 'o', 'r', 'w', 'a', 'r', 'd', '_', 'd', 'a', 's', 'h'])),
        command_spec(MoveId::Stand, t, meter, spirit).reqs.contains(RequirementView::NoCancelFrom(seq!['f', 'o', 'r', 'w', 'a', 'r', 'd', '_', 'd', 'a', 's', 'h', '_', 'e', 'n', 'd'])),
        command_spec(MoveId::WalkForward, t, meter, spirit).reqs.contains(RequirementView::NoCancelFrom(seq!['f', 'o', 'r', 'w', 'a', 'r', 'd', '_', 'd', 'a', 's', 'h'])),
        command_spec(MoveId::WalkForward, t, meter, spirit).reqs.contains(RequirementView::NoCancelFrom(seq!['f', 'o', 'r', 'w', 'a', 'r', 'd', '_', 'd', 'a', 's', 'h', '_', 'e', 'n', 'd'])),
        command_spec(MoveId::WalkForward, t, meter, spirit).reqs.contains(RequirementView::NoCancelFrom(seq!['f', 'o', 'r', 'w', 'a', 'r', 'd', '_', 'd', 'a', 's', 'h', '_', 's', 't', 'a', 'r', 't'])),
        command_spec(MoveId::ForwardDashStart, t, meter, spirit).reqs.contains(RequirementView::NoCancelFrom(seq!['f', 'o', 'r', 'w', 'a', 'r', 'd', '_', 'd', 'a', 's', 'h'])),
        command_spec(MoveId::ForwardDashStart, t, meter, spirit).reqs.contains(RequirementView::NoCancelFrom(seq!['f', 'o', 'r', 'w', 'a', 'r', 'd', '_', 'd', 'a', 's', 'h', '_', 'e', 'n', 'd'])),
        command_spec(MoveId::BorderEscapeJump, t, meter, spirit).effects == seq![Effect::RefillSpirit],
        command_spec(MoveId::BorderEscapeJump, t, meter, spirit).reqs.contains(RequirementView::Grounded),
        command_spec(MoveId::BorderEscapeJump, t, meter, spirit).reqs.contains(RequirementView::InBlockstun),
        command_spec(MoveId::BorderEscapeJump, t, meter, spirit).reqs.contains(RequirementView::NotLockedOut),
        command_spec(MoveId::MeleeRestitution, t, meter, spirit).effects == seq![Effect::RefillSpirit],
        command_spec(MoveId::MeleeRestitution, t, meter, spirit).reqs.contains(RequirementView::Grounded),
        command_spec(MoveId::MeleeRestitution, t, meter, spirit).reqs.contains(RequirementView::InBlockstun),
        command_spec(MoveId::MeleeRestitution, t, meter, spirit).reqs.contains(RequirementView::NotLockedOut),
        command_spec(MoveId::FlyStart, t, meter, spirit).effects == seq![Effect::UseAirAction],
        command_spec(MoveId::FlyStart, t, meter, spirit).reqs.contains(RequirementView::HasAirActions),
        command_spec(MoveId::FlyStart, t, meter, spirit).reqs.contains(RequirementView::Airborne),
{
    reveal_strlit("forward_dash");
    reveal_strlit("forward_dash_end");
    reveal_strlit("forward_dash_start");
    assert(file_name_of(MoveId::ForwardDash) =~= seq!['f', 'o', 'r', 'w', 'a', 'r', 'd', '_', 'd', 'a', 's', 'h']);
    assert(file_name_of(MoveId::ForwardDashEnd) =~= seq!['f', 'o', 'r', 'w', 'a', 'r', 'd', '_', 'd', 'a', 's', 'h', '_', 'e', 'n', 'd']);
    assert(file_name_of(MoveId::ForwardDashStart) =~= seq!['f', 'o', 'r', 'w', 'a', 'r', 'd', '_', 'd', 'a', 's', 'h', '_', 's', 't', 'a', 'r', 't']);
    assert(command_spec(MoveId::Stand, t, meter, spirit).reqs[1] == move_reqs(MoveId::Stand)[1]);
    assert(command_spec(MoveId::Stand, t, meter, spirit).reqs[2] == move_reqs(MoveId::Stand)[2]);
    assert(command_spec(MoveId::WalkForward, t, meter, spirit).reqs[0] == move_reqs(MoveId::WalkForward)[0]);
    assert(command_spec(MoveId::WalkForward, t, meter, spirit).reqs[1] == move_reqs(MoveId::WalkForward)[1]);
    assert(command_spec(MoveId::WalkForward, t, meter, spirit).reqs[2] == move_reqs(MoveId::WalkForward)[2]);
    assert(command_spec(MoveId::ForwardDashStart, t, meter, spirit).reqs[0] == move_reqs(MoveId::ForwardDashStart)[0]);
    assert(command_spec(MoveId::ForwardDashStart, t, meter, spirit).reqs[1] == move_reqs(MoveId::ForwardDashStart)[1]);
    assert(command_spec(MoveId::BorderEscapeJump, t, meter, spirit).reqs[0] == move_reqs(MoveId::BorderEscapeJump)[0]);
    assert(command_spec(MoveId::BorderEscapeJump, t, meter, spirit).reqs[1] == move_reqs(MoveId::BorderEscapeJump)[1]);
    assert(command_spec(MoveId::BorderEscapeJump, t, meter, spirit).reqs[2] == move_reqs(MoveId::BorderEscapeJump)[2]);
    assert(command_spec(MoveId::MeleeRestitution, t, meter, spirit).reqs[0] == move_reqs(MoveId::MeleeRestitution)[0]);
    assert(command_spec(MoveId::MeleeRestitution, t, meter, spirit).reqs[1] == move_reqs(MoveId::MeleeRestitution)[1]);
    assert(command_spec(MoveId::MeleeRestitution, t, meter, spirit).reqs[2] == move_reqs(MoveId::MeleeRestitution)[2]);
    assert(command_spec(MoveId::FlyStart, t, meter, spirit).reqs[0] == move_reqs(MoveId::FlyStart)[0]);
    assert(command_spec(MoveId::FlyStart, t, meter, spirit).reqs[1] == move_reqs(MoveId::FlyStart)[1]);
}

/// Builds the command that starts the state of move `id`, a state of kind
/// `state_type` that needs `meter` meter and `spirit` spirit.
pub fn command_for_move(id: &MoveId, state_type: MoveType, meter: i32, spirit: i32) -> (c: Command)
    ensures
        c@ == command_spec(*id, state_type, meter, spirit),
{
    let mut effects: Vec<Effect> = Vec::new();
    let mut reqs: Vec<Requirement> = Vec::new();
    match id {
        MoveId::BorderEscapeJump | MoveId::MeleeRestitution => {
            effects.push(Effect::RefillSpirit);
            push_req(&mut reqs, Requirement::Grounded);
            push_req(&mut reqs, Requirement::InBlockstun);
            push_req(&mut reqs, Requirement::NotLockedOut);
        },
        MoveId::FlyStart => {
            effects.push(Effect::UseAirAction);
            push_req(&mut reqs, Requirement::HasAirActions);
            push_req(&mut reqs, Requirement::Airborne);
        },
        MoveId::ForwardDashEnd => {
            push_req(&mut reqs, Requirement::CancelFrom(MoveId::ForwardDash.file_name()));
        },
        MoveId::ToCrouch => {
            push_req(&mut reqs, Requirement::CancelFrom(MoveId::Stand.file_name()));
        },
        MoveId::ToStand => {
            push_req(&mut reqs, Requirement::CancelFrom(MoveId::Crouch.file_name()));
        },
        MoveId::Crouch => {
            push_req(&mut reqs, Requirement::NoCancelFrom(MoveId::ToCrouch.file_name()));
        },
        MoveId::Stand => {
            push_req(&mut reqs, Requirement::NoCancelFrom(MoveId::ToStand.file_name()));
            push_req(&mut reqs, Requirement::NoCancelFrom(MoveId::ForwardDash.file_name()));
            push_req(&mut reqs, Requirement::NoCancelFrom(MoveId::ForwardDashEnd.file_name()));
        },
        MoveId::WalkForward => {
            push_req(&mut reqs, Requirement::NoCancelFrom(MoveId::ForwardDash.file_name()));
            push_req(&mut reqs, Requirement::NoCancelFrom(MoveId::ForwardDashStart.file_name()));
            push_req(&mut reqs, Requirement::NoCancelFrom(MoveId::ForwardDashEnd.file_name()));
        },
        MoveId::ForwardDashStart => {
            push_req(&mut reqs, Requirement::NoCancelFrom(MoveId::ForwardDash.file_name()));
            push_req(&mut reqs, Requirement::NoCancelFrom(MoveId::ForwardDashEnd.file_name()));
        },
        _ => {},
    }
    let ghost after_id = reqs@.map_values(|q: Requirement| q@);
    proof {
        assert(effects@ =~= move_effects(*id));
        assert(after_id =~= move_reqs(*id));
    }
    match state_type {
        MoveType::Fly => {
            push_req(&mut reqs, Requirement::CanCancel(MoveType::Fly));
            push_req(&mut reqs, Requirement::Airborne);
        },
        _ => match ground_variant(state_type) {
            Some(g) => {
                push_req(&mut reqs, Requirement::CanCancel(g));
                push_req(&mut reqs, Requirement::Airborne);
            },
            None => {
                push_req(&mut reqs, Requirement::CanCancel(state_type));
                push_req(&mut reqs, Requirement::Grounded);
            },
        },
    }
    let ghost after_type = reqs@.map_values(|q: Requirement| q@);
    proof {
        assert(after_type =~= move_reqs(*id) + move_type_reqs(state_type));
    }
    if meter > 0 {
        push_req(&mut reqs, Requirement::Meter(meter));
    }
    if spirit > 0 {
        push_req(&mut reqs, Requirement::Spirit(spirit));
    }
    proof {
        assert(reqs@.map_values(|q: Requirement| q@) =~= move_reqs(*id) + move_type_reqs(state_type)
            + resource_reqs(meter, spirit));
    }
    Command { effects, reqs, state_id: id.file_name(), frame: 0 }
}

} // verus!
