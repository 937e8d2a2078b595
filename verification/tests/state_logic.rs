use fg_editor::bullets::{offset_from_form, offset_to_form, BulletSpawn, BulletSpawnUi};
use fg_editor::attacks::Vec2i;
use fg_editor::cancels::{CancelSet, CancelSetUi};
use fg_editor::character::{AnimationGroup, PlayerCharacter};
use fg_editor::attacks::Attacks;
use fg_editor::commands::{command_for_move, Effect, Input, MoveId, Requirement};
use fg_editor::keyed::KeyedMap;
use fg_editor::moves::{ground_variant, MoveType, MoveTypeSet};
use fg_editor::particles::Particles;
use fg_editor::states::{build_command_list, CharacterState, EditorStates};

fn s(x: &str) -> String {
    x.to_string()
}

fn set_of(items: &[MoveType]) -> MoveTypeSet {
    let mut set = MoveTypeSet::new();
    for m in items {
        set.insert(*m);
    }
    set
}

#[test]
fn ground_variants_of_air_moves() {
    assert_eq!(ground_variant(MoveType::AirMelee), Some(MoveType::Melee));
    assert_eq!(ground_variant(MoveType::AirFollowup), Some(MoveType::Followup));
    assert_eq!(ground_variant(MoveType::Fly), None);
    assert_eq!(ground_variant(MoveType::Melee), None);
}

#[test]
fn move_type_set_insert_remove() {
    let mut set = set_of(&[MoveType::Jump, MoveType::Jump, MoveType::Dash]);
    assert_eq!(set.len(), 2);
    set.set_member(MoveType::Jump, false);
    assert!(!set.contains(MoveType::Jump));
    set.set_member(MoveType::Walk, true);
    assert!(set.contains(MoveType::Walk));
    assert_eq!(set.len(), 2);
}

#[test]
fn adding_ground_variants_once_and_twice() {
    let mut c = CancelSet::new();
    c.hit = set_of(&[MoveType::AirMelee, MoveType::AirSuper, MoveType::Fly]);
    c.always = set_of(&[MoveType::AirDash]);
    c.add_ground_variants();
    assert_eq!(c.hit.len(), 5);
    assert!(c.hit.contains(MoveType::Melee) && c.hit.contains(MoveType::Super));
    assert!(c.always.contains(MoveType::Dash));
    assert_eq!(c.block.len(), 0);
    c.add_ground_variants();
    assert_eq!(c.hit.len(), 5);
    assert_eq!(c.always.len(), 2);
}

#[test]
fn cancel_set_ui_disallow() {
    let mut data = CancelSet::new();
    let ui = CancelSetUi::new(vec![]);
    ui.add_disallowed(&mut data);
    assert_eq!(data.disallow.len(), 0);
    let mut ui = CancelSetUi::new(vec![s("stand"), s("crouch")]);
    ui.add_disallowed(&mut data);
    assert!(data.disallow.contains_key(&s("stand")));
    ui.select(1);
    ui.add_disallowed(&mut data);
    assert_eq!(data.disallow.keys(), vec![s("stand"), s("crouch")]);
    CancelSetUi::delete_disallowed(&mut data, &s("stand"));
    assert_eq!(data.disallow.keys(), vec![s("crouch")]);
}

fn req_names(reqs: &[Requirement]) -> Vec<String> {
    reqs.iter().map(|r| format!("{:?}", r)).collect()
}

#[test]
fn command_for_escape_move() {
    let c = command_for_move(&MoveId::BorderEscapeJump, MoveType::Jump, 0, 0);
    assert_eq!(c.effects, vec![Effect::RefillSpirit]);
    assert_eq!(
        req_names(&c.reqs),
        vec!["Grounded", "InBlockstun", "NotLockedOut", "CanCancel(Jump)", "Grounded"]
    );
    assert_eq!(c.state_id, "border_escape_jump");
    assert_eq!(c.frame, 0);
}

#[test]
fn command_for_air_move_with_costs() {
    let c = command_for_move(&MoveId::Other(s("j5a")), MoveType::AirMelee, 100, 50);
    assert!(c.effects.is_empty());
    assert_eq!(req_names(&c.reqs), vec!["CanCancel(Melee)", "Airborne", "Meter(100)", "Spirit(50)"]);
    assert_eq!(c.state_id, "j5a");
}

#[test]
fn command_for_stand_and_fly() {
    let c = command_for_move(&MoveId::Stand, MoveType::Idle, 0, 0);
    assert_eq!(
        req_names(&c.reqs),
        vec![
            "NoCancelFrom(\"to_stand\")",
            "NoCancelFrom(\"forward_dash\")",
            "NoCancelFrom(\"forward_dash_end\")",
            "CanCancel(Idle)",
            "Grounded"
        ]
    );
    let f = command_for_move(&MoveId::FlyStart, MoveType::Fly, 0, 0);
    assert_eq!(f.effects, vec![Effect::UseAirAction]);
    assert_eq!(req_names(&f.reqs), vec!["HasAirActions", "Airborne", "CanCancel(Fly)", "Airborne"]);
    let d = command_for_move(&MoveId::ForwardDashEnd, MoveType::Dash, -3, 0);
    assert_eq!(req_names(&d.reqs), vec!["CancelFrom(\"forward_dash\")", "CanCancel(Dash)", "Grounded"]);
}

fn state(t: MoveType, meter: i32) -> CharacterState {
    let mut st = CharacterState::new();
    st.state_type = t;
    st.minimum_meter_required = meter;
    st
}

fn key(code: u32) -> Input {
    Input { code }
}

#[test]
fn command_list_merges_repeated_inputs_and_skips_empty_ones() {
    let mut rest = KeyedMap::new();
    rest.insert(s("stand"), state(MoveType::Idle, 0));
    rest.insert(s("super"), state(MoveType::Super, 1000));
    let states = EditorStates { rest };
    let list = vec![
        (key(7), vec![]),
        (key(3), vec![MoveId::Stand]),
        (key(5), vec![]),
        (key(3), vec![MoveId::Other(s("super"))]),
    ];
    let built = build_command_list(list, &states);
    assert_eq!(built.len(), 1);
    assert_eq!(built[0].0, key(3));
    assert_eq!(built[0].1.len(), 2);
    assert_eq!(built[0].1[0].state_id, "stand");
    assert_eq!(built[0].1[1].state_id, "super");
    assert!(build_command_list(vec![(key(7), vec![])], &states).is_empty());
}

#[test]
fn command_list_is_built_per_input() {
    let mut rest = KeyedMap::new();
    rest.insert(s("stand"), state(MoveType::Idle, 0));
    rest.insert(s("super"), state(MoveType::Super, 1000));
    let states = EditorStates { rest };
    let list = vec![(key(1), vec![MoveId::Stand]), (key(2), vec![MoveId::Other(s("super")), MoveId::Stand])];
    let built = build_command_list(list, &states);
    assert_eq!(built.len(), 2);
    assert_eq!(built[0].0, key(1));
    assert_eq!(built[1].1.len(), 2);
    assert_eq!(req_names(&built[1].1[0].reqs), vec!["CanCancel(Super)", "Grounded", "Meter(1000)"]);
    assert_eq!(built[1].1[1].state_id, "stand");
}

#[test]
fn prepare_for_editing_grounds_cancels_and_builds_commands() {
    let mut st = state(MoveType::Melee, 0);
    let mut c = CancelSet::new();
    c.block = set_of(&[MoveType::AirMagic]);
    st.cancels.push(c);
    let mut rest = KeyedMap::new();
    rest.insert(s("5a"), st);
    let mut pc = PlayerCharacter {
        states: EditorStates { rest },
        attacks: Attacks { attacks: KeyedMap::new() },
        particles: Particles { particles: KeyedMap::new() },
        graphics: KeyedMap::new(),
        commands: vec![(key(9), vec![])],
    };
    pc.prepare_for_editing(vec![(key(7), vec![MoveId::Other(s("5a"))])]);
    let st = pc.states.rest.get(&s("5a")).unwrap();
    assert!(st.cancels[0].block.contains(MoveType::Magic));
    assert_eq!(pc.commands.len(), 1);
    assert_eq!(pc.commands[0].0, key(7));
    assert_eq!(pc.commands[0].1[0].state_id, "5a");
    pc.open_graphic(s("idle"));
    pc.open_graphic(s("walk"));
    pc.keep_graphics(&vec![s("walk")]);
    assert_eq!(pc.graphics.keys(), vec![s("walk")]);
    pc.open_all_states(&vec![s("5a"), s("2b")]);
    assert_eq!(pc.states.rest.keys(), vec![s("5a"), s("2b")]);
    pc.open_all_attacks(&vec![s("5a")]);
    pc.open_all_graphics(&vec![s("walk"), s("run")]);
    assert_eq!(pc.attacks.attacks.len(), 1);
    assert_eq!(pc.graphics.len(), 2);
    let _ = AnimationGroup::new();
}

#[test]
fn entering_the_editor_twice_is_entering_once() {
    let mut st = state(MoveType::AirMelee, 0);
    let mut c = CancelSet::new();
    c.hit = set_of(&[MoveType::AirMagic, MoveType::Melee]);
    c.always = set_of(&[MoveType::AirDash]);
    st.cancels.push(c);
    let mut rest = KeyedMap::new();
    rest.insert(s("j.a"), st);
    rest.insert(s("stand"), state(MoveType::Idle, 0));
    let list = || vec![(key(4), vec![MoveId::Other(s("j.a"))]), (key(5), vec![MoveId::Stand]), (key(4), vec![MoveId::Stand])];
    let mut pc = PlayerCharacter {
        states: EditorStates { rest },
        attacks: Attacks { attacks: KeyedMap::new() },
        particles: Particles { particles: KeyedMap::new() },
        graphics: KeyedMap::new(),
        commands: vec![],
    };
    pc.prepare_for_editing(list());
    let once_hit = pc.states.rest.get(&s("j.a")).unwrap().cancels[0].hit.len();
    let once_always = pc.states.rest.get(&s("j.a")).unwrap().cancels[0].always.len();
    let once: Vec<(u32, Vec<String>)> =
        pc.commands.iter().map(|(i, cs)| (i.code, cs.iter().map(|c| c.state_id.clone()).collect())).collect();
    pc.prepare_for_editing(list());
    let twice: Vec<(u32, Vec<String>)> =
        pc.commands.iter().map(|(i, cs)| (i.code, cs.iter().map(|c| c.state_id.clone()).collect())).collect();
    let grounded = &pc.states.rest.get(&s("j.a")).unwrap().cancels[0];
    assert_eq!(once_hit, 3);
    assert_eq!(once_always, 2);
    assert_eq!(grounded.hit.len(), once_hit);
    assert_eq!(grounded.always.len(), once_always);
    assert!(grounded.hit.contains(MoveType::Magic) && grounded.always.contains(MoveType::Dash));
    assert_eq!(once, twice);
    assert_eq!(once, vec![(4, vec![s("j.a"), s("stand")]), (5, vec![s("stand")])]);
    assert_eq!(pc.states.rest.keys(), vec![s("j.a"), s("stand")]);
}

#[test]
fn bullet_properties_follow_the_chosen_bullet() {
    let mut props = KeyedMap::new();
    props.insert(s("speed"), 5);
    props.insert(s("angle"), 90);
    let mut spawn = BulletSpawn { bullet_id: s("old"), frame: 3, offset: Vec2i { x: 250, y: -150 }, properties: props };
    let mut names = KeyedMap::new();
    names.insert(s("speed"), ());
    names.insert(s("lifetime"), ());
    let mut bullets = KeyedMap::new();
    bullets.insert(s("fireball"), names);
    BulletSpawnUi::choose_bullet(&mut spawn, s("fireball"), &bullets);
    assert_eq!(spawn.bullet_id, "fireball");
    assert_eq!(spawn.properties.get(&s("speed")), Some(&5));
    assert_eq!(spawn.properties.get(&s("lifetime")), Some(&0));
    assert!(!spawn.properties.contains_key(&s("angle")));
    assert_eq!(BulletSpawnUi::property_rows(&spawn), vec![s("lifetime"), s("speed")]);
    assert_eq!(spawn.frame, 3);
}

#[test]
fn bullet_offsets_in_hundreds() {
    let shown = offset_to_form(Vec2i { x: 250, y: -150 });
    assert_eq!(shown, Vec2i { x: 2, y: -1 });
    assert_eq!(offset_from_form(shown), Vec2i { x: 200, y: -100 });
    assert_eq!(offset_to_form(offset_from_form(Vec2i { x: -7, y: 21474836 })), Vec2i { x: -7, y: 21474836 });
    let mut spawn = BulletSpawn { bullet_id: s("b"), frame: 0, offset: Vec2i { x: 99, y: -99 }, properties: KeyedMap::new() };
    assert_eq!(BulletSpawnUi::shown_offset(&spawn), Vec2i { x: 0, y: 0 });
    BulletSpawnUi::store_offset(&mut spawn, Vec2i { x: 3, y: -4 });
    assert_eq!(spawn.offset, Vec2i { x: 300, y: -400 });
}
