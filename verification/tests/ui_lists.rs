use fg_editor::attacks::{AttackInfo, AttackInfoUi, Attacks, AttacksUi, Guard};
use fg_editor::keyed::KeyedMap;
use fg_editor::particles::{Particle, Particles, ParticlesUi};
use fg_editor::states::{CharacterState, EditorStates, StatesUi};
use fg_editor::moves::MoveType;

fn s(x: &str) -> String {
    x.to_string()
}

fn attacks_with(names: &[&str]) -> Attacks {
    let mut attacks = KeyedMap::new();
    for n in names {
        attacks.insert(s(n), AttackInfo::default());
    }
    Attacks { attacks }
}

#[test]
fn attacks_ui_lists_attack_names() {
    let data = attacks_with(&["5a", "2b"]);
    let ui = AttacksUi::new(&data);
    assert_eq!(ui.attack_names(), &vec![s("5a"), s("2b")]);
}

#[test]
fn attacks_ui_new_attack_goes_first_with_fresh_name() {
    let mut data = attacks_with(&["5a", "new attack"]);
    let mut ui = AttacksUi::new(&data);
    ui.add_new_attack(&mut data);
    assert_eq!(ui.attack_names(), &vec![s("new attack (1)"), s("5a"), s("new attack")]);
    assert!(data.attacks.contains_key(&s("new attack (1)")));
    assert_eq!(data.attacks.get(&s("new attack (1)")), Some(&AttackInfo::default()));
    assert_eq!(data.attacks.len(), 3);
}

#[test]
fn attacks_ui_delete_removes_from_both() {
    let mut data = attacks_with(&["5a", "2b", "j5c"]);
    let mut ui = AttacksUi::new(&data);
    ui.delete_attack(&mut data, &s("2b"));
    assert_eq!(ui.attack_names(), &vec![s("5a"), s("j5c")]);
    assert!(!data.attacks.contains_key(&s("2b")));
    ui.delete_attack(&mut data, &s("missing"));
    assert_eq!(ui.attack_names(), &vec![s("5a"), s("j5c")]);
    assert_eq!(data.attacks.len(), 2);
}

#[test]
fn attacks_ui_rename_keeps_row_and_value() {
    let mut data = attacks_with(&["5a", "2b"]);
    let mut info = AttackInfo::default();
    info.melee = true;
    data.attacks.insert(s("2b"), info);
    let mut ui = AttacksUi::new(&data);
    ui.rename_attack(&mut data, &s("2b"), s("5a"));
    assert_eq!(ui.attack_names(), &vec![s("5a"), s("5a (1)")]);
    assert_eq!(data.attacks.get(&s("5a (1)")).map(|a| a.melee), Some(true));
    assert!(!data.attacks.contains_key(&s("2b")));
    ui.rename_attack(&mut data, &s("5a (1)"), s("5a (1)"));
    assert_eq!(ui.attack_names(), &vec![s("5a"), s("5a (1)")]);
}

#[test]
fn attack_info_sections_follow_the_data() {
    let ui = AttackInfoUi::new();
    let mut info = AttackInfo::default();
    let sec = ui.sections(&info);
    assert!(!sec.counter_hit && !sec.graze && !sec.wrongblock && !sec.guard_crush);
    assert!(sec.block_air_fields && sec.hit_ground_pushback);
    info.guard = Guard::High;
    info.on_wrongblock.spirit_cost = 10;
    info.can_counter_hit = true;
    info.grazeable = true;
    info.air_unblockable = true;
    info.on_hit.launcher = true;
    let sec = ui.sections(&info);
    assert!(sec.counter_hit && sec.graze && sec.wrongblock && sec.guard_crush);
    assert!(!sec.block_air_fields && !sec.hit_ground_pushback);
    info.guard = Guard::Mid;
    let sec = ui.sections(&info);
    assert!(!sec.wrongblock && !sec.guard_crush);
    info.on_block.spirit_cost = 1;
    assert!(ui.sections(&info).guard_crush);
}

fn states_with(names: &[&str]) -> EditorStates {
    let mut rest = KeyedMap::new();
    for n in names {
        rest.insert(s(n), CharacterState::new());
    }
    EditorStates { rest }
}

#[test]
fn states_ui_lists_sorted_names() {
    let data = states_with(&["walk", "idle", "jump"]);
    let ui = StatesUi::new(&data);
    assert_eq!(ui.state_names(), &vec![s("idle"), s("jump"), s("walk")]);
}

#[test]
fn states_ui_new_delete_rename() {
    let mut data = states_with(&["walk", "new state"]);
    let mut ui = StatesUi::new(&data);
    ui.add_new_state(&mut data);
    assert_eq!(ui.state_names(), &vec![s("new state (1)"), s("new state"), s("walk")]);
    let added = data.rest.get(&s("new state (1)")).unwrap();
    assert_eq!(added.state_type, MoveType::Idle);
    ui.rename_state(&mut data, &s("walk"), s("run"));
    assert_eq!(ui.state_names(), &vec![s("new state (1)"), s("new state"), s("run")]);
    ui.delete_state(&mut data, &s("new state"));
    assert_eq!(ui.state_names(), &vec![s("new state (1)"), s("run")]);
    assert_eq!(data.rest.len(), 2);
}

#[test]
fn particles_ui_new_particle_is_sorted_in() {
    let mut particles = KeyedMap::new();
    particles.insert(s("spark"), Particle::new());
    particles.insert(s("dust"), Particle::new());
    let mut data = Particles { particles };
    let mut ui = ParticlesUi::new(&data);
    assert_eq!(ui.particle_keys, vec![s("spark"), s("dust")]);
    ui.add_new_particle(&mut data);
    assert_eq!(ui.particle_keys, vec![s("dust"), s("new_particle"), s("spark")]);
    assert!(data.particles.contains_key(&s("new_particle")));
}

#[test]
fn particles_ui_edit_and_rename_selected() {
    let mut particles = KeyedMap::new();
    particles.insert(s("spark"), Particle::new());
    let mut data = Particles { particles };
    let mut ui = ParticlesUi::new(&data);
    ui.add_loaded(&mut data, s("smoke"), Particle::new());
    assert_eq!(ui.particle_keys, vec![s("spark"), s("smoke")]);
    assert_eq!(ui.edit(&data), None);
    ui.select(Some(1));
    assert_eq!(ui.edit(&data), Some(s("smoke")));
    ui.rename_selected(&mut data, s("fog"));
    assert_eq!(ui.particle_keys, vec![s("spark"), s("fog")]);
    assert!(data.particles.contains_key(&s("fog")));
    assert!(!data.particles.contains_key(&s("smoke")));
}

#[test]
fn attack_names_stay_the_keys_through_edits() {
    let mut data = attacks_with(&["5a", "2b"]);
    let mut ui = AttacksUi::new(&data);
    ui.add_new_attack(&mut data);
    ui.add_new_attack(&mut data);
    ui.rename_attack(&mut data, &s("5a"), s("new attack"));
    ui.delete_attack(&mut data, &s("2b"));
    let mut shown = ui.attack_names().clone();
    shown.sort();
    let mut keys = data.attacks.keys();
    keys.sort();
    assert_eq!(shown, keys);
    assert_eq!(shown, vec![s("new attack"), s("new attack (1)"), s("new attack (2)")]);
}
