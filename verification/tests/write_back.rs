use fg_editor::keyframes::{can_delete_keyframe, sorted_order};
use fg_editor::animations::save_animation_at;
use fg_editor::attacks::{AttackInfo, AttackInfoUi, Attacks, AttacksUi};
use fg_editor::bullets::BulletInfo;
use fg_editor::flags::{Flags, FlagsUi, FlashType, Hittable};
use fg_editor::attacks::Vec2i;
use fg_editor::hitboxes::{AttackData, Hitbox, HitboxSet};
use fg_editor::keyed::KeyedMap;
use fg_editor::moves::MoveType;
use fg_editor::states::{add_loaded_state, link_state_graphic, replace_state, save_state, Animation, CharacterState, EditorStates, StatesUi};

fn s(x: &str) -> String {
    x.to_string()
}

fn typed(t: MoveType) -> CharacterState {
    let mut st = CharacterState::new();
    st.state_type = t;
    st
}

#[test]
fn save_state_stores_under_its_name() {
    let mut states = EditorStates { rest: KeyedMap::new() };
    states.rest.insert(s("idle"), typed(MoveType::Idle));
    save_state(&mut states, s("5a"), typed(MoveType::Melee));
    assert_eq!(states.rest.keys(), vec![s("idle"), s("5a")]);
    save_state(&mut states, s("idle"), typed(MoveType::Walk));
    assert_eq!(states.rest.len(), 2);
    assert_eq!(states.rest.get(&s("idle")).unwrap().state_type, MoveType::Walk);
}

#[test]
fn loaded_state_gets_a_fresh_name_and_is_not_listed() {
    let mut states = EditorStates { rest: KeyedMap::new() };
    states.rest.insert(s("jump"), typed(MoveType::Idle));
    let ui = StatesUi::new(&states);
    add_loaded_state(&mut states, s("jump"), typed(MoveType::Jump));
    assert_eq!(states.rest.get(&s("jump (1)")).unwrap().state_type, MoveType::Jump);
    assert_eq!(states.rest.get(&s("jump")).unwrap().state_type, MoveType::Idle);
    assert_eq!(ui.state_names(), &vec![s("jump")]);
    replace_state(&mut states, &s("jump"), typed(MoveType::Fly));
    assert_eq!(states.rest.get(&s("jump")).unwrap().state_type, MoveType::Fly);
    assert_eq!(states.rest.len(), 2);
}

#[test]
fn state_takes_its_graphics_duration() {
    let mut graphic_of = KeyedMap::new();
    graphic_of.insert(s("5a"), s("punch"));
    let mut durations = KeyedMap::new();
    durations.insert(s("punch"), 12usize);
    durations.insert(s("idle"), 40usize);
    let mut st = typed(MoveType::Melee);
    link_state_graphic(&mut graphic_of, &s("5a"), s("idle"), &durations, &mut st);
    assert_eq!(st.duration, 12);
    assert_eq!(graphic_of.len(), 1);
    let mut other = typed(MoveType::Walk);
    link_state_graphic(&mut graphic_of, &s("walk"), s("idle"), &durations, &mut other);
    assert_eq!(other.duration, 40);
    assert_eq!(other.state_type, MoveType::Walk);
    assert_eq!(graphic_of.get(&s("walk")), Some(&s("idle")));
}

#[test]
fn new_attack_name_was_free() {
    let mut attacks = Attacks { attacks: KeyedMap::new() };
    attacks.attacks.insert(s("new attack"), AttackInfo::default());
    let mut ui = AttacksUi::new(&attacks);
    ui.add_new_attack(&mut attacks);
    assert_eq!(ui.attack_names(), &vec![s("new attack (1)"), s("new attack")]);
    assert_eq!(attacks.attacks.len(), 2);
}

#[test]
fn hit_sections_show_their_own_fields() {
    let form = AttackInfoUi::new();
    let open = form.sections(&AttackInfo::default());
    assert!(open.hit_limit_cost && open.hit_spirit);
    assert!(!open.counter_hit_limit_cost && open.counter_hit_spirit);
    assert!(!open.guard_crush_limit_cost && !open.guard_crush_spirit);
    assert!(!open.wrongblock_air_fields);
}

#[test]
fn saved_animation_replaces_its_entry() {
    let mut anims = vec![Animation::new("a"), Animation::new("b")];
    let mut edited = Animation { name: s("b2"), delay: 3, duration: 9 };
    save_animation_at(&mut anims, 1, &mut edited);
    assert_eq!(anims[1].name, "b2");
    assert_eq!(anims[1].duration, 9);
    assert_eq!(anims[0].name, "a");
    assert_eq!(edited.name, "empty");
    assert_eq!(edited.duration, 0);
}

#[test]
fn reset_bullet_is_empty() {
    let b = BulletInfo::new(s("new bullet"), s("fireball hit"));
    assert_eq!(b.animation.name, "new bullet");
    assert_eq!(b.attack_id, "fireball hit");
    assert_eq!(b.hitbox, Hitbox::new());
    assert_eq!(b.properties.len(), 0);
}

#[test]
fn friction_only_on_the_ground() {
    let mut f = Flags {
        can_block: false,
        grazing: false,
        crouching: false,
        can_be_counter_hit: false,
        airborne: false,
        reset_velocity: false,
        jump_start: false,
        allow_reface: false,
        cutscene: false,
        flash: None,
        spirit_cost: 0,
        spirit_delay: 0,
        reset_spirit_delay: false,
        lockout_timer: 0,
        reset_lockout_timer: false,
        meter_cost: 0,
        melee: Hittable::Hit,
        bullet: Hittable::Invuln,
        accel: Vec2i { x: 0, y: 0 },
        friction: 5,
    };
    assert!(FlagsUi::friction_shown(&f));
    f.airborne = true;
    assert!(!FlagsUi::friction_shown(&f));
    assert_eq!(
        FlagsUi::flash_choices(),
        vec![None, Some(FlashType::GuardCrush), Some(FlashType::Super), Some(FlashType::PartialSuper)]
    );
}

#[test]
fn hitbox_data_defaults_and_compares() {
    let a: AttackData<u32> = AttackData::default();
    assert_eq!(a, AttackData { id: 0usize, boxes: vec![], data_id: 0u32 });
    assert_eq!(a, AttackData::new(0u32));
    let set: HitboxSet<u8> = HitboxSet::default();
    assert_eq!(set, HitboxSet::new());
    assert_eq!(Hitbox::default(), Hitbox::new());
    assert_eq!(Vec2i::default(), Vec2i { x: 0, y: 0 });
}

#[test]
fn keyframes_sort_by_frame_keeping_ties_in_order() {
    assert_eq!(sorted_order(&vec![5, 2, 5, 0, 2]), vec![3, 1, 4, 0, 2]);
    assert_eq!(sorted_order(&vec![]), Vec::<usize>::new());
    assert!(!can_delete_keyframe(1));
    assert!(can_delete_keyframe(2));
}
