use fg_editor::animations::{find_by_name, AnimationsUi};
use fg_editor::attacks::AttackInfo;
use fg_editor::editor::{finish, GameEditor, Finish, MessageData, Mode, Status, Transition};
use fg_editor::hitboxes::{delete_selected_box, AttackData, Hitbox, HitboxSet, HitboxSetUi};
use fg_editor::instance::{available_properties, reselect};
use fg_editor::playback::{frames_since, shown_frame, spawns_to_mark, Playback};
use fg_editor::states::Animation;

fn s(x: &str) -> String {
    x.to_string()
}

#[test]
fn delete_box_moves_selection() {
    let mut boxes = vec![Hitbox::new(), Hitbox::new(), Hitbox::new()];
    let mut current = Some(2);
    delete_selected_box(&mut boxes, &mut current);
    assert_eq!(boxes.len(), 2);
    assert_eq!(current, Some(1));
    current = Some(0);
    delete_selected_box(&mut boxes, &mut current);
    assert_eq!(current, Some(0));
    delete_selected_box(&mut boxes, &mut current);
    assert!(boxes.is_empty());
    assert_eq!(current, None);
    delete_selected_box(&mut boxes, &mut current);
    assert_eq!(current, None);
}

#[test]
fn hitbox_set_ui_hurtboxes_and_attack() {
    let mut data: HitboxSet<String> = HitboxSet { collision: Hitbox::new(), hurtbox: vec![], hitbox: None };
    let mut ui = HitboxSetUi::new();
    ui.add_hurtbox(&mut data);
    ui.add_hurtbox(&mut data);
    ui.select_hurtbox(Some(1));
    ui.delete_hurtbox(&mut data);
    assert_eq!(data.hurtbox.len(), 1);
    ui.create_attack(&mut data, &vec![]);
    assert!(data.hitbox.is_none());
    ui.create_attack(&mut data, &vec![s("5a"), s("2b")]);
    let attack = data.hitbox.as_mut().unwrap();
    assert_eq!(attack.data_id, "5a");
    assert_eq!(attack.id, 0);
    ui.add_attack_box(attack);
    ui.select_attack_box(Some(0));
    ui.delete_attack_box(attack);
    assert!(attack.boxes.is_empty());
    ui.remove_attack(&mut data);
    assert!(data.hitbox.is_none());
    let a = AttackData::new(3u32);
    assert_eq!(a.data_id, 3);
}

#[test]
fn editor_stack_push_pop_and_messages() {
    let mut stack = GameEditor::new("menu");
    assert!(!stack.is_empty());
    assert!(stack.apply(Transition::Push(Box::new("character"), Mode::Standalone)).is_none());
    assert!(stack.apply(Transition::Push(Box::new("attack"), Mode::Edit(s("5a")))).is_none());
    assert_eq!(stack.top(), Some(&"attack"));
    let msg = stack.apply(Transition::Pop(Some(MessageData::AttackInfo(AttackInfo::default()))));
    match msg {
        Some((MessageData::AttackInfo(_), Mode::Edit(name))) => assert_eq!(name, "5a"),
        _ => panic!("expected the attack and its mode"),
    }
    assert_eq!(stack.top(), Some(&"character"));
    assert!(stack.apply(Transition::NoChange).is_none());
    assert!(stack.apply(Transition::Pop(None)).is_none());
    assert!(stack.apply(Transition::Pop(None)).is_none());
    assert!(stack.is_empty());
    assert_eq!(stack.top(), None);
}

#[test]
fn finish_statuses() {
    let mut st = Status::DoneAndSave;
    assert_eq!(finish(&mut st), Finish::SaveAndClose);
    assert_eq!(st, Status::NotDone);
    assert_eq!(finish(&mut st), Finish::Stay);
    let mut q = Status::DoneAndQuit;
    assert_eq!(finish(&mut q), Finish::Close);
}

#[test]
fn playback_loops_and_stops() {
    let mut p = Playback::new();
    for _ in 0..7 {
        p.tick(3);
    }
    assert_eq!(p.frame, 1);
    p.seek(2);
    assert!(!p.is_playing);
    p.tick(3);
    assert_eq!(p.frame, 2);
    p.play();
    p.tick(3);
    assert_eq!(p.frame, 0);
    p.tick(0);
    assert_eq!(p.frame, 0);
    p.stop();
    assert!(!p.is_playing);
}

#[test]
fn preview_frames() {
    assert_eq!(shown_frame(10, 4), Some(2));
    assert_eq!(shown_frame(3, 0), None);
    assert_eq!(shown_frame(usize::MAX, 1), Some(0));
}

#[test]
fn spawn_frames() {
    assert_eq!(frames_since(10, 4), Some(6));
    assert_eq!(frames_since(3, 4), None);
    let frames = vec![2, 5, 2, 7];
    assert_eq!(spawns_to_mark(&frames, 2, false), vec![0, 2]);
    assert_eq!(spawns_to_mark(&frames, 3, false), Vec::<usize>::new());
    assert_eq!(spawns_to_mark(&frames, 3, true), vec![0, 1, 2, 3]);
}

#[test]
fn instance_properties_available() {
    let all = vec![1, 2, 3, 4];
    let avail = available_properties(&all, &vec![2, 4]);
    assert_eq!(avail, vec![1, 3]);
    assert_eq!(reselect(&avail, 3), 3);
    assert_eq!(reselect(&avail, 2), 1);
    assert_eq!(reselect(&vec![], 2), 2);
}

#[test]
fn animation_list_form() {
    let mut data = vec![Animation::new("idle")];
    let mut ui = AnimationsUi::new();
    assert_eq!(ui.edit(&data), None);
    ui.add_new(&mut data);
    assert_eq!(data[1].name, "new");
    ui.select(Some(1));
    assert_eq!(ui.current(&data), Some(1));
    assert_eq!(ui.edit(&data), Some(s("new")));
    ui.add_loaded(&mut data, Animation::new("run"));
    ui.delete(&mut data);
    assert_eq!(data.iter().map(|a| a.name.clone()).collect::<Vec<_>>(), vec![s("idle"), s("run")]);
    assert_eq!(find_by_name(&data, &s("run")), Some(1));
    assert_eq!(find_by_name(&data, &s("new")), None);
    ui.select(Some(5));
    assert_eq!(ui.current(&data), None);
}
