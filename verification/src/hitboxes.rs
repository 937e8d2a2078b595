//! Hitboxes of a state's frames and the form that edits them: lists of
//! boxes with a selected box that stays valid through adds and deletes.

use crate::attacks::Vec2i;
use vstd::prelude::*;

verus! {

/// An axis-aligned box: its center and half its size.
#[derive(Clone, Copy, Debug, PartialEq, Eq, Structural)]
pub struct Hitbox {
    pub center: Vec2i,
    pub half_size: Vec2i,
}

/// The box a new hitbox starts as: empty, at the origin.
pub open spec fn new_hitbox() -> Hitbox {
    Hitbox { center: Vec2i { x: 0, y: 0 }, half_size: Vec2i { x: 0, y: 0 } }
}

impl Hitbox {
    pub fn new() -> (r: Self)
        ensures
            r == new_hitbox(),
    {
        Hitbox { center: Vec2i { x: 0, y: 0 }, half_size: Vec2i { x: 0, y: 0 } }
    }
}

impl Default for Hitbox {
    /// The empty box at the origin.
    fn default() -> (r: Self)
        ensures
            r == new_hitbox(),
    {
        Hitbox::new()
    }
}

/// The boxes of an attack, and which attack they carry.
#[derive(Clone, Debug, PartialEq, Eq)]
pub struct AttackData<C> {
    pub id: usize,
    pub boxes: Vec<Hitbox>,
    pub data_id: C,
}

impl<C> AttackData<C> {
    /// An attack with no boxes that carries `data_id`.
    pub fn new(data_id: C) -> (r: Self)
        ensures
            r.id == 0,
            r.boxes@ == Seq::<Hitbox>::empty(),
            r.data_id == data_id,
    {
        AttackData { id: 0, boxes: Vec::new(), data_id }
    }
}

impl<C: Default> Default for AttackData<C> {
    /// Attack 0 with no boxes, carrying the default data id.
    fn default() -> (r: Self)
        ensures
            r.id == 0,
            r.boxes@ == Seq::<Hitbox>::empty(),
            call_ensures(C::default, (), r.data_id),
    {
        AttackData::new(C::default())
    }
}

/// The boxes of one span of frames: the box the body collides with, the
/// boxes that can be hurt, and the attack, if any.
#[derive(Clone, Debug, PartialEq, Eq)]
pub struct HitboxSet<C> {
    pub collision: Hitbox,
    pub hurtbox: Vec<Hitbox>,
    pub hitbox: Option<AttackData<C>>,
}

impl<C> HitboxSet<C> {
    /// Frames with an empty collision box, no hurtbox and no attack.
    pub fn new() -> (r: Self)
        ensures
            r.collision == new_hitbox(),
            r.hurtbox@ == Seq::<Hitbox>::empty(),
            r.hitbox is None,
    {
        HitboxSet { collision: Hitbox::new(), hurtbox: Vec::new(), hitbox: None }
    }
}

impl<C> Default for HitboxSet<C> {
    /// Frames with an empty collision box, no hurtbox and no attack.
    fn default() -> (r: Self)
        ensures
            r.collision == new_hitbox(),
            r.hurtbox@ == Seq::<Hitbox>::empty(),
            r.hitbox is None,
    {
        HitboxSet::new()
    }
}

/// A selection is valid when nothing or an existing entry is selected.
pub open spec fn selection_valid(current: Option<usize>, len: nat) -> bool {
    match current {
        Some(i) => i < len,
        None => true,
    }
}

/// Where the selection goes when entry `idx` is deleted from a list that
/// then has `len` entries: nowhere when the list is empty, else the same
/// index, or the last entry when the deleted one was last.
pub open spec fn selection_after_delete(idx: nat, len: nat) -> Option<usize> {
    if len == 0 {
        None
    } else if idx < len {
        Some(idx as usize)
    } else {
        Some((len - 1) as usize)
    }
}

/// Deleting the selected box moves the selection to the box that followed
/// it, or to the new last box when the last one was deleted; deleting the
/// only box leaves nothing selected.
pub proof fn lemma_selection_after_delete_follows(boxes: Seq<Hitbox>, idx: int)
    requires
        0 <= idx < boxes.len(),
    ensures
        boxes.len() == 1 ==> selection_after_delete(idx as nat, boxes.remove(idx).len()) is None,
        idx + 1 < boxes.len() ==> selection_after_delete(idx as nat, boxes.remove(idx).len()) == Some(
            idx as usize,
        ) && boxes.remove(idx)[idx] == boxes[idx + 1],
        idx + 1 == boxes.len() && boxes.len() > 1 ==> selection_after_delete(
            idx as nat,
            boxes.remove(idx).len(),
        ) == Some((idx - 1) as usize) && boxes.remove(idx)[idx - 1] == boxes[idx - 1],
{
}

/// "Add": appends a new box; the selection stays.
pub fn add_box(boxes: &mut Vec<Hitbox>, current: &Option<usize>)
    ensures
        final(boxes)@ == old(boxes)@.push(new_hitbox()),
        selection_valid(*current, old(boxes)@.len()) ==> selection_valid(*current, final(boxes)@.len()),
{
    boxes.push(Hitbox::new());
}

/// "Delete": removes the selected box and moves the selection as
/// `selection_after_delete` says; with nothing selected, nothing changes.
pub fn delete_selected_box(boxes: &mut Vec<Hitbox>, current: &mut Option<usize>)
    requires
        selection_valid(*old(current), old(boxes)@.len()),
    ensures
        match *old(current) {
            Some(idx) => {
                &&& final(boxes)@ == old(boxes)@.remove(idx as int)
                &&& *final(current) == selection_after_delete(idx as nat, final(boxes)@.len())
            },
            None => final(boxes)@ == old(boxes)@ && *final(current) == None::<usize>,
        },
        selection_valid(*final(current), final(boxes)@.len()),
{
    if let Some(idx) = *current {
        boxes.remove(idx);
        if boxes.len() == 0 {
            *current = None;
        } else {
            let last = boxes.len() - 1;
            *current = Some(if last < idx { last } else { idx });
        }
    }
}

/// Which hurtbox and which attack box the hitbox form has selected.
pub struct HitboxSetUi {
    current_hurtbox: Option<usize>,
    current_attack: Option<usize>,
}

impl HitboxSetUi {
    pub closed spec fn selected_hurtbox(&self) -> Option<usize> {
        self.current_hurtbox
    }

    pub closed spec fn selected_attack_box(&self) -> Option<usize> {
        self.current_attack
    }

    /// The selected hurtbox.
    pub fn current_hurtbox(&self) -> (r: Option<usize>)
        ensures
            r == self.selected_hurtbox(),
    {
        self.current_hurtbox
    }

    /// The selected box of the attack.
    pub fn current_attack_box(&self) -> (r: Option<usize>)
        ensures
            r == self.selected_attack_box(),
    {
        self.current_attack
    }

    /// Nothing selected.
    pub fn new() -> (r: Self)
        ensures
            r.selected_hurtbox() == None::<usize>,
            r.selected_attack_box() == None::<usize>,
    {
        HitboxSetUi { current_hurtbox: None, current_attack: None }
    }

    /// The form's selections point at existing boxes of `data`.
    pub open spec fn valid_for<C>(&self, data: HitboxSet<C>) -> bool {
        &&& selection_valid(self.selected_hurtbox(), data.hurtbox@.len())
        &&& match data.hitbox {
            Some(a) => selection_valid(self.selected_attack_box(), a.boxes@.len()),
            None => true,
        }
    }

    /// Selects hurtbox `idx`.
    pub fn select_hurtbox(&mut self, idx: Option<usize>)
        ensures
            final(self).selected_hurtbox() == idx,
            final(self).selected_attack_box() == old(self).selected_attack_box(),
    {
        self.current_hurtbox = idx;
    }

    /// Selects box `idx` of the attack.
    pub fn select_attack_box(&mut self, idx: Option<usize>)
        ensures
            final(self).selected_attack_box() == idx,
            final(self).selected_hurtbox() == old(self).selected_hurtbox(),
    {
        self.current_attack = idx;
    }

    /// "Add" under the hurtboxes.
    pub fn add_hurtbox<C>(&self, data: &mut HitboxSet<C>)
        ensures
            final(data).hurtbox@ == old(data).hurtbox@.push(new_hitbox()),
            final(data).collision == old(data).collision,
            final(data).hitbox == old(data).hitbox,
            self.valid_for(*old(data)) ==> self.valid_for(*final(data)),
    {
        add_box(&mut data.hurtbox, &self.current_hurtbox);
    }

    /// "Delete" under the hurtboxes: removes the selected hurtbox.
    pub fn delete_hurtbox<C>(&mut self, data: &mut HitboxSet<C>)
        requires
            selection_valid(old(self).selected_hurtbox(), old(data).hurtbox@.len()),
        ensures
            match old(self).selected_hurtbox() {
                Some(idx) => {
                    &&& final(data).hurtbox@ == old(data).hurtbox@.remove(idx as int)
                    &&& final(self).selected_hurtbox() == selection_after_delete(
                        idx as nat,
                        final(data).hurtbox@.len(),
                    )
                },
                None => final(data).hurtbox@ == old(data).hurtbox@ && final(self).selected_hurtbox()
                    == None::<usize>,
            },
            final(data).collision == old(data).collision,
            final(data).hitbox == old(data).hitbox,
            final(self).selected_attack_box() == old(self).selected_attack_box(),
            old(self).valid_for(*old(data)) ==> final(self).valid_for(*final(data)),
    {
        delete_selected_box(&mut data.hurtbox, &mut self.current_hurtbox);
    }

    /// "Remove Attack": the frames no longer attack.
    pub fn remove_attack<C>(&mut self, data: &mut HitboxSet<C>)
        ensures
            final(data).hitbox is None,
            final(data).collision == old(data).collision,
            final(data).hurtbox == old(data).hurtbox,
            final(self).selected_attack_box() == None::<usize>,
            final(self).selected_hurtbox() == old(self).selected_hurtbox(),
            old(self).valid_for(*old(data)) ==> final(self).valid_for(*final(data)),
    {
        data.hitbox = None;
        self.current_attack = None;
    }

    /// "Create Attack": the frames attack with the first attack of
    /// `attack_ids`; with no attack to choose, nothing changes.
    pub fn create_attack(&self, data: &mut HitboxSet<String>, attack_ids: &Vec<String>)
        requires
            old(data).hitbox is None,
        ensures
            attack_ids@.len() > 0 ==> (final(data).hitbox matches Some(a) && a.id == 0 && a.boxes@.len() == 0
                && a.data_id@ == attack_ids@[0]@),
            attack_ids@.len() == 0 ==> final(data).hitbox is None,
            final(data).collision == old(data).collision,
            final(data).hurtbox == old(data).hurtbox,
            self.valid_for(*old(data)) && (self.selected_attack_box() is None || attack_ids@.len() == 0)
                ==> self.valid_for(*final(data)),
    {
        if attack_ids.len() > 0 {
            data.hitbox = Some(AttackData::new(attack_ids[0].clone()));
        }
    }

    /// "Add" under the attack's boxes.
    pub fn add_attack_box<C>(&self, attack: &mut AttackData<C>)
        ensures
            final(attack).boxes@ == old(attack).boxes@.push(new_hitbox()),
            final(attack).id == old(attack).id,
            final(attack).data_id == old(attack).data_id,
            selection_valid(self.selected_attack_box(), old(attack).boxes@.len()) ==> selection_valid(
                self.selected_attack_box(),
                final(attack).boxes@.len(),
            ),
    {
        add_box(&mut attack.boxes, &self.current_attack);
    }

    /// "Delete" under the attack's boxes: removes the selected box.
    pub fn delete_attack_box<C>(&mut self, attack: &mut AttackData<C>)
        requires
            selection_valid(old(self).selected_attack_box(), old(attack).boxes@.len()),
        ensures
            match old(self).selected_attack_box() {
                Some(idx) => {
                    &&& final(attack).boxes@ == old(attack).boxes@.remove(idx as int)
                    &&& final(self).selected_attack_box() == selection_after_delete(
                        idx as nat,
                        final(attack).boxes@.len(),
                    )
                },
                None => final(attack).boxes@ == old(attack).boxes@ && final(self).selected_attack_box()
                    == None::<usize>,
            },
            final(attack).id == old(attack).id,
            final(attack).data_id == old(attack).data_id,
            final(self).selected_hurtbox() == old(self).selected_hurtbox(),
            selection_valid(final(self).selected_attack_box(), final(attack).boxes@.len()),
    {
        delete_selected_box(&mut attack.boxes, &mut self.current_attack);
    }
}

/// Deleting the selected entry of a list and then adding one keeps the
/// selection on an existing entry, whatever the list held.
pub proof fn lemma_selection_stays_valid(idx: nat, len_after_delete: nat)
    ensures
        selection_valid(selection_after_delete(idx, len_after_delete), len_after_delete),
        selection_valid(selection_after_delete(idx, len_after_delete), len_after_delete + 1),
{
}

} // verus!
