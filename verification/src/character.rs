//! A character as the character editor edits it, and what opening the
//! editor does to it.

use crate::attacks::{default_attack_info, AttackInfo, Attacks};
use crate::commands::{Command, Input, MoveId};
use crate::keyed::KeyedMap;
use crate::moves::{lemma_ground_variants_idempotent, with_ground_variants};
use crate::names::views;
use crate::particles::Particles;
use crate::cancels::CancelSet;
use crate::states::{
    build_command_list, command_map_view, commands_of, grounded_cancel, grounded_state, is_blank_state,
    is_command_map, lemma_command_map_view, lemma_commands_of_same_needs, listed_with_moves, moves_have_states,
    Animation, CharacterState, EditorStates,
};
use vstd::prelude::*;

verus! {

/// The animations that make up one graphic.
pub struct AnimationGroup {
    pub animations: Vec<Animation>,
}

impl AnimationGroup {
    /// A graphic with no animation.
    pub fn new() -> (r: Self)
        ensures
            r.animations@.len() == 0,
    {
        AnimationGroup { animations: Vec::new() }
    }
}

/// A character: its states, attacks, particles, graphics, and the commands
/// of each input.
pub struct PlayerCharacter {
    pub states: EditorStates,
    pub attacks: Attacks,
    pub particles: Particles,
    pub graphics: KeyedMap<AnimationGroup>,
    pub commands: Vec<(Input, Vec<Command>)>,
}

/// `after` is `before` once the character editor was entered with command
/// list `list`: each state has its cancel sets grounded and nothing else
/// changed, the commands are the command map of the list over the states
/// as they were, and the rest of the character is untouched.
pub open spec fn entered(before: PlayerCharacter, after: PlayerCharacter, list: Seq<(Input, Vec<MoveId>)>) -> bool {
    &&& after.states.wf()
    &&& after.states.rest.key_seq() == before.states.rest.key_seq()
    &&& after.states.rest.value_seq().len() == before.states.rest.value_seq().len()
    &&& forall|i: int|
        0 <= i < before.states.rest.value_seq().len() ==> grounded_state(
            #[trigger] before.states.rest.value_seq()[i],
            after.states.rest.value_seq()[i],
        )
    &&& after.states.rest.as_map().dom() == before.states.rest.as_map().dom()
    &&& forall|k: Seq<char>|
        #[trigger] before.states.rest.as_map().contains_key(k) ==> grounded_state(
            before.states.rest.as_map()[k],
            after.states.rest.as_map()[k],
        )
    &&& is_command_map(after.commands@, list, before.states.rest.as_map())
    &&& after.attacks == before.attacks
    &&& after.particles == before.particles
    &&& after.graphics == before.graphics
}

/// Two cancel sets allow the same kinds and forbid the same states.
pub open spec fn same_cancel(a: CancelSet, b: CancelSet) -> bool {
    &&& a.hit@ == b.hit@
    &&& a.always@ == b.always@
    &&& a.block@ == b.block@
    &&& a.disallow == b.disallow
}

/// Two states agree in every field, their cancel sets as sets.
pub open spec fn same_state(a: CharacterState, b: CharacterState) -> bool {
    &&& a.cancels@.len() == b.cancels@.len()
    &&& forall|j: int| 0 <= j < a.cancels@.len() ==> same_cancel(#[trigger] a.cancels@[j], b.cancels@[j])
    &&& a.state_type == b.state_type
    &&& a.minimum_meter_required == b.minimum_meter_required
    &&& a.minimum_spirit_required == b.minimum_spirit_required
    &&& a.duration == b.duration
    &&& a.animations == b.animations
    &&& a.particles == b.particles
    &&& a.bullets == b.bullets
    &&& a.on_expire == b.on_expire
}

/// Two characters agree: the same states under the same names in the same
/// order, the same attacks, particles and graphics, and the same commands
/// under each input.
pub open spec fn same_character(p: PlayerCharacter, q: PlayerCharacter) -> bool {
    &&& p.states.rest.key_seq() == q.states.rest.key_seq()
    &&& p.states.rest.value_seq().len() == q.states.rest.value_seq().len()
    &&& forall|i: int|
        0 <= i < p.states.rest.value_seq().len() ==> same_state(
            #[trigger] p.states.rest.value_seq()[i],
            q.states.rest.value_seq()[i],
        )
    &&& p.states.rest.as_map().dom() == q.states.rest.as_map().dom()
    &&& forall|k: Seq<char>|
        #[trigger] p.states.rest.as_map().contains_key(k) ==> same_state(
            p.states.rest.as_map()[k],
            q.states.rest.as_map()[k],
        )
    &&& p.attacks == q.attacks
    &&& p.particles == q.particles
    &&& p.graphics == q.graphics
    &&& command_map_view(p.commands@) == command_map_view(q.commands@)
}

/// A state grounded a second time is the state grounded once.
proof fn lemma_state_grounded_twice(a: CharacterState, b: CharacterState, c: CharacterState)
    requires
        grounded_state(a, b),
        grounded_state(b, c),
    ensures
        same_state(b, c),
{
    assert forall|j: int| 0 <= j < b.cancels@.len() implies same_cancel(#[trigger] b.cancels@[j], c.cancels@[j]) by {
        lemma_grounding_twice_is_grounding_once(a.cancels@[j], b.cancels@[j], c.cancels@[j]);
    }
}

/// Entering the character editor a second time with the same command list
/// gives the same character as entering it once.
pub proof fn lemma_entering_twice_is_entering_once(
    p0: PlayerCharacter,
    p1: PlayerCharacter,
    p2: PlayerCharacter,
    list: Seq<(Input, Vec<MoveId>)>,
)
    requires
        p0.states.wf(),
        moves_have_states(list, p0.states),
        entered(p0, p1, list),
        entered(p1, p2, list),
    ensures
        same_character(p1, p2),
{
    let s0 = p0.states.rest.as_map();
    let s1 = p1.states.rest.as_map();
    assert forall|i: int| 0 <= i < p1.states.rest.value_seq().len() implies same_state(
        #[trigger] p1.states.rest.value_seq()[i],
        p2.states.rest.value_seq()[i],
    ) by {
        lemma_state_grounded_twice(p0.states.rest.value_seq()[i], p1.states.rest.value_seq()[i], p2.states.rest.value_seq()[i]);
    }
    assert forall|k: Seq<char>| #[trigger] s1.contains_key(k) implies same_state(s1[k], p2.states.rest.as_map()[k]) by {
        assert(s0.contains_key(k));
        lemma_state_grounded_twice(s0[k], s1[k], p2.states.rest.as_map()[k]);
    }
    lemma_command_map_view(p1.commands@, list, s0);
    lemma_command_map_view(p2.commands@, list, s1);
    assert forall|k: Input| #[trigger] commands_of(list, s0, k) == commands_of(list, s1, k) by {
        lemma_commands_of_same_needs(list, s0, s1, k);
    }
    assert(Map::new(|k: Input| listed_with_moves(list, k), |k: Input| commands_of(list, s0, k)) =~= Map::new(
        |k: Input| listed_with_moves(list, k),
        |k: Input| commands_of(list, s1, k),
    ));
}

impl PlayerCharacter {
    /// Opening the editor: every cancel set also allows the ground kind of
    /// each airborne kind it allows, and the commands are rebuilt from the
    /// command list, by input.
    pub fn prepare_for_editing(&mut self, command_list: Vec<(Input, Vec<MoveId>)>)
        requires
            old(self).states.wf(),
            moves_have_states(command_list@, old(self).states),
        ensures
            entered(*old(self), *final(self), command_list@),
    {
        let commands = build_command_list(command_list, &self.states);
        self.states.add_ground_cancels();
        self.commands = commands;
    }

    /// The graphics list keeps only the graphics the character names.
    pub fn keep_graphics(&mut self, graphic_names: &Vec<String>)
        requires
            old(self).graphics.wf(),
        ensures
            final(self).graphics.wf(),
            final(self).graphics.as_map() == old(self).graphics.as_map().restrict(
                views(graphic_names@).to_set(),
            ),
            final(self).states == old(self).states,
            final(self).attacks == old(self).attacks,
            final(self).particles == old(self).particles,
            final(self).commands == old(self).commands,
    {
        self.graphics.retain_keys(graphic_names);
    }

    /// "Edit" beside a graphic: the graphic exists from now on, empty if it
    /// was missing.
    pub fn open_graphic(&mut self, key: String)
        requires
            old(self).graphics.wf(),
        ensures
            final(self).graphics.wf(),
            final(self).graphics.as_map().dom() == old(self).graphics.as_map().dom().insert(key@),
            old(self).graphics.as_map().contains_key(key@) ==> final(self).graphics.as_map() == old(
                self,
            ).graphics.as_map(),
            !old(self).graphics.as_map().contains_key(key@) ==> final(self).graphics.as_map()[key@].animations@.len()
                == 0,
            !old(self).graphics.as_map().contains_key(key@) ==> final(self).graphics.as_map().remove(key@)
                == old(self).graphics.as_map(),
            final(self).states == old(self).states,
            final(self).attacks == old(self).attacks,
            final(self).particles == old(self).particles,
            final(self).commands == old(self).commands,
    {
        let ghost before = self.graphics.as_map();
        let empty = AnimationGroup::new();
        self.graphics.ensure_key(key, empty);
        proof {
            if before.contains_key(key@) {
                assert(self.graphics.as_map().dom() =~= before.dom().insert(key@));
            } else {
                assert(self.graphics.as_map().dom() =~= before.dom().insert(key@));
                assert(self.graphics.as_map().remove(key@) =~= before);
            }
        }
    }
}

/// `new` has every key of `old` with the same value, and also each key in
/// `keys`; `blank` holds of the value under each key that was missing.
pub open spec fn opened_all<V>(
    old: Map<Seq<char>, V>,
    new: Map<Seq<char>, V>,
    keys: Set<Seq<char>>,
    blank: spec_fn(V) -> bool,
) -> bool {
    &&& new.dom() == old.dom().union(keys)
    &&& forall|k: Seq<char>| #[trigger] old.contains_key(k) ==> new[k] == old[k]
    &&& forall|k: Seq<char>| #[trigger] new.contains_key(k) && !old.contains_key(k) ==> blank(new[k])
}

proof fn lemma_opened_one_more<V>(
    orig: Map<Seq<char>, V>,
    cur: Map<Seq<char>, V>,
    next: Map<Seq<char>, V>,
    done: Seq<Seq<char>>,
    k: Seq<char>,
    v: V,
    blank: spec_fn(V) -> bool,
)
    requires
        opened_all(orig, cur, done.to_set(), blank),
        cur.contains_key(k) ==> next == cur,
        !cur.contains_key(k) ==> next == cur.insert(k, v) && blank(v),
    ensures
        opened_all(orig, next, done.push(k).to_set(), blank),
{
    done.lemma_push_to_set_commute(k);
    assert(next.dom() =~= orig.dom().union(done.push(k).to_set()));
}

impl PlayerCharacter {
    /// Every state the character type names exists; a missing one starts
    /// blank.
    pub fn open_all_states(&mut self, names: &Vec<String>)
        requires
            old(self).states.rest.wf(),
        ensures
            final(self).states.rest.wf(),
            opened_all(
                old(self).states.rest.as_map(),
                final(self).states.rest.as_map(),
                views(names@).to_set(),
                |s: CharacterState| is_blank_state(s),
            ),
            old(self).states.wf() ==> final(self).states.wf(),
            final(self).attacks == old(self).attacks,
            final(self).graphics == old(self).graphics,
            final(self).particles == old(self).particles,
            final(self).commands == old(self).commands,
    {
        let ghost orig = self.states.rest.as_map();
        let ghost blank = |s: CharacterState| is_blank_state(s);
        let mut i: usize = 0;
        proof {
            assert(views(names@).subrange(0, 0).to_set() =~= Set::<Seq<char>>::empty());
            assert(orig.dom().union(Set::<Seq<char>>::empty()) =~= orig.dom());
        }
        while i < names.len()
            invariant
                i <= names.len(),
                self.states.rest.wf(),
                self.attacks == old(self).attacks,
                self.graphics == old(self).graphics,
                self.particles == old(self).particles,
                self.commands == old(self).commands,
                blank == (|s: CharacterState| is_blank_state(s)),
                opened_all(orig, self.states.rest.as_map(), views(names@).subrange(0, i as int).to_set(), blank),
            decreases names.len() - i,
        {
            let ghost cur = self.states.rest.as_map();
            let fresh = CharacterState::new();
            let ghost v = fresh;
            self.states.rest.ensure_key(names[i].clone(), fresh);
            proof {
                assert(views(names@)[i as int] == names@[i as int]@);
                assert(views(names@).subrange(0, i + 1) =~= views(names@).subrange(0, i as int).push(names@[i as int]@));
                lemma_opened_one_more(orig, cur, self.states.rest.as_map(), views(names@).subrange(0, i as int), names@[i as int]@, v, blank);
            }
            i = i + 1;
        }
        proof {
            assert(views(names@).subrange(0, i as int) =~= views(names@));
            if old(self).states.wf() {
                let m = self.states.rest.as_map();
                assert forall|q: Seq<char>| #[trigger] m.contains_key(q) implies m[q].wf() by {
                    if orig.contains_key(q) {
                        assert(old(self).states.rest.as_map().contains_key(q));
                    } else {
                        assert(blank(m[q]));
                    }
                }
            }
        }
    }

    /// Every graphic the character type names exists; a missing one starts
    /// with no animation.
    pub fn open_all_graphics(&mut self, names: &Vec<String>)
        requires
            old(self).graphics.wf(),
        ensures
            final(self).graphics.wf(),
            opened_all(
                old(self).graphics.as_map(),
                final(self).graphics.as_map(),
                views(names@).to_set(),
                |g: AnimationGroup| g.animations@.len() == 0,
            ),
            final(self).attacks == old(self).attacks,
            final(self).states == old(self).states,
            final(self).particles == old(self).particles,
            final(self).commands == old(self).commands,
    {
        let ghost orig = self.graphics.as_map();
        let ghost blank = |g: AnimationGroup| g.animations@.len() == 0;
        let mut i: usize = 0;
        proof {
            assert(views(names@).subrange(0, 0).to_set() =~= Set::<Seq<char>>::empty());
            assert(orig.dom().union(Set::<Seq<char>>::empty()) =~= orig.dom());
        }
        while i < names.len()
            invariant
                i <= names.len(),
                self.graphics.wf(),
                self.attacks == old(self).attacks,
                self.states == old(self).states,
                self.particles == old(self).particles,
                self.commands == old(self).commands,
                blank == (|g: AnimationGroup| g.animations@.len() == 0),
                opened_all(orig, self.graphics.as_map(), views(names@).subrange(0, i as int).to_set(), blank),
            decreases names.len() - i,
        {
            let ghost cur = self.graphics.as_map();
            let fresh = AnimationGroup::new();
            let ghost v = fresh;
            self.graphics.ensure_key(names[i].clone(), fresh);
            proof {
                assert(views(names@)[i as int] == names@[i as int]@);
                assert(views(names@).subrange(0, i + 1) =~= views(names@).subrange(0, i as int).push(names@[i as int]@));
                lemma_opened_one_more(orig, cur, self.graphics.as_map(), views(names@).subrange(0, i as int), names@[i as int]@, v, blank);
            }
            i = i + 1;
        }
        proof {
            assert(views(names@).subrange(0, i as int) =~= views(names@));
        }
    }

    /// Every attack the character type names exists; a missing one starts
    /// blank.
    pub fn open_all_attacks(&mut self, names: &Vec<String>)
        requires
            old(self).attacks.attacks.wf(),
        ensures
            final(self).attacks.attacks.wf(),
            opened_all(
                old(self).attacks.attacks.as_map(),
                final(self).attacks.attacks.as_map(),
                views(names@).to_set(),
                |a: AttackInfo| a == default_attack_info(),
            ),
            final(self).graphics == old(self).graphics,
            final(self).states == old(self).states,
            final(self).particles == old(self).particles,
            final(self).commands == old(self).commands,
    {
        let ghost orig = self.attacks.attacks.as_map();
        let ghost blank = |a: AttackInfo| a == default_attack_info();
        let mut i: usize = 0;
        proof {
            assert(views(names@).subrange(0, 0).to_set() =~= Set::<Seq<char>>::empty());
            assert(orig.dom().union(Set::<Seq<char>>::empty()) =~= orig.dom());
        }
        while i < names.len()
            invariant
                i <= names.len(),
                self.attacks.attacks.wf(),
                self.graphics == old(self).graphics,
                self.states == old(self).states,
                self.particles == old(self).particles,
                self.commands == old(self).commands,
                blank == (|a: AttackInfo| a == default_attack_info()),
                opened_all(orig, self.attacks.attacks.as_map(), views(names@).subrange(0, i as int).to_set(), blank),
            decreases names.len() - i,
        {
            let ghost cur = self.attacks.attacks.as_map();
            let fresh = AttackInfo::default();
            self.attacks.attacks.ensure_key(names[i].clone(), fresh);
            proof {
                assert(views(names@)[i as int] == names@[i as int]@);
                assert(views(names@).subrange(0, i + 1) =~= views(names@).subrange(0, i as int).push(names@[i as int]@));
                lemma_opened_one_more(orig, cur, self.attacks.attacks.as_map(), views(names@).subrange(0, i as int), names@[i as int]@, fresh, blank);
            }
            i = i + 1;
        }
        proof {
            assert(views(names@).subrange(0, i as int) =~= views(names@));
        }
    }
}

/// Opening the editor again changes no cancel set: grounding a grounded
/// cancel set gives the same kinds back.
pub proof fn lemma_grounding_twice_is_grounding_once(a: CancelSet, b: CancelSet, c: CancelSet)
    requires
        grounded_cancel(a, b),
        grounded_cancel(b, c),
    ensures
        c.hit@ == b.hit@,
        c.always@ == b.always@,
        c.block@ == b.block@,
        c.disallow == b.disallow,
{
    lemma_ground_variants_idempotent(a.hit@);
    lemma_ground_variants_idempotent(a.always@);
    lemma_ground_variants_idempotent(a.block@);
}

} // verus!
