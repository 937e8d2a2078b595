//! The states of a character, the list of state names the editor shows,
//! and what entering the character editor does to them.

use crate::attacks::Vec2i;
use crate::bullets::BulletSpawn;
use crate::cancels::CancelSet;
use crate::commands::{command_for_move, command_spec, file_name_of, Command, CommandView, Input, MoveId};
use crate::keyed::KeyedMap;
use crate::moves::{with_ground_variants, MoveType};
use crate::name_index::{add_first, delete_named, rename_named, renamed, tracks_keys, without_name};
use crate::names::{sorted_names, views};
use crate::unique::first_free_key;
use vstd::prelude::*;
use vstd::string::StringExecFns;

verus! {

/// A named animation and its length in frames.
#[derive(Clone, Debug)]
pub struct Animation {
    pub name: String,
    pub delay: usize,
    pub duration: usize,
}

impl Animation {
    /// An animation called `name` with no frames.
    pub fn new(name: &str) -> (r: Self)
        ensures
            r.name@ == name@,
            r.delay == 0,
            r.duration == 0,
    {
        Animation { name: String::from_str(name), delay: 0, duration: 0 }
    }
}

/// A particle a state spawns at `frame`, at `offset`.
#[derive(Clone, Debug)]
pub struct ParticleSpawn {
    pub particle_id: String,
    pub frame: usize,
    pub offset: Vec2i,
}

/// The state a state goes on to when it runs out.
#[derive(Clone, Debug)]
pub struct OnExpire {
    pub state_id: String,
    pub frame: usize,
}

/// One state of a character.
pub struct CharacterState {
    pub state_type: MoveType,
    pub minimum_meter_required: i32,
    pub minimum_spirit_required: i32,
    pub duration: usize,
    /// The cancel set of each span of frames.
    pub cancels: Vec<CancelSet>,
    pub animations: Vec<Animation>,
    pub particles: Vec<ParticleSpawn>,
    pub bullets: Vec<BulletSpawn>,
    pub on_expire: OnExpire,
}

/// `s` is an idle state with nothing in it.
pub open spec fn is_blank_state(s: CharacterState) -> bool {
    &&& s.wf()
    &&& s.state_type == MoveType::Idle
    &&& s.minimum_meter_required == 0
    &&& s.minimum_spirit_required == 0
    &&& s.duration == 0
    &&& s.cancels@.len() == 0
    &&& s.animations@.len() == 0
    &&& s.particles@.len() == 0
    &&& s.bullets@.len() == 0
    &&& s.on_expire.state_id@ == Seq::<char>::empty()
    &&& s.on_expire.frame == 0
}

impl CharacterState {
    /// Every cancel set is well formed.
    pub open spec fn wf(&self) -> bool {
        forall|j: int| 0 <= j < self.cancels@.len() ==> #[trigger] self.cancels@[j].wf()
    }

    /// An idle state with nothing in it.
    pub fn new() -> (r: Self)
        ensures
            is_blank_state(r),
    {
        CharacterState {
            state_type: MoveType::Idle,
            minimum_meter_required: 0,
            minimum_spirit_required: 0,
            duration: 0,
            cancels: Vec::new(),
            animations: Vec::new(),
            particles: Vec::new(),
            bullets: Vec::new(),
            on_expire: OnExpire { state_id: String::new(), frame: 0 },
        }
    }
}

/// `b` is `a` with ground kinds added wherever airborne kinds may be
/// cancelled into.
pub open spec fn grounded_cancel(a: CancelSet, b: CancelSet) -> bool {
    &&& b.wf()
    &&& b.hit@ == with_ground_variants(a.hit@)
    &&& b.always@ == with_ground_variants(a.always@)
    &&& b.block@ == with_ground_variants(a.block@)
    &&& b.disallow == a.disallow
}

/// `b` is `a` with every cancel set grounded, and nothing else changed.
pub open spec fn grounded_state(a: CharacterState, b: CharacterState) -> bool {
    &&& b.cancels@.len() == a.cancels@.len()
    &&& forall|j: int| 0 <= j < a.cancels@.len() ==> grounded_cancel(#[trigger] a.cancels@[j], b.cancels@[j])
    &&& b.state_type == a.state_type
    &&& b.minimum_meter_required == a.minimum_meter_required
    &&& b.minimum_spirit_required == a.minimum_spirit_required
    &&& b.duration == a.duration
    &&& b.animations == a.animations
    &&& b.particles == a.particles
    &&& b.bullets == a.bullets
    &&& b.on_expire == a.on_expire
}

/// The states of a character, by name.
pub struct EditorStates {
    pub rest: KeyedMap<CharacterState>,
}

impl EditorStates {
    /// No name occurs twice and every state is well formed.
    pub open spec fn wf(&self) -> bool {
        &&& self.rest.wf()
        &&& forall|k: Seq<char>| #[trigger] self.rest.as_map().contains_key(k) ==> self.rest.as_map()[k].wf()
    }

    closed spec fn values_wf(&self) -> bool {
        forall|i: int| 0 <= i < self.rest.value_seq().len() ==> #[trigger] self.rest.value_seq()[i].wf()
    }

    proof fn lemma_wf_values(&self)
        requires
            self.rest.wf(),
        ensures
            self.wf() <==> self.values_wf(),
    {
        self.rest.lemma_well_formed();
        if self.wf() {
            assert forall|i: int| 0 <= i < self.rest.value_seq().len() implies #[trigger] self.rest.value_seq()[i].wf() by {
                assert(self.rest.as_map().contains_key(self.rest.key_seq()[i]));
                assert(self.rest.as_map()[self.rest.key_seq()[i]] == self.rest.value_seq()[i]);
            }
        }
        if self.values_wf() {
            assert forall|k: Seq<char>| #[trigger] self.rest.as_map().contains_key(k) implies self.rest.as_map()[k].wf() by {
                assert(self.rest.key_seq().to_set().contains(k));
                let i = choose|i: int| 0 <= i < self.rest.key_seq().len() && self.rest.key_seq()[i] == k;
                assert(self.rest.as_map()[self.rest.key_seq()[i]] == self.rest.value_seq()[i]);
            }
        }
    }

    /// A name built from `key` that no state has yet.
    pub fn guarentee_unique_key(&self, key: String) -> (r: String)
        requires
            self.rest.wf(),
        ensures
            !self.rest.as_map().contains_key(r@),
            r@ == first_free_key(self.rest.as_map().dom(), key@),
    {
        self.rest.guarentee_unique_key(key)
    }

    /// In every cancel set of every state, adds the ground kind of each
    /// airborne kind that may be cancelled into.
    pub fn add_ground_cancels(&mut self)
        requires
            old(self).wf(),
        ensures
            final(self).wf(),
            final(self).rest.key_seq() == old(self).rest.key_seq(),
            final(self).rest.value_seq().len() == old(self).rest.value_seq().len(),
            forall|i: int|
                0 <= i < old(self).rest.value_seq().len() ==> grounded_state(
                    #[trigger] old(self).rest.value_seq()[i],
                    final(self).rest.value_seq()[i],
                ),
            final(self).rest.as_map().dom() == old(self).rest.as_map().dom(),
            forall|k: Seq<char>|
                #[trigger] old(self).rest.as_map().contains_key(k) ==> grounded_state(
                    old(self).rest.as_map()[k],
                    final(self).rest.as_map()[k],
                ),
    {
        proof {
            self.rest.lemma_well_formed();
            self.lemma_wf_values();
        }
        let n = self.rest.len();
        let mut i: usize = 0;
        while i < n
            invariant
                i <= n,
                n == old(self).rest.value_seq().len(),
                self.rest.wf(),
                self.values_wf(),
                self.rest.key_seq() == old(self).rest.key_seq(),
                self.rest.value_seq().len() == n,
                forall|k: int| 0 <= k < i ==> grounded_state(
                    #[trigger] old(self).rest.value_seq()[k],
                    self.rest.value_seq()[k],
                ),
                forall|k: int| i <= k < n ==> #[trigger] self.rest.value_seq()[k] == old(self).rest.value_seq()[k],
            decreases n - i,
        {
            proof {
                self.rest.lemma_well_formed();
            }
            let mut state = self.rest.replace_value_at(i, CharacterState::new());
            let ghost orig = state;
            assert(orig.wf());
            let m = state.cancels.len();
            let mut j: usize = 0;
            while j < m
                invariant
                    j <= m,
                    m == orig.cancels@.len(),
                    state.cancels@.len() == m,
                    forall|k: int| 0 <= k < j ==> grounded_cancel(#[trigger] orig.cancels@[k], state.cancels@[k]),
                    forall|k: int| j <= k < m ==> #[trigger] state.cancels@[k] == orig.cancels@[k],
                    forall|k: int| 0 <= k < m ==> #[trigger] orig.cancels@[k].wf(),
                    state.state_type == orig.state_type,
                    state.minimum_meter_required == orig.minimum_meter_required,
                    state.minimum_spirit_required == orig.minimum_spirit_required,
                    state.duration == orig.duration,
                    state.animations == orig.animations,
                    state.particles == orig.particles,
                    state.bullets == orig.bullets,
                    state.on_expire == orig.on_expire,
                decreases m - j,
            {
                let mut c = state.cancels.remove(j);
                assert(c == orig.cancels@[j as int]);
                c.add_ground_variants();
                state.cancels.insert(j, c);
                j = j + 1;
            }
            proof {
                assert(state.wf()) by {
                    assert forall|k: int| 0 <= k < state.cancels@.len() implies #[trigger] state.cancels@[k].wf() by {
                        assert(grounded_cancel(orig.cancels@[k], state.cancels@[k]));
                    }
                }
                assert(grounded_state(orig, state));
            }
            let _ = self.rest.replace_value_at(i, state);
            i = i + 1;
        }
        proof {
            self.lemma_wf_values();
            self.rest.lemma_well_formed();
            old(self).rest.lemma_well_formed();
            assert(self.rest.as_map().dom() == old(self).rest.as_map().dom());
            assert forall|k: Seq<char>| #[trigger] old(self).rest.as_map().contains_key(k) implies grounded_state(
                old(self).rest.as_map()[k],
                self.rest.as_map()[k],
            ) by {
                let ks = old(self).rest.key_seq();
                assert(ks.to_set().contains(k));
                let j = choose|j: int| 0 <= j < ks.len() && ks[j] == k;
                assert(old(self).rest.as_map()[ks[j]] == old(self).rest.value_seq()[j]);
                assert(self.rest.as_map()[self.rest.key_seq()[j]] == self.rest.value_seq()[j]);
            }
        }
    }
}

/// The name given to a new state before it is made unique.
pub open spec fn new_state_name() -> Seq<char> {
    seq!['n', 'e', 'w', ' ', 's', 't', 'a', 't', 'e']
}

/// The list of state names the editor shows.
pub struct StatesUi {
    state_name_keys: Vec<String>,
}

impl View for StatesUi {
    type V = Seq<Seq<char>>;

    closed spec fn view(&self) -> Seq<Seq<char>> {
        views(self.state_name_keys@)
    }
}

impl StatesUi {
    /// Lists the names of the states in `state`, sorted.
    pub fn new(state: &EditorStates) -> (r: Self)
        requires
            state.rest.wf(),
        ensures
            sorted_names(r@),
            tracks_keys(r@, state.rest.as_map()),
    {
        StatesUi { state_name_keys: state.rest.sorted_keys() }
    }

    /// The names, in the order shown.
    pub fn state_names(&self) -> (r: &Vec<String>)
        ensures
            views(r@) == self@,
    {
        &self.state_name_keys
    }

    /// "New": adds an empty state under a fresh name built from "new state",
    /// shown first.
    pub fn add_new_state(&mut self, data: &mut EditorStates)
        requires
            old(data).rest.wf(),
        ensures
            final(data).rest.wf(),
            final(data).rest.as_map().dom() == old(data).rest.as_map().dom().insert(
                first_free_key(old(data).rest.as_map().dom(), new_state_name()),
            ),
            final(data).rest.as_map().remove(first_free_key(old(data).rest.as_map().dom(), new_state_name()))
                == old(data).rest.as_map(),
            is_blank_state(
                final(data).rest.as_map()[first_free_key(old(data).rest.as_map().dom(), new_state_name())],
            ),
            old(data).wf() ==> final(data).wf(),
            final(self)@ == seq![first_free_key(old(data).rest.as_map().dom(), new_state_name())] + old(self)@,
            tracks_keys(old(self)@, old(data).rest.as_map()) ==> tracks_keys(
                final(self)@,
                final(data).rest.as_map(),
            ),
    {
        proof {
            reveal_strlit("new state");
        }
        let base = String::from_str("new state");
        assert(base@ == new_state_name());
        let ghost old_map = data.rest.as_map();
        let ghost key = first_free_key(old_map.dom(), base@);
        let blank = CharacterState::new();
        add_first(&mut self.state_name_keys, &mut data.rest, base, blank);
        proof {
            assert(data.rest.as_map().dom() =~= old_map.dom().insert(key));
            assert(data.rest.as_map().remove(key) =~= old_map);
            if old(data).wf() {
                assert forall|q: Seq<char>| #[trigger] data.rest.as_map().contains_key(q) implies data.rest.as_map()[q].wf() by {
                    if q != key {
                        assert(old_map.contains_key(q));
                    }
                }
            }
        }
    }

    /// "Delete" on the row of `key`.
    pub fn delete_state(&mut self, data: &mut EditorStates, key: &String)
        requires
            old(data).rest.wf(),
        ensures
            final(data).rest.wf(),
            final(self)@ == without_name(old(self)@, key@),
            old(self)@.contains(key@) ==> final(data).rest.as_map() == old(data).rest.as_map().remove(key@),
            !old(self)@.contains(key@) ==> final(data).rest.as_map() == old(data).rest.as_map(),
            tracks_keys(old(self)@, old(data).rest.as_map()) ==> tracks_keys(
                final(self)@,
                final(data).rest.as_map(),
            ),
            old(data).wf() ==> final(data).wf(),
    {
        delete_named(&mut self.state_name_keys, &mut data.rest, key);
        proof {
            if old(data).wf() {
                assert forall|q: Seq<char>| #[trigger] data.rest.as_map().contains_key(q) implies data.rest.as_map()[q].wf() by {
                    assert(old(data).rest.as_map().contains_key(q));
                }
            }
        }
    }

    /// An edited name: the state `old_name` moves to a fresh name built from
    /// `new_name`, in the same row.
    pub fn rename_state(&mut self, data: &mut EditorStates, old_name: &String, new_name: String)
        requires
            old(data).rest.wf(),
            old(data).rest.as_map().contains_key(old_name@),
        ensures
            final(data).rest.wf(),
            final(data).rest.as_map() == old(data).rest.as_map().remove(old_name@).insert(
                first_free_key(old(data).rest.as_map().remove(old_name@).dom(), new_name@),
                old(data).rest.as_map()[old_name@],
            ),
            final(self)@ == renamed(
                old(self)@,
                old_name@,
                first_free_key(old(data).rest.as_map().remove(old_name@).dom(), new_name@),
            ),
            tracks_keys(old(self)@, old(data).rest.as_map()) ==> tracks_keys(
                final(self)@,
                final(data).rest.as_map(),
            ),
            old(data).wf() ==> final(data).wf(),
    {
        rename_named(&mut self.state_name_keys, &mut data.rest, old_name, new_name);
        proof {
            if old(data).wf() {
                assert forall|q: Seq<char>| #[trigger] data.rest.as_map().contains_key(q) implies data.rest.as_map()[q].wf() by {
                    if old(data).rest.as_map().contains_key(q) {
                    }
                }
            }
        }
    }
}

/// "Save and back" in the state editor: the edited state is stored under
/// its name, replacing the state there if there was one.
pub fn save_state(states: &mut EditorStates, id: String, edited: CharacterState)
    requires
        old(states).rest.wf(),
    ensures
        final(states).rest.wf(),
        final(states).rest.as_map() == old(states).rest.as_map().insert(id@, edited),
        old(states).wf() && edited.wf() ==> final(states).wf(),
{
    let ghost e = edited;
    states.rest.insert(id, edited);
    proof {
        if old(states).wf() && e.wf() {
            assert forall|q: Seq<char>| #[trigger] states.rest.as_map().contains_key(q) implies states.rest.as_map()[q].wf() by {
                if q != id@ {
                    assert(old(states).rest.as_map().contains_key(q));
                }
            }
        }
    }
}

/// "Load" beside the list of states: the loaded state is stored under a
/// fresh name built from the file's stem. The list shown is left as it is.
pub fn add_loaded_state(data: &mut EditorStates, stem: String, state: CharacterState)
    requires
        old(data).rest.wf(),
    ensures
        final(data).rest.wf(),
        !old(data).rest.as_map().contains_key(first_free_key(old(data).rest.as_map().dom(), stem@)),
        final(data).rest.as_map() == old(data).rest.as_map().insert(
            first_free_key(old(data).rest.as_map().dom(), stem@),
            state,
        ),
        old(data).wf() && state.wf() ==> final(data).wf(),
{
    let name = data.guarentee_unique_key(stem);
    save_state(data, name, state);
}

/// "Load" on the row of `key`: the loaded state takes the place of the
/// state stored there.
pub fn replace_state(data: &mut EditorStates, key: &String, state: CharacterState)
    requires
        old(data).rest.wf(),
        old(data).rest.as_map().contains_key(key@),
    ensures
        final(data).rest.wf(),
        final(data).rest.as_map() == old(data).rest.as_map().insert(key@, state),
        final(data).rest.as_map().dom() == old(data).rest.as_map().dom(),
        old(data).wf() && state.wf() ==> final(data).wf(),
{
    save_state(data, key.clone(), state);
    proof {
        assert(data.rest.as_map().dom() =~= old(data).rest.as_map().dom());
    }
}

/// The graphic of state `id` in the state editor: the state gets a graphic
/// entry, `default_graphic` if it had none, and the state's duration
/// becomes that graphic's duration. Nothing else of the state changes.
pub fn link_state_graphic(
    graphic_of: &mut KeyedMap<String>,
    id: &String,
    default_graphic: String,
    durations: &KeyedMap<usize>,
    state: &mut CharacterState,
)
    requires
        old(graphic_of).wf(),
        durations.wf(),
        durations.as_map().contains_key(
            if old(graphic_of).as_map().contains_key(id@) {
                old(graphic_of).as_map()[id@]@
            } else {
                default_graphic@
            },
        ),
    ensures
        final(graphic_of).wf(),
        old(graphic_of).as_map().contains_key(id@) ==> final(graphic_of).as_map() == old(graphic_of).as_map(),
        !old(graphic_of).as_map().contains_key(id@) ==> final(graphic_of).as_map() == old(graphic_of).as_map().insert(
            id@,
            default_graphic,
        ),
        final(state).duration == durations.as_map()[final(graphic_of).as_map()[id@]@],
        final(state).state_type == old(state).state_type,
        final(state).minimum_meter_required == old(state).minimum_meter_required,
        final(state).minimum_spirit_required == old(state).minimum_spirit_required,
        final(state).cancels == old(state).cancels,
        final(state).animations == old(state).animations,
        final(state).particles == old(state).particles,
        final(state).bullets == old(state).bullets,
        final(state).on_expire == old(state).on_expire,
{
    graphic_of.ensure_key(id.clone(), default_graphic);
    let graphic = graphic_of.get(id).unwrap();
    let duration = durations.get(graphic).unwrap();
    state.duration = *duration;
}

/// Every move of the command list has a state in `states`.
pub open spec fn moves_have_states(list: Seq<(Input, Vec<MoveId>)>, states: EditorStates) -> bool {
    forall|i: int, j: int|
        0 <= i < list.len() && 0 <= j < list[i].1@.len() ==> states.rest.as_map().contains_key(
            file_name_of(#[trigger] list[i].1@[j]),
        )
}

/// The commands of `moves`, in order, each built from the state of its move.
pub open spec fn move_commands(moves: Seq<MoveId>, states: Map<Seq<char>, CharacterState>) -> Seq<CommandView> {
    moves.map_values(|m: MoveId| command_for_state(m, states[file_name_of(m)]))
}

/// A list of commands as views.
pub open spec fn command_views(cs: Seq<Command>) -> Seq<CommandView> {
    cs.map_values(|c: Command| c@)
}

/// The commands a command list gives `input`: the commands of the moves of
/// each of its entries for `input`, entry by entry, in order.
pub open spec fn commands_of(
    list: Seq<(Input, Vec<MoveId>)>,
    states: Map<Seq<char>, CharacterState>,
    input: Input,
) -> Seq<CommandView>
    decreases list.len(),
{
    if list.len() == 0 {
        Seq::empty()
    } else if list.last().0 == input {
        commands_of(list.drop_last(), states, input) + move_commands(list.last().1@, states)
    } else {
        commands_of(list.drop_last(), states, input)
    }
}

/// Some entry of `r` is for `input`.
pub open spec fn has_input<T>(r: Seq<(Input, T)>, input: Input) -> bool {
    exists|i: int| 0 <= i < r.len() && (#[trigger] r[i]).0 == input
}

/// Some entry of the command list is for `input` and has a move.
pub open spec fn listed_with_moves(list: Seq<(Input, Vec<MoveId>)>, input: Input) -> bool {
    exists|i: int| 0 <= i < list.len() && (#[trigger] list[i]).0 == input && list[i].1@.len() > 0
}

/// No input has two entries in `r`.
pub open spec fn inputs_distinct<T>(r: Seq<(Input, T)>) -> bool {
    forall|i: int, j: int| 0 <= i < j < r.len() ==> (#[trigger] r[i]).0 != (#[trigger] r[j]).0
}

/// `r` maps each input to its commands as the command list `list` gives
/// them: an input has one entry exactly when some entry of the list has it
/// with a move, and that entry holds all the commands the list gives it.
pub open spec fn is_command_map(
    r: Seq<(Input, Vec<Command>)>,
    list: Seq<(Input, Vec<MoveId>)>,
    states: Map<Seq<char>, CharacterState>,
) -> bool {
    &&& inputs_distinct(r)
    &&& forall|k: Input| #[trigger] has_input(r, k) <==> listed_with_moves(list, k)
    &&& forall|i: int| 0 <= i < r.len() ==> command_views((#[trigger] r[i]).1@) == commands_of(list, states, r[i].0)
}

/// The commands of `r` by input, as a map.
pub open spec fn command_map_view(r: Seq<(Input, Vec<Command>)>) -> Map<Input, Seq<CommandView>> {
    Map::new(
        |k: Input| has_input(r, k),
        |k: Input| command_views(r[choose|i: int| 0 <= i < r.len() && (#[trigger] r[i]).0 == k].1@),
    )
}

/// A command map of `list`, read as a map, holds for each input with a
/// move the commands the list gives it.
pub proof fn lemma_command_map_view(
    r: Seq<(Input, Vec<Command>)>,
    list: Seq<(Input, Vec<MoveId>)>,
    states: Map<Seq<char>, CharacterState>,
)
    requires
        is_command_map(r, list, states),
    ensures
        command_map_view(r) == Map::new(
            |k: Input| listed_with_moves(list, k),
            |k: Input| commands_of(list, states, k),
        ),
{
    let expected = Map::new(|k: Input| listed_with_moves(list, k), |k: Input| commands_of(list, states, k));
    assert forall|k: Input| #[trigger] command_map_view(r).contains_key(k) <==> expected.contains_key(k) by {
        assert(has_input(r, k) <==> listed_with_moves(list, k));
    }
    assert forall|k: Input| command_map_view(r).contains_key(k) implies #[trigger] command_map_view(r)[k] == expected[k] by {
        let i = choose|i: int| 0 <= i < r.len() && (#[trigger] r[i]).0 == k;
        assert(command_views(r[i].1@) == commands_of(list, states, r[i].0));
    }
    assert(command_map_view(r) =~= expected);
}

/// The commands a list gives depend on the states only through the kind
/// and the meter and spirit needs of each listed move's state.
pub proof fn lemma_commands_of_same_needs(
    list: Seq<(Input, Vec<MoveId>)>,
    a: Map<Seq<char>, CharacterState>,
    b: Map<Seq<char>, CharacterState>,
    k: Input,
)
    requires
        forall|i: int, j: int|
            0 <= i < list.len() && 0 <= j < list[i].1@.len() ==> a.contains_key(
                file_name_of(#[trigger] list[i].1@[j]),
            ),
        forall|f: Seq<char>| #[trigger] a.contains_key(f) ==> {
            &&& b[f].state_type == a[f].state_type
            &&& b[f].minimum_meter_required == a[f].minimum_meter_required
            &&& b[f].minimum_spirit_required == a[f].minimum_spirit_required
        },
    ensures
        commands_of(list, a, k) == commands_of(list, b, k),
    decreases list.len(),
{
    if list.len() > 0 {
        let l = list.drop_last();
        assert forall|i: int, j: int| 0 <= i < l.len() && 0 <= j < l[i].1@.len() implies a.contains_key(
            file_name_of(#[trigger] l[i].1@[j]),
        ) by {
            assert(l[i] == list[i]);
        }
        lemma_commands_of_same_needs(l, a, b, k);
        let moves = list.last().1@;
        assert forall|j: int| 0 <= j < moves.len() implies #[trigger] move_commands(moves, a)[j] == move_commands(
            moves,
            b,
        )[j] by {
            assert(list[list.len() - 1] == list.last());
            assert(a.contains_key(file_name_of(list[list.len() - 1].1@[j])));
        }
        assert(move_commands(moves, a) =~= move_commands(moves, b));
    }
}

/// Adding entry `i` of the list changes nothing for another input, nor for
/// any input when the entry has no move.
proof fn lemma_commands_of_step(
    list: Seq<(Input, Vec<MoveId>)>,
    states: Map<Seq<char>, CharacterState>,
    i: int,
    k: Input,
)
    requires
        0 <= i < list.len(),
    ensures
        list[i].0 == k ==> commands_of(list.take(i + 1), states, k) == commands_of(list.take(i), states, k)
            + move_commands(list[i].1@, states),
        list[i].0 != k || list[i].1@.len() == 0 ==> commands_of(list.take(i + 1), states, k) == commands_of(
            list.take(i),
            states,
            k,
        ),
{
    assert(list.take(i + 1).drop_last() =~= list.take(i));
    assert(list.take(i + 1).last() == list[i]);
    if list[i].1@.len() == 0 {
        assert(move_commands(list[i].1@, states) =~= Seq::<CommandView>::empty());
        assert(commands_of(list.take(i), states, k) + Seq::<CommandView>::empty() =~= commands_of(
            list.take(i),
            states,
            k,
        ));
    }
}

/// A list gives an input some command exactly when one of its entries has
/// the input with a move.
proof fn lemma_commands_of_nonempty(
    list: Seq<(Input, Vec<MoveId>)>,
    states: Map<Seq<char>, CharacterState>,
    k: Input,
)
    ensures
        commands_of(list, states, k).len() > 0 <==> listed_with_moves(list, k),
    decreases list.len(),
{
    if list.len() > 0 {
        let l = list.drop_last();
        let n = list.len() - 1;
        lemma_commands_of_nonempty(l, states, k);
        if listed_with_moves(list, k) {
            let w = choose|w: int| 0 <= w < list.len() && (#[trigger] list[w]).0 == k && list[w].1@.len() > 0;
            if w < n {
                assert(l[w] == list[w]);
            }
        }
        if listed_with_moves(l, k) {
            let w = choose|w: int| 0 <= w < l.len() && (#[trigger] l[w]).0 == k && l[w].1@.len() > 0;
            assert(list[w] == l[w]);
        }
    }
}

/// The entry of `r` for `input`, if there is one.
fn find_input(r: &Vec<(Input, Vec<Command>)>, input: Input) -> (p: Option<usize>)
    ensures
        match p {
            Some(p) => p < r@.len() && r@[p as int].0 == input,
            None => !has_input(r@, input),
        },
{
    let mut j: usize = 0;
    while j < r.len()
        invariant
            j <= r@.len(),
            forall|q: int| 0 <= q < j ==> (#[trigger] r@[q]).0 != input,
        decreases r@.len() - j,
    {
        if r[j].0 == input {
            return Some(j);
        }
        j = j + 1;
    }
    None
}

/// The commands of a command list, by input: each input that some entry
/// has with a move gets one entry, holding the command of each of its
/// moves, entry by entry and in order. Every move's state must exist.
pub fn build_command_list(list: Vec<(Input, Vec<MoveId>)>, states: &EditorStates) -> (r: Vec<(Input, Vec<Command>)>)
    requires
        states.rest.wf(),
        moves_have_states(list@, *states),
    ensures
        is_command_map(r@, list@, states.rest.as_map()),
{
    let ghost sm = states.rest.as_map();
    let mut r: Vec<(Input, Vec<Command>)> = Vec::new();
    let mut i: usize = 0;
    while i < list.len()
        invariant
            i <= list@.len(),
            sm == states.rest.as_map(),
            states.rest.wf(),
            moves_have_states(list@, *states),
            inputs_distinct(r@),
            forall|q: int| 0 <= q < r@.len() ==> (#[trigger] r@[q]).1@.len() > 0,
            forall|q: int|
                0 <= q < r@.len() ==> command_views((#[trigger] r@[q]).1@) == commands_of(
                    list@.take(i as int),
                    sm,
                    r@[q].0,
                ),
            forall|k: Input| #[trigger] commands_of(list@.take(i as int), sm, k).len() > 0 ==> has_input(r@, k),
        decreases list@.len() - i,
    {
        let input = list[i].0;
        let moves = &list[i].1;
        let ghost before = r@;
        if moves.len() > 0 {
            let found = find_input(&r, input);
            let (key, mut cmds) = match found {
                Some(p) => r.remove(p),
                None => (input, Vec::new()),
            };
            let ghost base = command_views(cmds@);
            proof {
                match found {
                    Some(p) => {
                        assert(before[p as int].0 == input);
                        assert(base == commands_of(list@.take(i as int), sm, input));
                    },
                    None => {
                        assert(base =~= Seq::<CommandView>::empty());
                        assert(commands_of(list@.take(i as int), sm, input) =~= Seq::<CommandView>::empty());
                    },
                }
            }
            let mut j: usize = 0;
            while j < moves.len()
                invariant
                    i < list@.len(),
                    j <= moves@.len(),
                    moves@ == list@[i as int].1@,
                    sm == states.rest.as_map(),
                    states.rest.wf(),
                    moves_have_states(list@, *states),
                    command_views(cmds@) == base + move_commands(moves@.take(j as int), sm),
                decreases moves@.len() - j,
            {
                let id = &moves[j];
                let name = id.file_name();
                proof {
                    assert(sm.contains_key(file_name_of(list@[i as int].1@[j as int])));
                }
                let state = states.rest.get(&name).unwrap();
                let c = command_for_move(id, state.state_type, state.minimum_meter_required, state.minimum_spirit_required);
                let ghost prev = cmds@;
                cmds.push(c);
                proof {
                    assert(command_views(cmds@) =~= command_views(prev).push(c@));
                    assert(moves@.take(j + 1) =~= moves@.take(j as int).push(moves@[j as int]));
                    assert(move_commands(moves@.take(j + 1), sm) =~= move_commands(moves@.take(j as int), sm).push(
                        command_for_state(moves@[j as int], sm[file_name_of(moves@[j as int])]),
                    ));
                    assert(command_views(cmds@) =~= base + move_commands(moves@.take(j + 1), sm));
                }
                j = j + 1;
            }
            proof {
                assert(moves@.take(moves@.len() as int) =~= moves@);
                lemma_commands_of_step(list@, sm, i as int, input);
            }
            let ghost entry = (key, cmds);
            match found {
                Some(p) => {
                    r.insert(p, (key, cmds));
                },
                None => {
                    r.push((key, cmds));
                },
            }
            proof {
                let next = list@.take(i + 1);
                let slot: int = match found {
                    Some(p) => p as int,
                    None => before.len() as int,
                };
                match found {
                    Some(p) => {
                        assert(r@ =~= before.update(p as int, entry));
                    },
                    None => {
                        assert(r@ =~= before.push(entry));
                        assert forall|q: int| 0 <= q < before.len() implies (#[trigger] before[q]).0 != input by {}
                    },
                }
                assert(r@[slot].0 == input);
                assert forall|q: int|
                    0 <= q < r@.len() && q != slot implies (#[trigger] r@[q]) == before[q] && before[q].0 != input by {}
                assert forall|q: int|
                    0 <= q < r@.len() implies command_views((#[trigger] r@[q]).1@) == commands_of(
                    next,
                    sm,
                    r@[q].0,
                ) by {
                    lemma_commands_of_step(list@, sm, i as int, r@[q].0);
                }
                assert forall|k: Input| #[trigger] commands_of(next, sm, k).len() > 0 implies has_input(r@, k) by {
                    lemma_commands_of_step(list@, sm, i as int, k);
                    if k == input {
                        assert(r@[slot].0 == k);
                    } else {
                        let w = choose|w: int| 0 <= w < before.len() && (#[trigger] before[w]).0 == k;
                        assert(r@[w] == before[w]);
                    }
                }
            }
        } else {
            proof {
                assert forall|q: int|
                    0 <= q < r@.len() implies command_views((#[trigger] r@[q]).1@) == commands_of(
                    list@.take(i + 1),
                    sm,
                    r@[q].0,
                ) by {
                    lemma_commands_of_step(list@, sm, i as int, r@[q].0);
                }
                assert forall|k: Input| #[trigger] commands_of(list@.take(i + 1), sm, k).len() > 0 implies has_input(
                    r@,
                    k,
                ) by {
                    lemma_commands_of_step(list@, sm, i as int, k);
                }
            }
        }
        i = i + 1;
    }
    proof {
        assert(list@.take(list@.len() as int) =~= list@);
        assert forall|k: Input| #[trigger] has_input(r@, k) <==> listed_with_moves(list@, k) by {
            lemma_commands_of_nonempty(list@, sm, k);
            if has_input(r@, k) {
                let w = choose|w: int| 0 <= w < r@.len() && (#[trigger] r@[w]).0 == k;
                assert(command_views(r@[w].1@).len() == r@[w].1@.len());
            }
        }
    }
    r
}

/// The command that starts the state of move `id`, given that state.
pub open spec fn command_for_state(id: MoveId, state: CharacterState) -> CommandView {
    command_spec(id, state.state_type, state.minimum_meter_required, state.minimum_spirit_required)
}

} // verus!
