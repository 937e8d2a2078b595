//! What a state can be cancelled into, and the form that edits it.

use crate::keyed::KeyedMap;
use crate::moves::{with_ground_variants, MoveType, MoveTypeSet};
use crate::names::views;
use vstd::prelude::*;
use vstd::string::StrSliceExecFns;

verus! {

/// The kinds of moves a state can be cancelled into: always, once the move
/// was blocked, or once it hit; and the states it can never go to.
pub struct CancelSet {
    pub always: MoveTypeSet,
    pub block: MoveTypeSet,
    pub hit: MoveTypeSet,
    pub disallow: KeyedMap<()>,
}

impl CancelSet {
    pub open spec fn wf(&self) -> bool {
        &&& self.always.wf()
        &&& self.block.wf()
        &&& self.hit.wf()
        &&& self.disallow.wf()
    }

    /// A set that allows no cancel and forbids no state.
    pub fn new() -> (r: Self)
        ensures
            r.wf(),
            r.always@ == Set::<MoveType>::empty(),
            r.block@ == Set::<MoveType>::empty(),
            r.hit@ == Set::<MoveType>::empty(),
            r.disallow.as_map() == Map::<Seq<char>, ()>::empty(),
    {
        CancelSet {
            always: MoveTypeSet::new(),
            block: MoveTypeSet::new(),
            hit: MoveTypeSet::new(),
            disallow: KeyedMap::new(),
        }
    }

    /// Wherever an airborne kind may be cancelled into, its ground kind may
    /// be too.
    pub fn add_ground_variants(&mut self)
        requires
            old(self).wf(),
        ensures
            final(self).wf(),
            final(self).hit@ == with_ground_variants(old(self).hit@),
            final(self).always@ == with_ground_variants(old(self).always@),
            final(self).block@ == with_ground_variants(old(self).block@),
            final(self).disallow == old(self).disallow,
    {
        self.hit.add_ground_variants();
        self.always.add_ground_variants();
        self.block.add_ground_variants();
    }
}

/// The empty name, which "Add" never forbids.
pub open spec fn is_blank(s: Seq<char>) -> bool {
    s.len() == 0
}

/// The form that edits a cancel set.
pub struct CancelSetUi {
    state_list: Vec<String>,
    new_disallow: String,
}

impl CancelSetUi {
    /// The states that can be forbidden.
    pub closed spec fn state_names(&self) -> Seq<Seq<char>> {
        views(self.state_list@)
    }

    /// The state that "Add" forbids.
    pub closed spec fn selected(&self) -> Seq<char> {
        self.new_disallow@
    }

    /// A form over `state_list`, with its first state selected (none when
    /// the list is empty).
    pub fn new(state_list: Vec<String>) -> (r: Self)
        ensures
            r.state_names() == views(state_list@),
            state_list.len() > 0 ==> r.selected() == state_list@[0]@,
            state_list.len() == 0 ==> r.selected() == Seq::<char>::empty(),
    {
        let new_disallow = if state_list.len() > 0 {
            state_list[0].clone()
        } else {
            String::new()
        };
        CancelSetUi { new_disallow, state_list }
    }

    /// The number of states that can be forbidden.
    pub fn state_count(&self) -> (n: usize)
        ensures
            n == self.state_names().len(),
    {
        self.state_list.len()
    }

    /// The combo box: selects state `index` of the list.
    pub fn select(&mut self, index: usize)
        requires
            index < old(self).state_names().len(),
        ensures
            final(self).selected() == old(self).state_names()[index as int],
            final(self).state_names() == old(self).state_names(),
    {
        self.new_disallow = self.state_list[index].clone();
    }

    /// "Delete" beside a forbidden state.
    pub fn delete_disallowed(data: &mut CancelSet, item: &String)
        requires
            old(data).wf(),
        ensures
            final(data).wf(),
            final(data).disallow.as_map() == old(data).disallow.as_map().remove(item@),
            final(data).always == old(data).always,
            final(data).block == old(data).block,
            final(data).hit == old(data).hit,
    {
        let _ = data.disallow.remove(item);
    }

    /// "Add": forbids the selected state, unless none is selected.
    pub fn add_disallowed(&self, data: &mut CancelSet)
        requires
            old(data).wf(),
        ensures
            final(data).wf(),
            !is_blank(self.selected()) ==> final(data).disallow.as_map()
                == old(data).disallow.as_map().insert(self.selected(), ()),
            is_blank(self.selected()) ==> final(data).disallow.as_map() == old(data).disallow.as_map(),
            final(data).always == old(data).always,
            final(data).block == old(data).block,
            final(data).hit == old(data).hit,
    {
        if self.new_disallow.as_str().unicode_len() != 0 {
            data.disallow.insert(self.new_disallow.clone(), ());
        }
    }
}

} // verus!
