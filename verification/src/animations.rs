//! Lists of animations: the form's selection, adding, deleting and finding
//! an animation by name.

use crate::states::Animation;
use vstd::prelude::*;

verus! {

/// The name every new animation gets.
pub open spec fn new_animation_name() -> Seq<char> {
    seq!['n', 'e', 'w']
}

/// The name an animation editor is left with once its work is written back.
pub open spec fn emptied_animation_name() -> Seq<char> {
    seq!['e', 'm', 'p', 't', 'y']
}

/// "Save and back" in the animation editor: the edited animation is
/// written over entry `idx` of `animations`, and the editor is left holding
/// an empty animation called "empty".
pub fn save_animation_at(animations: &mut Vec<Animation>, idx: usize, edited: &mut Animation)
    requires
        idx < old(animations)@.len(),
    ensures
        final(animations)@ == old(animations)@.update(idx as int, *old(edited)),
        final(edited).name@ == emptied_animation_name(),
        final(edited).delay == 0,
        final(edited).duration == 0,
{
    proof {
        reveal_strlit("empty");
    }
    let mut written = Animation::new("empty");
    std::mem::swap(edited, &mut written);
    animations.set(idx, written);
}

/// The first animation called `name`, if any.
pub fn find_by_name(animations: &Vec<Animation>, name: &String) -> (r: Option<usize>)
    ensures
        match r {
            Some(i) => i < animations@.len() && animations@[i as int].name@ == name@ && forall|j: int|
                0 <= j < i ==> #[trigger] animations@[j].name@ != name@,
            None => forall|j: int| 0 <= j < animations@.len() ==> #[trigger] animations@[j].name@ != name@,
        },
{
    let mut i: usize = 0;
    while i < animations.len()
        invariant
            i <= animations.len(),
            forall|j: int| 0 <= j < i ==> #[trigger] animations@[j].name@ != name@,
        decreases animations.len() - i,
    {
        if animations[i].name == *name {
            return Some(i);
        }
        i = i + 1;
    }
    None
}

/// The animation list form: which animation is selected.
pub struct AnimationsUi {
    current_animation: Option<usize>,
}

impl AnimationsUi {
    pub closed spec fn selected(&self) -> Option<usize> {
        self.current_animation
    }

    /// Nothing selected.
    pub fn new() -> (r: Self)
        ensures
            r.selected() == None::<usize>,
    {
        AnimationsUi { current_animation: None }
    }

    /// Selects entry `idx` of the list.
    pub fn select(&mut self, idx: Option<usize>)
        ensures
            final(self).selected() == idx,
    {
        self.current_animation = idx;
    }

    /// The selected animation's index, when it is in the list.
    pub fn current(&self, data: &Vec<Animation>) -> (r: Option<usize>)
        ensures
            r == (match self.selected() {
                Some(i) => if i < data@.len() {
                    Some(i)
                } else {
                    None::<usize>
                },
                None => None::<usize>,
            }),
    {
        match self.current_animation {
            Some(i) => if i < data.len() {
                Some(i)
            } else {
                None
            },
            None => None,
        }
    }

    /// "New": appends an empty animation called "new".
    pub fn add_new(&self, data: &mut Vec<Animation>)
        ensures
            final(data)@.len() == old(data)@.len() + 1,
            final(data)@.subrange(0, old(data)@.len() as int) == old(data)@,
            final(data)@.last().name@ == new_animation_name(),
            final(data)@.last().delay == 0,
            final(data)@.last().duration == 0,
    {
        proof {
            reveal_strlit("new");
        }
        data.push(Animation::new("new"));
        proof {
            assert(data@.subrange(0, old(data)@.len() as int) =~= old(data)@);
        }
    }

    /// "Load": appends an animation read from a file.
    pub fn add_loaded(&self, data: &mut Vec<Animation>, animation: Animation)
        ensures
            final(data)@ == old(data)@.push(animation),
    {
        data.push(animation);
    }

    /// "Edit": the name of the selected animation, when it is in the list.
    pub fn edit(&self, data: &Vec<Animation>) -> (r: Option<String>)
        ensures
            match self.selected() {
                Some(i) => if i < data@.len() {
                    r matches Some(n) && n@ == data@[i as int].name@
                } else {
                    r is None
                },
                None => r is None,
            },
    {
        match self.current_animation {
            Some(i) => if i < data.len() {
                Some(data[i].name.clone())
            } else {
                None
            },
            None => None,
        }
    }

    /// "Delete": removes the selected animation. The selection stays at the
    /// same index.
    pub fn delete(&self, data: &mut Vec<Animation>)
        requires
            self.selected() matches Some(i) ==> i < old(data)@.len(),
        ensures
            self.selected() matches Some(i) ==> final(data)@ == old(data)@.remove(i as int),
            self.selected() is None ==> final(data)@ == old(data)@,
    {
        if let Some(i) = self.current_animation {
            data.remove(i);
        }
    }
}

} // verus!
