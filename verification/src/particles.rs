//! Particles of a character and the particle list form.

use crate::keyed::KeyedMap;
use crate::names::{sort_names, sorted_names, views};
use crate::states::Animation;
use vstd::prelude::*;
use vstd::string::StringExecFns;

verus! {

/// A particle: the animations it plays.
pub struct Particle {
    pub animations: Vec<Animation>,
}

impl Particle {
    /// A particle with no animation.
    pub fn new() -> (r: Self)
        ensures
            r.animations@.len() == 0,
    {
        Particle { animations: Vec::new() }
    }
}

/// The particles of a character, by name.
pub struct Particles {
    pub particles: KeyedMap<Particle>,
}

/// The name of a particle made with "New".
pub open spec fn new_particle_name() -> Seq<char> {
    seq!['n', 'e', 'w', '_', 'p', 'a', 'r', 't', 'i', 'c', 'l', 'e']
}

/// The particle list form: the names it lists and the selected row.
pub struct ParticlesUi {
    current_particle: Option<usize>,
    pub particle_keys: Vec<String>,
}

impl ParticlesUi {
    pub closed spec fn selected(&self) -> Option<usize> {
        self.current_particle
    }

    /// The names in the list, in order.
    pub closed spec fn listed(&self) -> Seq<String> {
        self.particle_keys@
    }

    /// Lists the names of the particles of `reference`, nothing selected.
    pub fn new(reference: &Particles) -> (r: Self)
        ensures
            views(r.listed()) == reference.particles.key_seq(),
            r.selected() == None::<usize>,
    {
        ParticlesUi { current_particle: None, particle_keys: reference.particles.keys() }
    }

    /// The selected row.
    pub fn current(&self) -> (r: Option<usize>)
        ensures
            r == self.selected(),
    {
        self.current_particle
    }

    /// Selects row `idx`.
    pub fn select(&mut self, idx: Option<usize>)
        ensures
            final(self).selected() == idx,
            final(self).listed() == old(self).listed(),
    {
        self.current_particle = idx;
    }

    /// "Add": a particle read from a file, listed last under `name`.
    pub fn add_loaded(&mut self, data: &mut Particles, name: String, particle: Particle)
        requires
            old(data).particles.wf(),
        ensures
            final(data).particles.wf(),
            final(data).particles.as_map() == old(data).particles.as_map().insert(name@, particle),
            views(final(self).listed()) == views(old(self).listed()).push(name@),
            final(self).selected() == old(self).selected(),
    {
        let ghost old_keys = self.particle_keys@;
        self.particle_keys.push(name.clone());
        data.particles.insert(name, particle);
        proof {
            assert(views(self.particle_keys@) =~= views(old_keys).push(name@));
        }
    }

    /// "New": stores an empty particle under "new_particle" (replacing any
    /// particle of that name), lists the name, and sorts the list.
    pub fn add_new_particle(&mut self, data: &mut Particles)
        requires
            old(data).particles.wf(),
        ensures
            final(data).particles.wf(),
            final(data).particles.as_map().dom() == old(data).particles.as_map().dom().insert(
                new_particle_name(),
            ),
            final(data).particles.as_map().remove(new_particle_name()) == old(
                data,
            ).particles.as_map().remove(new_particle_name()),
            final(data).particles.as_map()[new_particle_name()].animations@.len() == 0,
            views(final(self).listed()).to_multiset() == views(
                old(self).listed(),
            ).push(new_particle_name()).to_multiset(),
            sorted_names(views(final(self).listed())),
            final(self).selected() == old(self).selected(),
    {
        proof {
            reveal_strlit("new_particle");
        }
        let ghost old_keys = self.particle_keys@;
        let fresh = Particle::new();
        let key = String::from_str("new_particle");
        assert(key@ =~= new_particle_name());
        data.particles.insert(key, fresh);
        self.particle_keys.push(String::from_str("new_particle"));
        let ghost pushed = self.particle_keys@;
        sort_names(&mut self.particle_keys);
        proof {
            assert(data.particles.as_map().dom() =~= old(data).particles.as_map().dom().insert(
                new_particle_name(),
            ));
            assert(data.particles.as_map().remove(new_particle_name()) =~= old(data).particles.as_map().remove(
                new_particle_name(),
            ));
            crate::names::lemma_views_multiset(pushed, self.particle_keys@);
            assert(views(pushed) =~= views(old_keys).push(new_particle_name()));
        }
    }

    /// "Edit": the selected name, when a particle has that name.
    pub fn edit(&self, data: &Particles) -> (r: Option<String>)
        requires
            data.particles.wf(),
            self.selected() matches Some(i) ==> i < self.listed().len(),
        ensures
            match self.selected() {
                Some(i) => if data.particles.as_map().contains_key(self.listed()[i as int]@) {
                    r matches Some(n) && n@ == self.listed()[i as int]@
                } else {
                    r is None
                },
                None => r is None,
            },
    {
        match self.current_particle {
            Some(i) => {
                let key = &self.particle_keys[i];
                if data.particles.contains_key(key) {
                    Some(key.clone())
                } else {
                    None
                }
            },
            None => None,
        }
    }

    /// An edited name: when a particle has the selected name, it moves to
    /// `new_key` (replacing any particle of that name) and the row shows
    /// `new_key`.
    pub fn rename_selected(&mut self, data: &mut Particles, new_key: String)
        requires
            old(data).particles.wf(),
            old(self).selected() matches Some(i) ==> i < old(self).listed().len(),
        ensures
            final(data).particles.wf(),
            final(self).selected() == old(self).selected(),
            match old(self).selected() {
                Some(i) => {
                    let key = old(self).listed()[i as int]@;
                    if old(data).particles.as_map().contains_key(key) {
                        &&& final(data).particles.as_map() == old(data).particles.as_map().remove(key).insert(
                            new_key@,
                            old(data).particles.as_map()[key],
                        )
                        &&& views(final(self).listed()) == views(old(self).listed()).update(
                            i as int,
                            new_key@,
                        )
                    } else {
                        &&& final(data).particles.as_map() == old(data).particles.as_map()
                        &&& final(self).listed() == old(self).listed()
                    }
                },
                None => final(data).particles.as_map() == old(data).particles.as_map()
                    && final(self).listed() == old(self).listed(),
            },
    {
        if let Some(i) = self.current_particle {
            let key = self.particle_keys[i].clone();
            if data.particles.contains_key(&key) {
                let particle_data = data.particles.remove(&key).unwrap();
                data.particles.insert(new_key.clone(), particle_data);
                let ghost before = self.particle_keys@;
                self.particle_keys.set(i, new_key);
                proof {
                    assert(views(self.particle_keys@) =~= views(before).update(i as int, new_key@));
                }
            }
        }
    }
}

} // verus!
