//! Kinds of moves and the sets of them a state can be cancelled into.

use vstd::prelude::*;

verus! {

/// The kind of a move; the `Air` kinds are done airborne.
#[derive(Clone, Copy, Debug, PartialEq, Eq, Structural, Hash)]
pub enum MoveType {
    Idle,
    Walk,
    Jump,
    HiJump,
    Dash,
    Melee,
    Magic,
    MeleeSpecial,
    MagicSpecial,
    Super,
    Followup,
    Fly,
    AirDash,
    AirMelee,
    AirMagic,
    AirMeleeSpecial,
    AirMagicSpecial,
    AirSuper,
    AirFollowup,
}

/// The ground kind that an airborne kind corresponds to.
pub open spec fn ground_variant_of(m: MoveType) -> Option<MoveType> {
    match m {
        MoveType::AirDash => Some(MoveType::Dash),
        MoveType::AirMelee => Some(MoveType::Melee),
        MoveType::AirMagic => Some(MoveType::Magic),
        MoveType::AirMeleeSpecial => Some(MoveType::MeleeSpecial),
        MoveType::AirMagicSpecial => Some(MoveType::MagicSpecial),
        MoveType::AirSuper => Some(MoveType::Super),
        MoveType::AirFollowup => Some(MoveType::Followup),
        _ => None,
    }
}

/// The ground kind that an airborne kind corresponds to.
pub fn ground_variant(m: MoveType) -> (r: Option<MoveType>)
    ensures
        r == ground_variant_of(m),
{
    match m {
        MoveType::AirDash => Some(MoveType::Dash),
        MoveType::AirMelee => Some(MoveType::Melee),
        MoveType::AirMagic => Some(MoveType::Magic),
        MoveType::AirMeleeSpecial => Some(MoveType::MeleeSpecial),
        MoveType::AirMagicSpecial => Some(MoveType::MagicSpecial),
        MoveType::AirSuper => Some(MoveType::Super),
        MoveType::AirFollowup => Some(MoveType::Followup),
        _ => None,
    }
}

/// `s` together with the ground kind of each airborne kind in it.
pub open spec fn with_ground_variants(s: Set<MoveType>) -> Set<MoveType> {
    s.union(Set::new(|g: MoveType| exists|a: MoveType| s.contains(a) && ground_variant_of(a) == Some(g)))
}

/// The name of a kind, as the editor shows it.
pub open spec fn kind_name(m: MoveType) -> Seq<char> {
    match m {
        MoveType::Idle => seq!['I', 'd', 'l', 'e'],
        MoveType::Walk => seq!['W', 'a', 'l', 'k'],
        MoveType::Jump => seq!['J', 'u', 'm', 'p'],
        MoveType::HiJump => seq!['H', 'i', 'J', 'u', 'm', 'p'],
        MoveType::Dash => seq!['D', 'a', 's', 'h'],
        MoveType::Melee => seq!['M', 'e', 'l', 'e', 'e'],
        MoveType::Magic => seq!['M', 'a', 'g', 'i', 'c'],
        MoveType::MeleeSpecial => seq!['M', 'e', 'l', 'e', 'e', 'S', 'p', 'e', 'c', 'i', 'a', 'l'],
        MoveType::MagicSpecial => seq!['M', 'a', 'g', 'i', 'c', 'S', 'p', 'e', 'c', 'i', 'a', 'l'],
        MoveType::Super => seq!['S', 'u', 'p', 'e', 'r'],
        MoveType::Followup => seq!['F', 'o', 'l', 'l', 'o', 'w', 'u', 'p'],
        MoveType::Fly => seq!['F', 'l', 'y'],
        MoveType::AirDash => seq!['A', 'i', 'r', 'D', 'a', 's', 'h'],
        MoveType::AirMelee => seq!['A', 'i', 'r', 'M', 'e', 'l', 'e', 'e'],
        MoveType::AirMagic => seq!['A', 'i', 'r', 'M', 'a', 'g', 'i', 'c'],
        MoveType::AirMeleeSpecial => seq!['A', 'i', 'r', 'M', 'e', 'l', 'e', 'e', 'S', 'p', 'e', 'c', 'i', 'a', 'l'],
        MoveType::AirMagicSpecial => seq!['A', 'i', 'r', 'M', 'a', 'g', 'i', 'c', 'S', 'p', 'e', 'c', 'i', 'a', 'l'],
        MoveType::AirSuper => seq!['A', 'i', 'r', 'S', 'u', 'p', 'e', 'r'],
        MoveType::AirFollowup => seq!['A', 'i', 'r', 'F', 'o', 'l', 'l', 'o', 'w', 'u', 'p'],
    }
}

/// The prefix that names an airborne kind.
pub open spec fn air_prefix() -> Seq<char> {
    seq!['A', 'i', 'r']
}

/// The ground kind of a kind is the kind named as it is without the `Air`
/// prefix: a kind has one exactly when its name starts with `Air`, and
/// then it is the kind whose name is the rest.
pub proof fn lemma_ground_kind_drops_air_prefix(a: MoveType, g: MoveType)
    ensures
        ground_variant_of(a) == Some(g) <==> kind_name(a) == air_prefix() + kind_name(g),
        ground_variant_of(a) is Some <==> (kind_name(a).len() > 3 && kind_name(a).take(3) == air_prefix()),
{
    assert(kind_name(a).len() > 3 ==> kind_name(a).take(3) =~= seq![kind_name(a)[0], kind_name(a)[1], kind_name(a)[2]]);
    if ground_variant_of(a) == Some(g) {
        assert(kind_name(a) =~= air_prefix() + kind_name(g));
    }
    if kind_name(a) == air_prefix() + kind_name(g) {
        let n = kind_name(a);
        let m = kind_name(g);
        assert(n.len() == m.len() + 3);
        assert forall|i: int| 0 <= i < m.len() implies n[i + 3] == m[i] by {
            assert((air_prefix() + m)[i + 3] == m[i]);
        }
        assert(n[0] == 'A' && n[1] == 'i' && n[2] == 'r');
    }
}

/// Grounding a set adds, for each kind in it named `Air` + name, the kind
/// with that name, and nothing else.
pub proof fn lemma_grounded_set_by_names(s: Set<MoveType>, x: MoveType)
    ensures
        with_ground_variants(s).contains(x) <==> (s.contains(x) || exists|a: MoveType|
            #[trigger] s.contains(a) && kind_name(a) == air_prefix() + kind_name(x)),
{
    if with_ground_variants(s).contains(x) && !s.contains(x) {
        let a = choose|a: MoveType| s.contains(a) && ground_variant_of(a) == Some(x);
        lemma_ground_kind_drops_air_prefix(a, x);
    }
    if exists|a: MoveType| #[trigger] s.contains(a) && kind_name(a) == air_prefix() + kind_name(x) {
        let a = choose|a: MoveType| #[trigger] s.contains(a) && kind_name(a) == air_prefix() + kind_name(x);
        lemma_ground_kind_drops_air_prefix(a, x);
    }
}

/// A set of move kinds.
pub struct MoveTypeSet {
    items: Vec<MoveType>,
}

impl View for MoveTypeSet {
    type V = Set<MoveType>;

    closed spec fn view(&self) -> Set<MoveType> {
        self.items@.to_set()
    }
}

impl MoveTypeSet {
    /// No kind is stored twice.
    pub closed spec fn wf(&self) -> bool {
        self.items@.no_duplicates()
    }

    /// The empty set.
    pub fn new() -> (r: Self)
        ensures
            r.wf(),
            r@ == Set::<MoveType>::empty(),
    {
        let r = MoveTypeSet { items: Vec::new() };
        assert(r@ =~= Set::<MoveType>::empty());
        r
    }

    /// The number of kinds in the set.
    pub fn len(&self) -> (n: usize)
        requires
            self.wf(),
        ensures
            n == self@.len(),
    {
        proof {
            self.items@.unique_seq_to_set();
        }
        self.items.len()
    }

    /// Whether `m` is in the set.
    pub fn contains(&self, m: MoveType) -> (b: bool)
        ensures
            b == self@.contains(m),
    {
        let mut i: usize = 0;
        while i < self.items.len()
            invariant
                i <= self.items.len(),
                forall|j: int| 0 <= j < i ==> self.items@[j] != m,
            decreases self.items.len() - i,
        {
            if self.items[i] == m {
                proof {
                    assert(self.items@.contains(m));
                }
                return true;
            }
            i = i + 1;
        }
        false
    }

    /// Adds `m` to the set.
    pub fn insert(&mut self, m: MoveType)
        requires
            old(self).wf(),
        ensures
            final(self).wf(),
            final(self)@ == old(self)@.insert(m),
    {
        let ghost before = self.items@;
        if !self.contains(m) {
            self.items.push(m);
            proof {
                assert(self.items@ == before.push(m));
                assert(self.items@.no_duplicates()) by {
                    assert forall|a: int, b: int| 0 <= a < b < self.items@.len() implies self.items@[a]
                        != self.items@[b] by {
                        if b == before.len() {
                            assert(before.contains(before[a]));
                        }
                    }
                }
                assert(self@ =~= old(self)@.insert(m)) by {
                    before.lemma_push_to_set_commute(m);
                }
            }
        } else {
            assert(self@ =~= old(self)@.insert(m));
        }
    }

    /// Takes `m` out of the set.
    pub fn remove(&mut self, m: MoveType)
        requires
            old(self).wf(),
        ensures
            final(self).wf(),
            final(self)@ == old(self)@.remove(m),
    {
        let ghost before = self.items@;
        let mut i: usize = 0;
        while i < self.items.len()
            invariant
                self.items@ == before,
                before.no_duplicates(),
                before.to_set() == old(self)@,
                i <= self.items.len(),
                forall|j: int| 0 <= j < i ==> self.items@[j] != m,
            decreases self.items.len() - i,
        {
            if self.items[i] == m {
                self.items.remove(i);
                proof {
                    let s = self.items@;
                    assert(s == before.remove(i as int));
                    assert(s.no_duplicates()) by {
                        assert forall|a: int, b: int| 0 <= a < b < s.len() implies s[a] != s[b] by {
                            let a0 = if a < i { a } else { a + 1 };
                            let b0 = if b < i { b } else { b + 1 };
                            assert(s[a] == before[a0]);
                            assert(s[b] == before[b0]);
                        }
                    }
                    assert(self@ =~= old(self)@.remove(m)) by {
                        assert forall|q: MoveType| self@.contains(q) implies old(self)@.remove(m).contains(q) by {
                            let k = choose|k: int| 0 <= k < s.len() && s[k] == q;
                            let k0 = if k < i { k } else { k + 1 };
                            assert(before[k0] == q);
                            assert(k0 != i);
                            assert(before.contains(q));
                        }
                        assert forall|q: MoveType| old(self)@.remove(m).contains(q) implies self@.contains(q) by {
                            let k = choose|k: int| 0 <= k < before.len() && before[k] == q;
                            assert(k != i);
                            let k1 = if k < i { k } else { k - 1 };
                            assert(s[k1] == q);
                        }
                    }
                }
                return;
            }
            i = i + 1;
        }
        assert(self@ =~= old(self)@.remove(m));
    }

    /// A ticked box holds `m` in the set, an unticked one keeps it out.
    pub fn set_member(&mut self, m: MoveType, present: bool)
        requires
            old(self).wf(),
        ensures
            final(self).wf(),
            present ==> final(self)@ == old(self)@.insert(m),
            !present ==> final(self)@ == old(self)@.remove(m),
    {
        if present {
            self.insert(m);
        } else {
            self.remove(m);
        }
    }

    /// Adds the ground kind of each airborne kind in the set.
    pub fn add_ground_variants(&mut self)
        requires
            old(self).wf(),
        ensures
            final(self).wf(),
            final(self)@ == with_ground_variants(old(self)@),
    {
        let ghost orig = self.items@;
        let n = self.items.len();
        let mut i: usize = 0;
        while i < n
            invariant
                n == orig.len(),
                i <= n,
                self.wf(),
                self.items@.len() >= n,
                self.items@.subrange(0, n as int) == orig,
                self@ == orig.to_set().union(
                    Set::new(
                        |g: MoveType|
                            exists|k: int| 0 <= k < i && ground_variant_of(orig[k]) == Some(g),
                    ),
                ),
            decreases n - i,
        {
            let m = self.items[i];
            proof {
                assert(self.items@[i as int] == orig[i as int]) by {
                    assert(self.items@.subrange(0, n as int)[i as int] == self.items@[i as int]);
                }
            }
            let ghost before = self.items@;
            let ghost before_set = self@;
            if let Some(g) = ground_variant(m) {
                if !self.contains(g) {
                    self.items.push(g);
                    proof {
                        assert(self.items@.no_duplicates()) by {
                            assert forall|a: int, b: int| 0 <= a < b < self.items@.len() implies self.items@[a]
                                != self.items@[b] by {
                                if b == before.len() {
                                    assert(before.contains(before[a]));
                                }
                            }
                        }
                        before.lemma_push_to_set_commute(g);
                    }
                }
                proof {
                    assert(self@ == before_set.insert(g));
                    assert(self.items@.subrange(0, n as int) =~= orig) by {
                        assert forall|k: int| 0 <= k < n implies self.items@[k] == orig[k] by {
                            assert(before.subrange(0, n as int)[k] == before[k]);
                            if self.items@ != before {
                                assert(self.items@[k] == before[k]);
                            }
                        }
                    }
                }
            }
            proof {
                let new_ground = Set::new(
                    |g: MoveType| exists|k: int| 0 <= k < i + 1 && ground_variant_of(orig[k]) == Some(g),
                );
                let old_ground = Set::new(
                    |g: MoveType| exists|k: int| 0 <= k < i && ground_variant_of(orig[k]) == Some(g),
                );
                assert forall|g: MoveType| new_ground.contains(g) implies #[trigger] old_ground.insert(g).contains(g) by {}
                match ground_variant_of(m) {
                    Some(g0) => {
                        assert(new_ground =~= old_ground.insert(g0)) by {
                            assert forall|g: MoveType| new_ground.contains(g) implies old_ground.insert(g0).contains(g) by {
                                let k = choose|k: int| 0 <= k < i + 1 && ground_variant_of(orig[k]) == Some(g);
                                if k < i {
                                    assert(old_ground.contains(g));
                                }
                            }
                            assert forall|g: MoveType| old_ground.insert(g0).contains(g) implies new_ground.contains(g) by {
                                if g == g0 {
                                    assert(ground_variant_of(orig[i as int]) == Some(g));
                                } else {
                                    let k = choose|k: int| 0 <= k < i && ground_variant_of(orig[k]) == Some(g);
                                    assert(0 <= k < i + 1);
                                }
                            }
                        }
                        assert(self@ =~= orig.to_set().union(new_ground));
                    },
                    None => {
                        assert(new_ground =~= old_ground) by {
                            assert forall|g: MoveType| new_ground.contains(g) implies old_ground.contains(g) by {
                                let k = choose|k: int| 0 <= k < i + 1 && ground_variant_of(orig[k]) == Some(g);
                                assert(k != i);
                            }
                        }
                    },
                }
            }
            i = i + 1;
        }
        proof {
            let s = old(self)@;
            assert(s == orig.to_set());
            let done = Set::new(
                |g: MoveType| exists|k: int| 0 <= k < n && ground_variant_of(orig[k]) == Some(g),
            );
            let spec_ground = Set::new(
                |g: MoveType| exists|a: MoveType| s.contains(a) && ground_variant_of(a) == Some(g),
            );
            assert(done =~= spec_ground) by {
                assert forall|g: MoveType| done.contains(g) implies spec_ground.contains(g) by {
                    let k = choose|k: int| 0 <= k < n && ground_variant_of(orig[k]) == Some(g);
                    assert(s.contains(orig[k]));
                }
                assert forall|g: MoveType| spec_ground.contains(g) implies done.contains(g) by {
                    let a = choose|a: MoveType| s.contains(a) && ground_variant_of(a) == Some(g);
                    let k = choose|k: int| 0 <= k < orig.len() && orig[k] == a;
                    assert(0 <= k < n && ground_variant_of(orig[k]) == Some(g));
                }
            }
        }
    }
}

/// Adding ground kinds twice adds nothing more than adding them once: a
/// ground kind has no ground kind of its own.
pub proof fn lemma_ground_variants_idempotent(s: Set<MoveType>)
    ensures
        with_ground_variants(with_ground_variants(s)) == with_ground_variants(s),
{
    let once = with_ground_variants(s);
    assert(with_ground_variants(once) =~= once) by {
        assert forall|g: MoveType| with_ground_variants(once).contains(g) implies once.contains(g) by {
            if !once.contains(g) {
                let a = choose|a: MoveType| once.contains(a) && ground_variant_of(a) == Some(g);
                if !s.contains(a) {
                    let b = choose|b: MoveType| s.contains(b) && ground_variant_of(b) == Some(a);
                    assert(ground_variant_of(a) is None);
                }
            }
        }
    }
}

} // verus!
