//! Bullets: their data, and the bullet spawns of a state with the form's
//! rules for properties and offsets.

use crate::attacks::Vec2i;
use crate::hitboxes::{new_hitbox, Hitbox};
use crate::keyed::KeyedMap;
use crate::names::{sorted_names, views};
use crate::states::Animation;
use vstd::prelude::*;

verus! {

/// A bullet: how it looks, the box it hits with, the attack it carries,
/// and the names of its properties.
pub struct BulletInfo {
    pub animation: Animation,
    pub hitbox: Hitbox,
    pub attack_id: String,
    pub properties: KeyedMap<()>,
}

impl BulletInfo {
    /// A bullet with an empty animation called `name`, an empty box, no
    /// property, carrying attack `attack_id`.
    pub fn new(name: String, attack_id: String) -> (r: Self)
        ensures
            r.animation.name@ == name@,
            r.animation.delay == 0,
            r.animation.duration == 0,
            r.hitbox == new_hitbox(),
            r.attack_id@ == attack_id@,
            r.properties.wf(),
            r.properties.as_map() == Map::<Seq<char>, ()>::empty(),
    {
        BulletInfo {
            animation: Animation { name, delay: 0, duration: 0 },
            hitbox: Hitbox::new(),
            attack_id,
            properties: KeyedMap::new(),
        }
    }
}

/// A bullet a state spawns at `frame`, at `offset`, with a value for each
/// property of the bullet.
pub struct BulletSpawn {
    pub bullet_id: String,
    pub frame: usize,
    pub offset: Vec2i,
    pub properties: KeyedMap<i32>,
}

/// The properties after choosing a bullet with property names `names`:
/// each name keeps its old value, or starts at 0.
pub open spec fn retargeted(old: Map<Seq<char>, i32>, names: Set<Seq<char>>) -> Map<Seq<char>, i32> {
    Map::new(
        |k: Seq<char>| names.contains(k),
        |k: Seq<char>|
            if old.contains_key(k) {
                old[k]
            } else {
                0
            },
    )
}

impl BulletSpawn {
    /// The ID combo box: spawns bullet `bullet_id` of `bullets` instead,
    /// with one value for each of its properties.
    pub fn retarget(&mut self, bullet_id: String, bullets: &KeyedMap<KeyedMap<()>>)
        requires
            old(self).properties.wf(),
            bullets.wf(),
            bullets.as_map().contains_key(bullet_id@),
            bullets.as_map()[bullet_id@].wf(),
        ensures
            final(self).properties.wf(),
            final(self).bullet_id == bullet_id,
            final(self).properties.as_map() == retargeted(
                old(self).properties.as_map(),
                bullets.as_map()[bullet_id@].as_map().dom(),
            ),
            final(self).frame == old(self).frame,
            final(self).offset == old(self).offset,
    {
        let names = bullets.get(&bullet_id).unwrap().keys();
        let ghost name_map = bullets.as_map()[bullet_id@];
        let ghost orig = self.properties.as_map();
        proof {
            name_map.lemma_well_formed();
        }
        let mut fresh: KeyedMap<i32> = KeyedMap::new();
        let mut i: usize = 0;
        while i < names.len()
            invariant
                i <= names.len(),
                crate::names::views(names@) == name_map.key_seq(),
                name_map.key_seq().no_duplicates(),
                self.properties.wf(),
                self.frame == old(self).frame,
                self.offset == old(self).offset,
                fresh.wf(),
                fresh.as_map() == retargeted(orig, name_map.key_seq().subrange(0, i as int).to_set()),
                self.properties.as_map() == orig.remove_keys(name_map.key_seq().subrange(0, i as int).to_set()),
            decreases names.len() - i,
        {
            let ghost done = name_map.key_seq().subrange(0, i as int).to_set();
            let key = names[i].clone();
            proof {
                assert(key@ == name_map.key_seq()[i as int]);
                assert(!done.contains(key@)) by {
                    if done.contains(key@) {
                        let j = choose|j: int| 0 <= j < i && name_map.key_seq().subrange(0, i as int)[j] == key@;
                        assert(name_map.key_seq()[j] == name_map.key_seq()[i as int]);
                    }
                }
            }
            let value = match self.properties.remove(&key) {
                Some(v) => v,
                None => 0,
            };
            fresh.insert(key, value);
            proof {
                let next = name_map.key_seq().subrange(0, i + 1);
                assert(next.to_set() =~= done.insert(key@)) by {
                    assert(next =~= name_map.key_seq().subrange(0, i as int).push(key@));
                    name_map.key_seq().subrange(0, i as int).lemma_push_to_set_commute(key@);
                }
                assert(fresh.as_map() =~= retargeted(orig, next.to_set()));
                assert(self.properties.as_map() =~= orig.remove_keys(next.to_set()));
            }
            i = i + 1;
        }
        proof {
            assert(name_map.key_seq().subrange(0, i as int) =~= name_map.key_seq());
            assert(name_map.key_seq().to_set() == name_map.as_map().dom());
        }
        self.properties = fresh;
        self.bullet_id = bullet_id;
    }
}

/// The bullet spawn form.
pub struct BulletSpawnUi;

impl BulletSpawnUi {
    /// The ID combo box chose `bullet_id`: the spawn takes that bullet, and
    /// keeps the values of the properties the bullets share.
    pub fn choose_bullet(data: &mut BulletSpawn, bullet_id: String, bullets: &KeyedMap<KeyedMap<()>>)
        requires
            old(data).properties.wf(),
            bullets.wf(),
            bullets.as_map().contains_key(bullet_id@),
            bullets.as_map()[bullet_id@].wf(),
        ensures
            final(data).properties.wf(),
            final(data).bullet_id == bullet_id,
            final(data).properties.as_map() == retargeted(
                old(data).properties.as_map(),
                bullets.as_map()[bullet_id@].as_map().dom(),
            ),
            final(data).frame == old(data).frame,
            final(data).offset == old(data).offset,
    {
        data.retarget(bullet_id, bullets);
    }

    /// The offset as the form shows it, in hundreds.
    pub fn shown_offset(data: &BulletSpawn) -> (r: Vec2i)
        ensures
            r.x == shown_coordinate(data.offset.x as int),
            r.y == shown_coordinate(data.offset.y as int),
            storable(r),
    {
        offset_to_form(data.offset)
    }

    /// The form's offset, entered in hundreds, is stored.
    pub fn store_offset(data: &mut BulletSpawn, shown: Vec2i)
        requires
            storable(shown),
        ensures
            final(data).offset.x == shown.x * 100,
            final(data).offset.y == shown.y * 100,
            final(data).bullet_id == old(data).bullet_id,
            final(data).frame == old(data).frame,
            final(data).properties == old(data).properties,
    {
        data.offset = offset_from_form(shown);
    }

    /// The property names, in the order the form lists them.
    pub fn property_rows(data: &BulletSpawn) -> (r: Vec<String>)
        requires
            data.properties.wf(),
        ensures
            sorted_names(views(r@)),
            views(r@).no_duplicates(),
            views(r@).to_set() == data.properties.as_map().dom(),
    {
        data.properties.sorted_keys()
    }
}

/// A coordinate as the form shows it: in whole hundreds, rounded toward
/// zero.
pub open spec fn shown_coordinate(v: int) -> int {
    if v >= 0 {
        v / 100
    } else {
        -((-v) / 100)
    }
}

/// Whether the form can store `shown` back: it is a hundredth of an `i32`.
pub open spec fn storable(shown: Vec2i) -> bool {
    &&& -21474836 <= shown.x <= 21474836
    &&& -21474836 <= shown.y <= 21474836
}

/// Divides the offset by 100 for the form to show.
pub fn offset_to_form(o: Vec2i) -> (r: Vec2i)
    ensures
        r.x == shown_coordinate(o.x as int),
        r.y == shown_coordinate(o.y as int),
        storable(r),
{
    Vec2i { x: o.x / 100, y: o.y / 100 }
}

/// Multiplies the form's value by 100 to store it.
pub fn offset_from_form(shown: Vec2i) -> (r: Vec2i)
    requires
        storable(shown),
    ensures
        r.x == shown.x * 100,
        r.y == shown.y * 100,
{
    Vec2i { x: shown.x * 100, y: shown.y * 100 }
}

/// A value the form stores reads back as the same value.
pub proof fn lemma_form_round_trip(s: int)
    ensures
        shown_coordinate(s * 100) == s,
{
    if s >= 0 {
        assert((s * 100) / 100 == s) by (nonlinear_arith);
    } else {
        assert(((-s) * 100) / 100 == -s) by (nonlinear_arith);
        assert(-(s * 100) == (-s) * 100) by (nonlinear_arith);
    }
}

/// Storing what the form shows moves a coordinate toward zero, by less
/// than 100.
pub proof fn lemma_store_rounds_toward_zero(v: int)
    ensures
        v >= 0 ==> 0 <= v - shown_coordinate(v) * 100 < 100,
        v < 0 ==> -100 < v - shown_coordinate(v) * 100 <= 0,
{
    if v >= 0 {
        assert(0 <= v - (v / 100) * 100 < 100) by (nonlinear_arith)
            requires
                v >= 0,
        ;
    } else {
        let w = -v;
        assert(0 <= w - (w / 100) * 100 < 100) by (nonlinear_arith)
            requires
                w > 0,
        ;
    }
}

} // verus!
