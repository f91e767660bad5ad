//! The projectile record: damage, knockback, and the decaying exclusion
//! set that prevents a projectile from instantly hitting its own firer.
//!
//! An exclusion entry protects an actor only while it stays in contact
//! with the projectile: separation consumes the entry, whether noticed
//! through an end-of-touch notification or through the per-tick
//! intersection with the current touch-set. A projectile resolves at
//! most one hit; the hit marks it terminal and despawns it.

use vstd::prelude::*;

use crate::config::TUNING_LIMIT;

verus! {

/// Transient record of a projectile actor.
#[derive(Debug)]
pub struct Projectile {
    /// Damage subtracted from the target's health on a hit.
    pub damage: u64,
    /// Magnitude of the knockback impulse dealt on a hit.
    pub knockback: i64,
    /// Actors this projectile must not hit while they keep touching it.
    pub exclusion: Vec<u64>,
    /// Set once a hit has been resolved; no further hit can occur.
    pub terminal: bool,
}

impl Projectile {
    /// The record's values are within machine limits.
    pub open spec fn wf(self) -> bool {
        0 <= self.knockback <= TUNING_LIMIT
    }
}

/// A hit is allowed exactly when the projectile has not already hit,
/// the touched actor is hit-eligible, and it is not excluded.
pub open spec fn hit_allowed(terminal: bool, exclusion: Seq<u64>, target_hittable: bool,
    target: u64) -> bool {
    !terminal && target_hittable && !exclusion.contains(target)
}

/// The exclusion list with every entry for `id` dropped, from index `i` on.
pub open spec fn remove_id_from(exclusion: Seq<u64>, id: u64, i: int) -> Seq<u64>
    decreases exclusion.len() - i,
{
    if i < 0 || i >= exclusion.len() {
        Seq::empty()
    } else if exclusion[i] == id {
        remove_id_from(exclusion, id, i + 1)
    } else {
        seq![exclusion[i]] + remove_id_from(exclusion, id, i + 1)
    }
}

/// The exclusion list with every entry for `id` dropped.
pub open spec fn remove_id_s(exclusion: Seq<u64>, id: u64) -> Seq<u64> {
    remove_id_from(exclusion, id, 0)
}

/// The exclusion list restricted to entries still in contact, from index
/// `i` on.
pub open spec fn retain_contacts_from(exclusion: Seq<u64>, contacts: Seq<u64>, i: int)
    -> Seq<u64>
    decreases exclusion.len() - i,
{
    if i < 0 || i >= exclusion.len() {
        Seq::empty()
    } else if contacts.contains(exclusion[i]) {
        seq![exclusion[i]] + retain_contacts_from(exclusion, contacts, i + 1)
    } else {
        retain_contacts_from(exclusion, contacts, i + 1)
    }
}

/// The exclusion list restricted to entries still in contact: the
/// per-tick exclusion decay.
pub open spec fn retain_contacts_s(exclusion: Seq<u64>, contacts: Seq<u64>) -> Seq<u64> {
    retain_contacts_from(exclusion, contacts, 0)
}

/// Membership after dropping `id`: exactly the other members remain.
pub proof fn lemma_remove_id_membership(exclusion: Seq<u64>, id: u64, i: int, e: u64)
    requires
        0 <= i,
    ensures
        remove_id_from(exclusion, id, i).contains(e) <==> (e != id && exists|j: int|
            i <= j < exclusion.len() && exclusion[j] == e),
    decreases exclusion.len() - i,
{
    let whole = remove_id_from(exclusion, id, i);
    if i < exclusion.len() {
        lemma_remove_id_membership(exclusion, id, i + 1, e);
        let rest = remove_id_from(exclusion, id, i + 1);
        if exclusion[i] != id {
            assert(whole == seq![exclusion[i]] + rest);
            if e != id && exclusion[i] == e {
                assert(whole[0] == e);
                assert(whole.contains(e));
            }
            if rest.contains(e) {
                let k = choose|k: int| 0 <= k < rest.len() && rest[k] == e;
                assert(whole[k + 1] == e);
                assert(whole.contains(e));
            }
            if whole.contains(e) {
                let k = choose|k: int| 0 <= k < whole.len() && whole[k] == e;
                if k > 0 {
                    assert(rest[k - 1] == e);
                    assert(rest.contains(e));
                } else {
                    assert(i <= i < exclusion.len() && exclusion[i] == e);
                }
            }
        } else {
            if e != id && exists|j: int| i <= j < exclusion.len() && exclusion[j] == e {
                let j = choose|j: int| i <= j < exclusion.len() && exclusion[j] == e;
                assert(j != i);
            }
        }
    }
}

/// Membership after the decay: exactly the members still in contact.
pub proof fn lemma_retain_contacts_membership(exclusion: Seq<u64>, contacts: Seq<u64>, i: int,
    e: u64)
    requires
        0 <= i,
    ensures
        retain_contacts_from(exclusion, contacts, i).contains(e) <==> (contacts.contains(e)
            && exists|j: int| i <= j < exclusion.len() && exclusion[j] == e),
    decreases exclusion.len() - i,
{
    let whole = retain_contacts_from(exclusion, contacts, i);
    if i < exclusion.len() {
        lemma_retain_contacts_membership(exclusion, contacts, i + 1, e);
        let rest = retain_contacts_from(exclusion, contacts, i + 1);
        if contacts.contains(exclusion[i]) {
            assert(whole == seq![exclusion[i]] + rest);
            if contacts.contains(e) && exclusion[i] == e {
                assert(whole[0] == e);
                assert(whole.contains(e));
            }
            if rest.contains(e) {
                let k = choose|k: int| 0 <= k < rest.len() && rest[k] == e;
                assert(whole[k + 1] == e);
                assert(whole.contains(e));
            }
            if whole.contains(e) {
                let k = choose|k: int| 0 <= k < whole.len() && whole[k] == e;
                if k > 0 {
                    assert(rest[k - 1] == e);
                    assert(rest.contains(e));
                } else {
                    assert(i <= i < exclusion.len() && exclusion[i] == e);
                }
            }
        } else {
            if contacts.contains(e) && exists|j: int| i <= j < exclusion.len() && exclusion[j]
                == e {
                let j = choose|j: int| i <= j < exclusion.len() && exclusion[j] == e;
                assert(j != i);
            }
        }
    }
}

/// True when the vector holds `x`.
pub fn vec_contains(v: &Vec<u64>, x: u64) -> (b: bool)
    ensures
        b == v@.contains(x),
{
    let mut i: usize = 0;
    while i < v.len()
        invariant
            0 <= i <= v@.len(),
            forall|j: int| 0 <= j < i ==> v@[j] != x,
        decreases v@.len() - i,
    {
        if v[i] == x {
            return true;
        }
        i = i + 1;
    }
    false
}

/// The exclusion list with every entry for `id` dropped.
pub fn remove_id(exclusion: &Vec<u64>, id: u64) -> (r: Vec<u64>)
    ensures
        r@ == remove_id_s(exclusion@, id),
{
    let mut out: Vec<u64> = Vec::new();
    let mut i: usize = 0;
    while i < exclusion.len()
        invariant
            0 <= i <= exclusion@.len(),
            remove_id_from(exclusion@, id, 0) == out@ + remove_id_from(exclusion@, id, i as int),
        decreases exclusion@.len() - i,
    {
        if exclusion[i] != id {
            out.push(exclusion[i]);
            proof {
                assert(out@ + remove_id_from(exclusion@, id, i + 1) =~= out@.drop_last() + (seq![
                    exclusion@[i as int],
                ] + remove_id_from(exclusion@, id, i + 1)));
            }
        }
        i = i + 1;
    }
    proof {
        assert(out@ + remove_id_from(exclusion@, id, exclusion@.len() as int) =~= out@);
    }
    out
}

/// The exclusion list restricted to entries currently in contact.
pub fn retain_contacts(exclusion: &Vec<u64>, contacts: &Vec<u64>) -> (r: Vec<u64>)
    ensures
        r@ == retain_contacts_s(exclusion@, contacts@),
{
    let mut out: Vec<u64> = Vec::new();
    let mut i: usize = 0;
    while i < exclusion.len()
        invariant
            0 <= i <= exclusion@.len(),
            retain_contacts_from(exclusion@, contacts@, 0) == out@ + retain_contacts_from(
                exclusion@,
                contacts@,
                i as int,
            ),
        decreases exclusion@.len() - i,
    {
        if vec_contains(contacts, exclusion[i]) {
            out.push(exclusion[i]);
            proof {
                assert(out@ + retain_contacts_from(exclusion@, contacts@, i + 1)
                    =~= out@.drop_last() + (seq![exclusion@[i as int]] + retain_contacts_from(
                    exclusion@,
                    contacts@,
                    i + 1,
                )));
            }
        }
        i = i + 1;
    }
    proof {
        assert(out@ + retain_contacts_from(exclusion@, contacts@, exclusion@.len() as int)
            =~= out@);
    }
    out
}

/// The health left after one hit: `damage` is subtracted, clamped at zero.
pub open spec fn spec_apply_damage(health: int, damage: int) -> int {
    if damage >= health {
        0
    } else {
        health - damage
    }
}

/// Subtracts `damage` from `health`, clamped at zero.
pub fn apply_damage(health: u64, damage: u64) -> (h: u64)
    ensures
        h == spec_apply_damage(health as int, damage as int),
{
    if damage >= health {
        0
    } else {
        health - damage
    }
}

/// The health left after a whole sequence of hits, oldest first.
pub open spec fn apply_damage_seq(health: int, damages: Seq<u64>) -> int
    decreases damages.len(),
{
    if damages.len() == 0 {
        health
    } else {
        apply_damage_seq(spec_apply_damage(health, damages[0] as int), damages.skip(1))
    }
}

/// The sum of a sequence of damage values.
pub open spec fn damage_sum(damages: Seq<u64>) -> int
    decreases damages.len(),
{
    if damages.len() == 0 {
        0
    } else {
        damages[0] + damage_sum(damages.skip(1))
    }
}

/// Health floor law: however many hits land and whatever they deal,
/// health never goes below zero — it ends at the total damage subtracted
/// from the starting value, clamped at zero.
pub proof fn lemma_health_floor(health: int, damages: Seq<u64>)
    requires
        health >= 0,
    ensures
        apply_damage_seq(health, damages) >= 0,
        apply_damage_seq(health, damages) == spec_apply_damage(health, damage_sum(damages)),
    decreases damages.len(),
{
    if damages.len() > 0 {
        lemma_health_floor(spec_apply_damage(health, damages[0] as int), damages.skip(1));
        lemma_damage_sum_nonneg(damages.skip(1));
    }
}

/// A sum of damage values is never negative.
pub proof fn lemma_damage_sum_nonneg(damages: Seq<u64>)
    ensures
        damage_sum(damages) >= 0,
    decreases damages.len(),
{
    if damages.len() > 0 {
        lemma_damage_sum_nonneg(damages.skip(1));
    }
}

/// Exclusion decay law: a projectile whose exclusion list holds exactly
/// its firer never hits the firer while the entry stands, and once the
/// firer separates — whether the end-of-touch cleanup drops the entry or
/// the per-tick decay does, because the firer is no longer among the
/// contacts — a renewed touch does hit.
pub proof fn lemma_exclusion_consumed_by_separation(firer: u64, contacts: Seq<u64>)
    requires
        !contacts.contains(firer),
    ensures
        !hit_allowed(false, seq![firer], true, firer),
        hit_allowed(false, remove_id_s(seq![firer], firer), true, firer),
        hit_allowed(false, retain_contacts_s(seq![firer], contacts), true, firer),
{
    let single: Seq<u64> = seq![firer];
    assert(single.contains(firer)) by {
        assert(single[0] == firer);
    }
    lemma_remove_id_membership(single, firer, 0, firer);
    lemma_retain_contacts_membership(single, contacts, 0, firer);
}

}
