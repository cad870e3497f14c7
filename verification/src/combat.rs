//! Melee resolution: flat damage subtraction with hp clamped at zero and a
//! single transition to dead.

use vstd::prelude::*;

use crate::object::{no_blocking_overlap, Fighter, Object};

verus! {

/// Damage one melee exchange deals: `max(attacker power - defender defense, 0)`,
/// and nothing when either side has no combat stats.
pub open spec fn melee_damage(attacker: Object, defender: Object) -> int {
    if attacker.fighter is Some && defender.fighter is Some {
        let d = attacker.fighter->0.power - defender.fighter->0.defense;
        if d > 0 {
            d
        } else {
            0
        }
    } else {
        0
    }
}

/// The defender after one melee exchange: hp drops by the damage but never
/// below zero; when hp reaches zero the defender stops being alive and stops
/// blocking its tile. A defender or attacker without combat stats leaves the
/// defender untouched.
pub open spec fn after_melee(defender: Object, attacker: Object) -> Object {
    if attacker.fighter is Some && defender.fighter is Some {
        let f = defender.fighter->0;
        let hp2 = if f.hp - melee_damage(attacker, defender) > 0 {
            f.hp - melee_damage(attacker, defender)
        } else {
            0
        };
        Object {
            fighter: Some(Fighter { hp: hp2 as i32, ..f }),
            alive: defender.alive && hp2 > 0,
            blocks: defender.blocks && hp2 > 0,
            ..defender
        }
    } else {
        defender
    }
}

/// The actor collection after the actor at `attacker` strikes the actor at
/// `defender`: only the defender's record changes.
pub open spec fn spec_melee(s: Seq<Object>, attacker: int, defender: int) -> Seq<Object> {
    s.update(defender, after_melee(s[defender], s[attacker]))
}

/// Law: melee resolution preserves the invariant that no two blocking
/// actors share a tile — positions are untouched and a `blocks` flag can
/// only turn off (on death).
pub proof fn lemma_melee_no_blocking_overlap(s: Seq<Object>, attacker: int, defender: int)
    requires
        0 <= attacker < s.len(),
        0 <= defender < s.len(),
        no_blocking_overlap(s),
    ensures
        no_blocking_overlap(spec_melee(s, attacker, defender)),
{
    let s2 = spec_melee(s, attacker, defender);
    assert forall|i: int, j: int|
        0 <= i < j < s2.len() && (#[trigger] s2[i]).blocks && (#[trigger] s2[j]).blocks
            implies !(s2[i].x == s2[j].x && s2[i].y == s2[j].y) by {
        assert(s2[i].x == s[i].x && s2[i].y == s[i].y && (s2[i].blocks ==> s[i].blocks));
        assert(s2[j].x == s[j].x && s2[j].y == s[j].y && (s2[j].blocks ==> s[j].blocks));
        assert(s[i].blocks && s[j].blocks);
    }
}

/// Apply one melee exchange in place; see [`spec_melee`]. Both the player's
/// attacks and monster attacks go through this single rule.
pub fn resolve_melee(attacker_id: usize, defender_id: usize, objects: &mut Vec<Object>)
    requires
        attacker_id < old(objects)@.len(),
        defender_id < old(objects)@.len(),
    ensures
        final(objects)@ == spec_melee(old(objects)@, attacker_id as int, defender_id as int),
{
    let att_f: Option<Fighter> = objects[attacker_id].fighter;
    let def_f: Option<Fighter> = objects[defender_id].fighter;
    match (att_f, def_f) {
        (Some(af), Some(df)) => {
            let d64: i64 = af.power as i64 - df.defense as i64;
            let dmg: i64 = if d64 > 0 {
                d64
            } else {
                0
            };
            let hp64: i64 = df.hp as i64 - dmg;
            let hp2: i32 = if hp64 > 0 {
                hp64 as i32
            } else {
                0
            };
            let defender = &mut objects[defender_id];
            defender.fighter = Some(
                Fighter { max_hp: df.max_hp, hp: hp2, defense: df.defense, power: df.power },
            );
            if hp2 <= 0 {
                defender.alive = false;
                defender.blocks = false;
            }
            assert(objects@ =~= spec_melee(old(objects)@, attacker_id as int, defender_id as int));
        },
        _ => {
            assert(objects@ =~= spec_melee(old(objects)@, attacker_id as int, defender_id as int));
        },
    }
}

} // verus!
