use vstd::prelude::*;
use crate::element::{Element, AttackReport, strike, fighter_bounded, attack_damage, damaged};
use crate::fov::FovMap;
use crate::map::{Grid, move_by, moved};

verus! {

pub open spec fn sign(d: int) -> int {
    if d > 0 {
        1
    } else if d < 0 {
        -1
    } else {
        0
    }
}

/// One axis of a unit step toward an offset `(d, e)`: the offset along this
/// axis over the distance, rounded to the nearest integer, so the sign of `d`
/// when `|d|` is at least half the distance, else zero.
pub open spec fn step_toward(d: int, e: int) -> int {
    if d * d + e * e > 0 && 4 * (d * d) >= d * d + e * e {
        sign(d)
    } else {
        0
    }
}

/// Whether `a` and `b` are at distance 2 or more.
pub open spec fn far_apart(a: Element, b: Element) -> bool {
    let dx = b.position.x - a.position.x;
    let dy = b.position.y - a.position.y;
    dx * dx + dy * dy >= 4
}

fn step_component(d: i64, e: i64) -> (r: i32)
    requires
        -4294967295 <= d <= 4294967295,
        -4294967295 <= e <= 4294967295,
    ensures
        r == step_toward(d as int, e as int),
{
    assert(0 <= d * d <= 18446744065119617025) by (nonlinear_arith)
        requires
            -4294967295 <= d <= 4294967295,
    ;
    assert(0 <= e * e <= 18446744065119617025) by (nonlinear_arith)
        requires
            -4294967295 <= e <= 4294967295,
    ;
    let d2 = (d as i128) * (d as i128);
    let e2 = (e as i128) * (e as i128);
    if d2 + e2 > 0 && 4 * d2 >= d2 + e2 {
        if d > 0 {
            1
        } else if d < 0 {
            -1
        } else {
            0
        }
    } else {
        0
    }
}

/// Moves element `id` one step toward `(target_x, target_y)`.
fn move_towards(id: usize, target_x: i32, target_y: i32, map: &Grid, elements: &mut Vec<Element>)
    requires
        map.wf(),
        id < old(elements)@.len(),
        map.in_bounds(old(elements)@[id as int].position.x as int, old(elements)@[id as int].position.y as int),
        map.in_bounds(target_x as int, target_y as int),
    ensures
        ({
            let e = old(elements)@[id as int];
            let dx = target_x - e.position.x;
            let dy = target_y - e.position.y;
            moved(*map, old(elements)@, final(elements)@, id as int, step_toward(dx, dy), step_toward(dy, dx))
        }),
{
    let dx = target_x as i64 - elements[id].position.x as i64;
    let dy = target_y as i64 - elements[id].position.y as i64;
    let sx = step_component(dx, dy);
    let sy = step_component(dy, dx);
    move_by(id, map, elements, sx, sy);
}

/// A monster's turn: if the observer can see it, it walks toward the player
/// while at distance 2 or more, and otherwise attacks a player still alive.
/// Returns the attack, if one was made.
pub fn ai_take_turn(
    monster_id: usize,
    map: &Grid,
    elements: &mut Vec<Element>,
    player_id: usize,
    fov_map: &FovMap,
) -> (r: Option<AttackReport>)
    requires
        map.wf(),
        fov_map.wf(),
        monster_id < old(elements)@.len(),
        player_id < old(elements)@.len(),
        monster_id != player_id,
        map.in_bounds(old(elements)@[monster_id as int].position.x as int, old(elements)@[monster_id as int].position.y as int),
        map.in_bounds(old(elements)@[player_id as int].position.x as int, old(elements)@[player_id as int].position.y as int),
        fov_map.width() == map.width(),
        fov_map.height() == map.height(),
        fighter_bounded(old(elements)@[monster_id as int]),
        fighter_bounded(old(elements)@[player_id as int]),
    ensures
        ({
            let m = old(elements)@[monster_id as int];
            let p = old(elements)@[player_id as int];
            if !fov_map.in_sight(m.position.x as int, m.position.y as int) {
                final(elements)@ == old(elements)@ && r.is_none()
            } else if far_apart(m, p) {
                let dx = p.position.x - m.position.x;
                let dy = p.position.y - m.position.y;
                r.is_none() && moved(
                    *map,
                    old(elements)@,
                    final(elements)@,
                    monster_id as int,
                    step_toward(dx, dy),
                    step_toward(dy, dx),
                )
            } else if p.fighter matches Some(f) && f.hp > 0 {
                r matches Some(a) && a.damage == attack_damage(m, p) && (a.damage > 0 ==> damaged(
                    p,
                    final(elements)@[player_id as int],
                    a.damage as int,
                    a.death,
                )) && (a.damage <= 0 ==> final(elements)@ == old(elements)@)
            } else {
                final(elements)@ == old(elements)@ && r.is_none()
            }
        }),
{
    let (monster_x, monster_y) = elements[monster_id].pos();
    if fov_map.is_in_sight(monster_x, monster_y) {
        let (player_x, player_y) = elements[player_id].pos();
        let dx = player_x as i64 - monster_x as i64;
        let dy = player_y as i64 - monster_y as i64;
        assert(0 <= dx * dx <= 4611686014132420609 && 0 <= dy * dy <= 4611686014132420609) by (nonlinear_arith)
            requires
                -2147483647 <= dx <= 2147483647,
                -2147483647 <= dy <= 2147483647,
        ;
        if dx * dx + dy * dy >= 4 {
            move_towards(monster_id, player_x, player_y, map, elements);
            None
        } else {
            let alive = match elements[player_id].fighter {
                Some(f) => f.hp > 0,
                None => false,
            };
            if alive {
                Some(strike(elements, monster_id, player_id))
            } else {
                None
            }
        }
    } else {
        None
    }
}

} // verus!
