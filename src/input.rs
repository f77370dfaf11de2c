use vstd::prelude::*;
use crate::constants::PLAYER;
use crate::position::Position;
use crate::element::{
    Element, used, dropped, picked_up, AttackReport, strike, fighter_bounded, attack_damage, damaged, pick_item_up, drop_item, use_item,
};
use crate::fov::FovMap;
use crate::map::{Grid, move_by, moved};
use crate::state::GameState;

verus! {

/// What a key press amounted to.
#[derive(Clone, Copy, Debug, PartialEq, Eq, Structural)]
pub enum PlayerAction {
    TookTurn,
    DidntTakeTurn,
    Exit,
}

/// A player's request, decoded from a key press (and, for the inventory
/// commands, from the menu choice that followed it).
#[derive(Clone, Copy, Debug, PartialEq, Eq, Structural)]
pub enum Command {
    /// Step by `(dx, dy)`, or attack what stands there.
    Move { dx: i32, dy: i32 },
    /// Pick up an item where the player stands.
    PickUp,
    /// Use the chosen inventory item, if one was chosen.
    UseItem(Option<usize>),
    /// Drop the chosen inventory item, if one was chosen.
    DropItem(Option<usize>),
    Exit,
    /// Any other key.
    Nothing,
}

/// Element `k` is a fighter standing at `(x, y)`.
pub open spec fn fighter_at(elements: Seq<Element>, k: int, x: int, y: int) -> bool {
    &&& 0 <= k < elements.len()
    &&& elements[k].fighter.is_some()
    &&& elements[k].position.x == x
    &&& elements[k].position.y == y
}

/// Element `k` holds an item and stands at `p`.
pub open spec fn item_at(els: Seq<Element>, k: int, p: Position) -> bool {
    0 <= k < els.len() && els[k].item.is_some() && els[k].position == p
}

/// The state invariants that a turn relies on.
pub open spec fn playable(s: GameState) -> bool {
    &&& s.map.wf()
    &&& s.fov_map.wf()
    &&& s.fov_map.width() == s.map.width()
    &&& s.fov_map.height() == s.map.height()
    &&& PLAYER < s.elements@.len()
    &&& forall|k: int| 0 <= k < s.elements@.len() ==> fighter_bounded(#[trigger] s.elements@[k])
}

/// What `player_move_or_attack` does: with no fighter at the cell the player
/// steps to, `after` is `before` with the player moved (as `moved` says);
/// else the player strikes the first fighter there and `r` reports it.
pub open spec fn move_or_attack_outcome(
    map: Grid,
    before: Seq<Element>,
    after: Seq<Element>,
    dx: int,
    dy: int,
    r: Option<AttackReport>,
) -> bool {
    let p = before[PLAYER as int];
    let x = p.position.x + dx;
    let y = p.position.y + dy;
    &&& (forall|k: int| !#[trigger] fighter_at(before, k, x, y)) ==> r.is_none() && moved(map, before, after, PLAYER as int, dx, dy)
    &&& forall|t: int| #[trigger] fighter_at(before, t, x, y) && (forall|k: int| 0 <= k < t ==> !fighter_at(before, k, x, y)) ==> {
        &&& r matches Some(a)
        &&& a.damage == attack_damage(p, before[t])
        &&& a.damage > 0 ==> damaged(before[t], after[t], a.damage as int, a.death)
        &&& a.damage <= 0 ==> after == before
        &&& after.len() == before.len()
        &&& forall|k: int| 0 <= k < before.len() && k != t ==> #[trigger] after[k] == before[k]
    }
}

/// The player steps by `(dx, dy)`, or attacks the first fighter standing
/// there. Returns the attack, if one was made.
pub fn player_move_or_attack(map: &Grid, elements: &mut Vec<Element>, dx: i32, dy: i32) -> (r: Option<AttackReport>)
    requires
        map.wf(),
        PLAYER < old(elements)@.len(),
        dx != 0 || dy != 0,
        map.in_bounds(old(elements)@[PLAYER as int].position.x + dx, old(elements)@[PLAYER as int].position.y + dy),
        forall|k: int| 0 <= k < old(elements)@.len() ==> fighter_bounded(#[trigger] old(elements)@[k]),
    ensures
        move_or_attack_outcome(*map, old(elements)@, final(elements)@, dx as int, dy as int, r),
{
    let (x, y) = elements[PLAYER].pos();
    let new_x = x + dx;
    let new_y = y + dy;
    let mut k: usize = 0;
    while k < elements.len()
        invariant
            0 <= k <= elements@.len(),
            elements@ == old(elements)@,
            map.wf(),
            PLAYER < old(elements)@.len(),
            dx != 0 || dy != 0,
            x == old(elements)@[PLAYER as int].position.x && y == old(elements)@[PLAYER as int].position.y,
            map.in_bounds(x + dx, y + dy),
            forall|j: int| 0 <= j < old(elements)@.len() ==> fighter_bounded(#[trigger] old(elements)@[j]),
            new_x == x + dx && new_y == y + dy,
            forall|j: int| 0 <= j < k ==> !#[trigger] fighter_at(elements@, j, new_x as int, new_y as int),
        decreases elements@.len() - k,
    {
        if elements[k].fighter.is_some() && elements[k].position.x == new_x && elements[k].position.y == new_y {
            assert(fighter_at(old(elements)@, k as int, new_x as int, new_y as int));
            let report = strike(elements, PLAYER, k);
            return Some(report);
        }
        k = k + 1;
    }
    move_by(PLAYER, map, elements, dx, dy);
    None
}

/// Carries out one command of a living player. Moves and attacks take a
/// turn; a move off the grid does nothing but still takes the turn.
/// Returns the action and the attack made, if any.
pub fn handle_keys_player_mode(command: Command, game_state: &mut GameState) -> (r: (PlayerAction, Option<AttackReport>))
    requires
        playable(*old(game_state)),
    ensures
        r.0 == match command {
            Command::Move { .. } => PlayerAction::TookTurn,
            Command::Exit => PlayerAction::Exit,
            _ => PlayerAction::DidntTakeTurn,
        },
        final(game_state).map == old(game_state).map,
        final(game_state).fov_map == old(game_state).fov_map,
        final(game_state).log == old(game_state).log,
        (command == Command::Exit || command == Command::Nothing) ==> *final(game_state) == *old(game_state) && r.1.is_none(),
        !(command is Move) ==> r.1.is_none(),
        command matches Command::Move { dx, dy } ==> final(game_state).inventory == old(game_state).inventory && ({
            let p = old(game_state).elements@[PLAYER as int].position;
            if (dx != 0 || dy != 0) && old(game_state).map.in_bounds(p.x + dx, p.y + dy) {
                move_or_attack_outcome(
                    old(game_state).map,
                    old(game_state).elements@,
                    final(game_state).elements@,
                    dx as int,
                    dy as int,
                    r.1,
                )
            } else {
                *final(game_state) == *old(game_state) && r.1.is_none()
            }
        }),
        (command == Command::UseItem(None) || command == Command::DropItem(None)) ==> *final(game_state) == *old(game_state),
        command matches Command::UseItem(Some(i)) ==> if i < old(game_state).inventory@.len() {
            used(
                old(game_state).inventory@,
                old(game_state).elements@,
                i as int,
                final(game_state).inventory@,
                final(game_state).elements@,
            )
        } else {
            *final(game_state) == *old(game_state)
        },
        command matches Command::DropItem(Some(i)) ==> if i < old(game_state).inventory@.len() {
            dropped(
                old(game_state).inventory@,
                old(game_state).elements@,
                i as int,
                final(game_state).inventory@,
                final(game_state).elements@,
            )
        } else {
            *final(game_state) == *old(game_state)
        },
        command == Command::PickUp ==> ({
            let els = old(game_state).elements@;
            let p = els[PLAYER as int].position;
            &&& (forall|k: int| !#[trigger] item_at(els, k, p)) ==> *final(game_state) == *old(game_state)
            &&& forall|i: int| #[trigger] item_at(els, i, p) && (forall|k: int| 0 <= k < i ==> !item_at(els, k, p)) ==> picked_up(
                els,
                old(game_state).inventory@,
                i,
                final(game_state).elements@,
                final(game_state).inventory@,
            )
        }),
{
    match command {
        Command::Move { dx, dy } => {
            let (x, y) = game_state.elements[PLAYER].pos();
            let new_x = x as i64 + dx as i64;
            let new_y = y as i64 + dy as i64;
            let width = game_state.map.get_width() as i64;
            let height = game_state.map.get_height() as i64;
            if (dx != 0 || dy != 0) && 0 <= new_x && new_x < width && 0 <= new_y && new_y < height {
                let report = player_move_or_attack(&game_state.map, &mut game_state.elements, dx, dy);
                (PlayerAction::TookTurn, report)
            } else {
                (PlayerAction::TookTurn, None)
            }
        },
        Command::PickUp => {
            let (px, py) = game_state.elements[PLAYER].pos();
            let ghost p = game_state.elements@[PLAYER as int].position;
            let mut k: usize = 0;
            let mut found: Option<usize> = None;
            while k < game_state.elements.len() && found.is_none()
                invariant
                    0 <= k <= game_state.elements@.len(),
                    p.x == px && p.y == py,
                    found matches Some(i) ==> i < game_state.elements@.len() && item_at(game_state.elements@, i as int, p)
                        && forall|j: int| 0 <= j < i ==> !item_at(game_state.elements@, j, p),
                    found.is_none() ==> forall|j: int| 0 <= j < k ==> !#[trigger] item_at(game_state.elements@, j, p),
                decreases game_state.elements@.len() - k,
            {
                if game_state.elements[k].position.x == px && game_state.elements[k].position.y == py
                    && game_state.elements[k].item.is_some() {
                    found = Some(k);
                }
                k = k + 1;
            }
            if let Some(item_id) = found {
                pick_item_up(item_id, &mut game_state.elements, &mut game_state.inventory);
            }
            (PlayerAction::DidntTakeTurn, None)
        },
        Command::UseItem(choice) => {
            if let Some(i) = choice {
                if i < game_state.inventory.len() {
                    assert(fighter_bounded(game_state.elements@[PLAYER as int]));
                    use_item(i, &mut game_state.inventory, &mut game_state.elements);
                }
            }
            (PlayerAction::DidntTakeTurn, None)
        },
        Command::DropItem(choice) => {
            if let Some(i) = choice {
                if i < game_state.inventory.len() {
                    drop_item(i, &mut game_state.inventory, &mut game_state.elements);
                }
            }
            (PlayerAction::DidntTakeTurn, None)
        },
        Command::Exit => (PlayerAction::Exit, None),
        Command::Nothing => (PlayerAction::DidntTakeTurn, None),
    }
}

/// A dead player can only leave.
pub fn handle_keys_dead_mode(command: Command) -> (r: PlayerAction)
    ensures
        r == if command == Command::Exit {
            PlayerAction::Exit
        } else {
            PlayerAction::DidntTakeTurn
        },
{
    match command {
        Command::Exit => PlayerAction::Exit,
        _ => PlayerAction::DidntTakeTurn,
    }
}

/// Element `e` stands at `(x, y)`, a cell in sight.
pub open spec fn shown_at(e: Element, fov: FovMap, x: int, y: int) -> bool {
    e.position.x == x && e.position.y == y && fov.in_bounds(x, y) && fov.in_sight(x, y)
}

/// The names of the elements shown at `(x, y)`, in order.
pub open spec fn names_at(elements: Seq<Element>, fov: FovMap, x: int, y: int) -> Seq<Seq<char>>
    decreases elements.len(),
{
    if elements.len() == 0 {
        Seq::empty()
    } else {
        let rest = names_at(elements.drop_last(), fov, x, y);
        if shown_at(elements.last(), fov, x, y) {
            rest.push(elements.last().display_name@)
        } else {
            rest
        }
    }
}

/// The names of all elements at the cell under the mouse, `(x, y)`, that
/// are in sight.
pub fn get_names_under_mouse(x: i32, y: i32, elements: &Vec<Element>, fov_map: &FovMap) -> (r: Vec<String>)
    requires
        fov_map.wf(),
    ensures
        r@.len() == names_at(elements@, *fov_map, x as int, y as int).len(),
        forall|i: int| 0 <= i < r@.len() ==> #[trigger] r@[i]@ == names_at(elements@, *fov_map, x as int, y as int)[i],
{
    let width = fov_map.get_width() as i32;
    let height = fov_map.get_height() as i32;
    let mut names: Vec<String> = Vec::new();
    let mut k: usize = 0;
    while k < elements.len()
        invariant
            fov_map.wf(),
            width == fov_map.width() && height == fov_map.height(),
            0 <= k <= elements@.len(),
            names@.len() == names_at(elements@.subrange(0, k as int), *fov_map, x as int, y as int).len(),
            forall|i: int| 0 <= i < names@.len() ==> #[trigger] names@[i]@ == names_at(
                elements@.subrange(0, k as int),
                *fov_map,
                x as int,
                y as int,
            )[i],
        decreases elements@.len() - k,
    {
        assert(elements@.subrange(0, k + 1).drop_last() =~= elements@.subrange(0, k as int));
        if elements[k].position.x == x && elements[k].position.y == y && 0 <= x && x < width && 0 <= y && y < height
            && fov_map.is_in_sight(x, y) {
            names.push(elements[k].display_name.clone());
        }
        k = k + 1;
    }
    assert(elements@.subrange(0, elements@.len() as int) =~= elements@);
    names
}

} // verus!
