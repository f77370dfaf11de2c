use vstd::prelude::*;
use crate::constants::{MAP_HEIGHT, MAP_WIDTH, MAX_ROOMS, PLAYER, ROOM_MAX_SIZE, ROOM_MIN_SIZE};
use crate::element::{make_player, color_player_dead, is_player_at, Element, Color};
use crate::fov::FovMap;
use crate::map::{generate_map, laid_out, elements_in_rooms, is_floor, is_spawn, Grid, Rect};
use crate::messages::{push_message, Messages};
use crate::position::Position;

verus! {

/// Everything a game session holds.
pub struct GameState {
    pub elements: Vec<Element>,
    pub map: Grid,
    pub inventory: Vec<Element>,
    pub fov_map: FovMap,
    pub log: Messages,
}

/// A visibility map whose obstacles are the cells of `map` that block
/// sight, with nothing in sight yet.
pub fn fov_from_grid(map: &Grid) -> (r: FovMap)
    requires
        map.wf(),
    ensures
        r.wf(),
        r.width() == map.width(),
        r.height() == map.height(),
        forall|x: int, y: int| #[trigger] r.in_bounds(x, y) ==> r.obstacle(x, y) == map.tile(x, y).block_sight && !r.in_sight(
            x,
            y,
        ),
{
    let width = map.get_width() as i32;
    let height = if width == 0 { 0 } else { map.get_height() as i32 };
    let mut fov_map = FovMap::new(width, height);
    let mut x: i32 = 0;
    while x < width
        invariant
            map.wf(),
            fov_map.wf(),
            width == map.width(),
            height == map.height(),
            fov_map.width() == width && fov_map.height() == height,
            0 <= x <= width,
            forall|a: int, b: int| fov_map.in_bounds(a, b) ==> !#[trigger] fov_map.in_sight(a, b),
            forall|a: int, b: int| fov_map.in_bounds(a, b) ==> #[trigger] fov_map.obstacle(a, b) == (a < x && map.tile(a, b).block_sight),
        decreases width - x,
    {
        let mut y: i32 = 0;
        while y < height
            invariant
                map.wf(),
                fov_map.wf(),
                width == map.width(),
                height == map.height(),
                fov_map.width() == width && fov_map.height() == height,
                0 <= x < width,
                0 <= y <= height,
                forall|a: int, b: int| fov_map.in_bounds(a, b) ==> !#[trigger] fov_map.in_sight(a, b),
                forall|a: int, b: int| fov_map.in_bounds(a, b) ==> #[trigger] fov_map.obstacle(a, b) == ((a < x || (a == x && b < y))
                    && map.tile(a, b).block_sight),
            decreases height - y,
        {
            fov_map.set(x, y, map.is_opaque(x, y));
            y = y + 1;
        }
        x = x + 1;
    }
    fov_map
}

/// Starts a game: a fresh dungeon of the game's sizes, the player at its
/// start, the visibility map taken from it, an empty inventory and a
/// welcome message.
pub fn new_game() -> (r: GameState)
    ensures
        exists|rooms: Seq<Rect>| #[trigger]
            laid_out(
                r.map,
                rooms,
                (r.elements@[PLAYER as int].position.x as int, r.elements@[PLAYER as int].position.y as int),
                MAP_WIDTH as int,
                MAP_HEIGHT as int,
                MAX_ROOMS as int,
                ROOM_MIN_SIZE as int,
                ROOM_MAX_SIZE as int,
            ),
        r.elements@.len() >= 1,
        is_player_at(
            r.elements@[PLAYER as int],
            r.elements@[PLAYER as int].position.x as int,
            r.elements@[PLAYER as int].position.y as int,
        ),
        is_floor(r.map, (r.elements@[PLAYER as int].position.x as int, r.elements@[PLAYER as int].position.y as int)),
        forall|k: int| PLAYER < k < r.elements@.len() ==> is_spawn(#[trigger] r.elements@[k]),
        forall|k: int, j: int| PLAYER < k < r.elements@.len() && PLAYER < j < r.elements@.len() && j != k
            && (#[trigger] r.elements@[j]).block_movement && (#[trigger] r.elements@[k]).block_movement
            ==> r.elements@[j].position != r.elements@[k].position,
        r.fov_map.wf(),
        r.fov_map.width() == r.map.width(),
        r.fov_map.height() == r.map.height(),
        forall|x: int, y: int| #[trigger] r.fov_map.in_bounds(x, y) ==> r.fov_map.obstacle(x, y) == r.map.tile(x, y).block_sight
            && !r.fov_map.in_sight(x, y),
        r.inventory@.len() == 0,
        r.log@.len() == 1,
        r.log@[0].1 == (Color { r: 191, g: 0, b: 0 }),
{
    let player = make_player(0, 0);
    let mut elements: Vec<Element> = vec![player];
    let inventory: Vec<Element> = Vec::new();
    let mut log: Messages = Vec::new();
    let (map, starting_position) = generate_map(&mut elements);
    let ghost generated = elements@;
    elements[PLAYER].set_pos(starting_position.0, starting_position.1);
    assert(elements@[PLAYER as int].position == Position { x: starting_position.0, y: starting_position.1 });
    assert(forall|k: int| PLAYER < k < elements@.len() ==> #[trigger] elements@[k] == generated[k]);
    assert forall|k: int, j: int| PLAYER < k < elements@.len() && PLAYER < j < elements@.len() && j != k
        && (#[trigger] elements@[j]).block_movement && (#[trigger] elements@[k]).block_movement
        implies elements@[j].position != elements@[k].position by {
        assert(elements@[k] == generated[k] && elements@[j] == generated[j]);
    }
    let ghost rooms = choose|rooms: Seq<Rect>| #[trigger]
        laid_out(
            map,
            rooms,
            (starting_position.0 as int, starting_position.1 as int),
            MAP_WIDTH as int,
            MAP_HEIGHT as int,
            MAX_ROOMS as int,
            ROOM_MIN_SIZE as int,
            ROOM_MAX_SIZE as int,
        ) && elements_in_rooms(generated, 1, rooms);
    let fov_map = fov_from_grid(&map);
    push_message(
        &mut log,
        "Welcome stranger! Prepare to perish in the Tombs of the Ancient Kings.".to_owned(),
        color_player_dead(),
    );
    let r = GameState { elements, map, inventory, fov_map, log };
    assert(laid_out(
        r.map,
        rooms,
        (r.elements@[PLAYER as int].position.x as int, r.elements@[PLAYER as int].position.y as int),
        MAP_WIDTH as int,
        MAP_HEIGHT as int,
        MAX_ROOMS as int,
        ROOM_MIN_SIZE as int,
        ROOM_MAX_SIZE as int,
    ));
    r
}

} // verus!
