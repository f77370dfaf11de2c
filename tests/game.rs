use roguelike::ai::ai_take_turn;
use roguelike::constants::{MAX_INVENTORY_ITEMS, MSG_HEIGHT, PLAYER};
use roguelike::element::{
    drop_item, make_orc, make_player, make_potion, make_troll, pick_item_up, strike, use_item, Color,
    DeathCallback, Element, Item, UseResult,
};
use roguelike::fov::FovMap;
use roguelike::input::{
    get_names_under_mouse, handle_keys_dead_mode, handle_keys_player_mode, player_move_or_attack, Command,
    PlayerAction,
};
use roguelike::map::{create_room, move_by, Grid, Rect};
use roguelike::messages::{push_message, MessageLog, Messages};
use roguelike::position::Position;
use roguelike::render::{cell_background, draw_order, inventory_options, menu_choice};
use roguelike::state::{fov_from_grid, new_game, GameState};

fn open_grid() -> Grid {
    let mut g = Grid::walls(10, 10);
    create_room(Rect::new(0, 0, 9, 9), &mut g);
    g
}

#[test]
fn position_new_keeps_coordinates() {
    let p = Position::new(3, -4);
    assert_eq!((p.x, p.y), (3, -4));
}

#[test]
fn element_new_is_inert() {
    let e = Element::new(2, 3, "rock", '*', Color { r: 1, g: 2, b: 3 }, true);
    assert_eq!(e.pos(), (2, 3));
    assert_eq!(e.display_name, "rock");
    assert!(!e.alive && e.fighter.is_none() && e.ai.is_none() && e.item.is_none());
}

#[test]
fn makers_give_their_stats() {
    let orc = make_orc(1, 1);
    let f = orc.fighter.unwrap();
    assert_eq!((f.max_hp, f.hp, f.defense, f.strength), (10, 10, 0, 3));
    assert_eq!(orc.char, 'o');
    let troll = make_troll(1, 1);
    let f = troll.fighter.unwrap();
    assert_eq!((f.defense, f.strength), (1, 4));
    let player = make_player(0, 0);
    let f = player.fighter.unwrap();
    assert_eq!((f.max_hp, f.hp, f.defense, f.strength), (30, 30, 2, 5));
    let potion = make_potion(4, 4);
    assert_eq!(potion.item, Some(Item::Heal));
    assert!(!potion.block_movement);
}

#[test]
fn set_pos_moves_element() {
    let mut e = make_orc(1, 1);
    e.set_pos(5, 6);
    assert_eq!(e.pos(), (5, 6));
}

#[test]
fn heal_stops_at_maximum() {
    let mut p = make_player(0, 0);
    p.take_damage(10);
    p.heal(4);
    assert_eq!(p.fighter.unwrap().hp, 24);
    p.heal(100);
    assert_eq!(p.fighter.unwrap().hp, 30);
}

#[test]
fn take_damage_ignores_non_positive() {
    let mut orc = make_orc(0, 0);
    assert_eq!(orc.take_damage(-3), None);
    assert_eq!(orc.fighter.unwrap().hp, 10);
}

#[test]
fn monster_dies_into_remains() {
    let mut orc = make_orc(0, 0);
    assert_eq!(orc.take_damage(4), None);
    assert_eq!(orc.fighter.unwrap().hp, 6);
    assert_eq!(orc.take_damage(6), Some(DeathCallback::Monster));
    assert!(!orc.alive);
    assert_eq!(orc.char, '%');
    assert!(!orc.block_movement);
    assert!(orc.fighter.is_none() && orc.ai.is_none());
    assert_eq!(orc.display_name, "remains of orc");
}

#[test]
fn player_dies_but_keeps_name() {
    let mut p = make_player(0, 0);
    assert_eq!(p.take_damage(40), Some(DeathCallback::Player));
    assert!(!p.alive);
    assert_eq!(p.char, '%');
    assert_eq!(p.display_name, "player");
    assert_eq!(p.fighter.unwrap().hp, -10);
}

#[test]
fn attack_deals_strength_minus_defense() {
    let mut player = make_player(0, 0);
    let mut troll = make_troll(1, 0);
    let (damage, death) = player.attack(&mut troll);
    assert_eq!(damage, 4);
    assert_eq!(death, None);
    assert_eq!(troll.fighter.unwrap().hp, 6);
    let (damage, _) = troll.attack(&mut player);
    assert_eq!(damage, 2);
    assert_eq!(player.fighter.unwrap().hp, 28);
}

#[test]
fn attack_without_effect() {
    let mut potion = make_potion(0, 0);
    let mut player = make_player(1, 0);
    let (damage, death) = potion.attack(&mut player);
    assert_eq!(damage, -2);
    assert_eq!(death, None);
    assert_eq!(player.fighter.unwrap().hp, 30);
}

#[test]
fn strike_reports_names_and_damage() {
    let mut elements = vec![make_player(0, 0), make_orc(1, 0)];
    let r = strike(&mut elements, 0, 1);
    assert_eq!(r.attacker_name, "player");
    assert_eq!(r.target_name, "orc");
    assert_eq!(r.damage, 5);
    assert_eq!(elements[1].fighter.unwrap().hp, 5);
    let r = strike(&mut elements, 0, 1);
    assert_eq!(r.death, Some(DeathCallback::Monster));
    assert_eq!(elements[1].display_name, "remains of orc");
}

#[test]
fn pick_up_moves_item_to_inventory() {
    let mut elements = vec![make_player(0, 0), make_potion(0, 0), make_orc(3, 3)];
    let mut inventory: Vec<Element> = Vec::new();
    pick_item_up(1, &mut elements, &mut inventory);
    assert_eq!(inventory.len(), 1);
    assert_eq!(inventory[0].display_name, "potion");
    assert_eq!(elements.len(), 2);
    assert_eq!(elements[1].display_name, "orc");
}

#[test]
fn full_inventory_refuses_item() {
    let mut elements = vec![make_player(0, 0), make_potion(0, 0)];
    let mut inventory: Vec<Element> = (0..MAX_INVENTORY_ITEMS).map(|_| make_potion(0, 0)).collect();
    pick_item_up(1, &mut elements, &mut inventory);
    assert_eq!(inventory.len(), MAX_INVENTORY_ITEMS);
    assert_eq!(elements.len(), 2);
}

#[test]
fn drop_puts_item_under_player() {
    let mut elements = vec![make_player(4, 5)];
    let mut inventory = vec![make_potion(0, 0)];
    drop_item(0, &mut inventory, &mut elements);
    assert!(inventory.is_empty());
    assert_eq!(elements.len(), 2);
    assert_eq!(elements[1].pos(), (4, 5));
}

#[test]
fn potion_heals_and_is_used_up() {
    let mut elements = vec![make_player(0, 0)];
    elements[PLAYER].take_damage(7);
    let mut inventory = vec![make_potion(0, 0)];
    use_item(0, &mut inventory, &mut elements);
    assert!(inventory.is_empty());
    assert_eq!(elements[PLAYER].fighter.unwrap().hp, 28);
}

#[test]
fn potion_at_full_health_is_kept() {
    let mut elements = vec![make_player(0, 0)];
    let mut inventory = vec![make_potion(0, 0)];
    use_item(0, &mut inventory, &mut elements);
    assert_eq!(inventory.len(), 1);
    assert_eq!(elements[PLAYER].fighter.unwrap().hp, 30);
    assert_ne!(UseResult::UsedUp, UseResult::Cancelled);
}

#[test]
fn unusable_item_changes_nothing() {
    let mut elements = vec![make_player(0, 0)];
    elements[PLAYER].take_damage(7);
    let mut inventory = vec![make_orc(0, 0)];
    use_item(0, &mut inventory, &mut elements);
    assert_eq!(inventory.len(), 1);
    assert_eq!(elements[PLAYER].fighter.unwrap().hp, 23);
}

#[test]
fn move_by_respects_walls_and_blockers() {
    let g = open_grid();
    let mut elements = vec![make_player(1, 1), make_orc(2, 2), make_potion(1, 2)];
    move_by(0, &g, &mut elements, -1, 0);
    assert_eq!(elements[0].pos(), (1, 1));
    move_by(0, &g, &mut elements, 1, 1);
    assert_eq!(elements[0].pos(), (1, 1));
    move_by(0, &g, &mut elements, 0, 1);
    assert_eq!(elements[0].pos(), (1, 2));
}

#[test]
fn player_attacks_instead_of_moving() {
    let g = open_grid();
    let mut elements = vec![make_player(3, 3), make_orc(4, 3)];
    let r = player_move_or_attack(&g, &mut elements, 1, 0);
    assert_eq!(r.unwrap().damage, 5);
    assert_eq!(elements[0].pos(), (3, 3));
    let r = player_move_or_attack(&g, &mut elements, 0, 1);
    assert!(r.is_none());
    assert_eq!(elements[0].pos(), (3, 4));
}

fn state_with(elements: Vec<Element>) -> GameState {
    let map = open_grid();
    let fov_map = fov_from_grid(&map);
    GameState { elements, map, inventory: Vec::new(), fov_map, log: Vec::new() }
}

#[test]
fn commands_give_their_actions() {
    let mut s = state_with(vec![make_player(3, 3), make_potion(3, 3)]);
    let (a, r) = handle_keys_player_mode(Command::Move { dx: 0, dy: 1 }, &mut s);
    assert_eq!(a, PlayerAction::TookTurn);
    assert!(r.is_none());
    assert_eq!(s.elements[0].pos(), (3, 4));
    let (a, _) = handle_keys_player_mode(Command::Move { dx: 0, dy: -1 }, &mut s);
    assert_eq!(a, PlayerAction::TookTurn);
    let (a, _) = handle_keys_player_mode(Command::PickUp, &mut s);
    assert_eq!(a, PlayerAction::DidntTakeTurn);
    assert_eq!(s.inventory.len(), 1);
    let (a, _) = handle_keys_player_mode(Command::DropItem(Some(0)), &mut s);
    assert_eq!(a, PlayerAction::DidntTakeTurn);
    assert!(s.inventory.is_empty());
    assert_eq!(handle_keys_player_mode(Command::Exit, &mut s).0, PlayerAction::Exit);
    assert_eq!(handle_keys_player_mode(Command::Nothing, &mut s).0, PlayerAction::DidntTakeTurn);
    assert_eq!(handle_keys_player_mode(Command::UseItem(None), &mut s).0, PlayerAction::DidntTakeTurn);
}

#[test]
fn move_off_grid_does_nothing() {
    let mut s = state_with(vec![make_player(0, 0)]);
    let (a, r) = handle_keys_player_mode(Command::Move { dx: -1, dy: 0 }, &mut s);
    assert_eq!(a, PlayerAction::TookTurn);
    assert!(r.is_none());
    assert_eq!(s.elements[0].pos(), (0, 0));
}

#[test]
fn dead_player_can_only_exit() {
    assert_eq!(handle_keys_dead_mode(Command::Exit), PlayerAction::Exit);
    assert_eq!(handle_keys_dead_mode(Command::Move { dx: 1, dy: 0 }), PlayerAction::DidntTakeTurn);
}

#[test]
fn monster_out_of_sight_waits() {
    let g = open_grid();
    let fov = fov_from_grid(&g);
    let mut elements = vec![make_player(1, 1), make_orc(6, 6)];
    assert!(ai_take_turn(1, &g, &mut elements, 0, &fov).is_none());
    assert_eq!(elements[1].pos(), (6, 6));
}

#[test]
fn monster_in_sight_approaches_then_attacks() {
    let g = open_grid();
    let mut fov = fov_from_grid(&g);
    let mut elements = vec![make_player(1, 1), make_orc(5, 2)];
    fov.compute_fov(1, 1, 8);
    assert!(ai_take_turn(1, &g, &mut elements, 0, &fov).is_none());
    // offset (-4, -1): the x step is taken, the y step is not
    assert_eq!(elements[1].pos(), (4, 2));
    elements[1].set_pos(2, 2);
    let r = ai_take_turn(1, &g, &mut elements, 0, &fov).unwrap();
    assert_eq!(r.damage, 1);
    assert_eq!(elements[0].fighter.unwrap().hp, 29);
}

#[test]
fn monster_steps_diagonally() {
    let g = open_grid();
    let mut fov = fov_from_grid(&g);
    fov.compute_fov(1, 1, 8);
    let mut elements = vec![make_player(1, 1), make_orc(4, 4)];
    ai_take_turn(1, &g, &mut elements, 0, &fov);
    assert_eq!(elements[1].pos(), (3, 3));
}

#[test]
fn names_under_mouse_only_in_sight() {
    let g = open_grid();
    let mut fov = fov_from_grid(&g);
    let elements = vec![make_player(1, 1), make_orc(2, 1), make_potion(2, 1), make_troll(8, 8)];
    assert!(get_names_under_mouse(2, 1, &elements, &fov).is_empty());
    fov.compute_fov(1, 1, 3);
    assert_eq!(get_names_under_mouse(2, 1, &elements, &fov), vec!["orc".to_string(), "potion".to_string()]);
    assert!(get_names_under_mouse(8, 8, &elements, &fov).is_empty());
    assert!(get_names_under_mouse(-1, 40, &elements, &fov).is_empty());
}

#[test]
fn log_keeps_last_messages() {
    let mut log: Messages = Vec::new();
    let c = Color { r: 0, g: 0, b: 0 };
    for i in 0..10 {
        push_message(&mut log, format!("m{}", i), c);
    }
    assert_eq!(log.len(), MSG_HEIGHT);
    assert_eq!(log[0].0, "m4");
    assert_eq!(log[MSG_HEIGHT - 1].0, "m9");
    log.add("last".to_string(), c);
    assert_eq!(log[0].0, "m5");
    assert_eq!(log[MSG_HEIGHT - 1].0, "last");
}

#[test]
fn new_game_places_player_on_floor() {
    let s = new_game();
    let (x, y) = s.elements[PLAYER].pos();
    assert!(!s.map.is_blocking(x, y));
    assert!(s.inventory.is_empty());
    assert_eq!(s.log.len(), 1);
    for x in 0..80 {
        for y in 0..43 {
            assert_eq!(s.fov_map.is_obstacle(x, y), s.map.is_opaque(x, y));
            assert!(!s.fov_map.is_in_sight(x, y));
        }
    }
}

#[test]
fn backgrounds_by_light_and_kind() {
    assert_eq!(cell_background(false, true, true), None);
    assert_eq!(cell_background(true, false, true), Some(Color { r: 10, g: 5, b: 5 }));
    assert_eq!(cell_background(true, false, false), Some(Color { r: 50, g: 32, b: 32 }));
    assert_eq!(cell_background(true, true, true), Some(Color { r: 40, g: 15, b: 15 }));
    assert_eq!(cell_background(true, true, false), Some(Color { r: 60, g: 42, b: 32 }));
}

#[test]
fn draw_order_puts_blockers_last() {
    let g = open_grid();
    let mut fov = fov_from_grid(&g);
    fov.compute_fov(1, 1, 4);
    let elements = vec![make_player(1, 1), make_potion(2, 1), make_orc(2, 2), make_troll(8, 8), make_potion(1, 2)];
    assert_eq!(draw_order(&elements, &fov), vec![1, 4, 0, 2]);
}

#[test]
fn menu_letters_pick_options() {
    assert_eq!(menu_choice('a', 3), Some(0));
    assert_eq!(menu_choice('C', 3), Some(2));
    assert_eq!(menu_choice('d', 3), None);
    assert_eq!(menu_choice('1', 3), None);
    assert_eq!(menu_choice('é', 26), None);
}

#[test]
fn inventory_menu_lines() {
    assert_eq!(inventory_options(&Vec::new()), vec!["Inventory is empty.".to_string()]);
    let inv = vec![make_potion(0, 0), make_orc(0, 0)];
    assert_eq!(inventory_options(&inv), vec!["potion".to_string(), "orc".to_string()]);
}
