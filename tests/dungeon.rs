use roguelike::element::{make_player, Element};
use roguelike::fov::FovMap;
use roguelike::map::{
    place_drawn, place_elements, create_h_tunnel, create_room, create_v_tunnel, explore, generate, generate_map, is_blocked, Grid, Rect, Tile,
};

#[test]
fn tiles_are_floor_or_wall() {
    let f = Tile::empty();
    assert!(!f.block_movement && !f.block_sight && !f.explored);
    let w = Tile::wall();
    assert!(w.block_movement && w.block_sight && !w.explored);
}

#[test]
fn rect_corners_and_center() {
    let r = Rect::new(2, 3, 6, 5);
    assert_eq!((r.x1, r.y1, r.x2, r.y2), (2, 3, 8, 8));
    assert_eq!(r.center(), (5, 5));
    assert_eq!(Rect::new(0, 0, 7, 7).center(), (3, 3));
}

#[test]
fn touching_rooms_intersect() {
    let a = Rect::new(0, 0, 4, 4);
    let b = Rect::new(4, 0, 4, 4);
    let c = Rect::new(5, 0, 4, 4);
    assert!(a.intersects_with(&b));
    assert!(b.intersects_with(&a));
    assert!(!a.intersects_with(&c));
    assert!(Rect::new(1, 1, 1, 1).intersects_with(&a));
}

#[test]
fn room_carves_interior_only() {
    let mut g = Grid::walls(10, 8);
    create_room(Rect::new(1, 1, 4, 3), &mut g);
    for x in 0..10 {
        for y in 0..8 {
            let inside = x >= 2 && x <= 4 && y >= 2 && y <= 3;
            assert_eq!(g.is_blocking(x, y), !inside, "({}, {})", x, y);
            assert_eq!(g.is_opaque(x, y), !inside);
        }
    }
}

#[test]
fn tunnels_include_both_ends() {
    let mut g = Grid::walls(10, 10);
    create_h_tunnel(7, 2, 4, &mut g);
    for x in 0..10 {
        assert_eq!(g.is_blocking(x, 4), !(2..=7).contains(&x));
    }
    create_v_tunnel(1, 1, 9, &mut g);
    assert!(!g.is_blocking(9, 1));
    assert!(g.is_blocking(9, 0));
    assert!(g.is_blocking(9, 2));
}

#[test]
fn explore_marks_seen_cells_and_keeps_old_ones() {
    let mut g = Grid::walls(5, 1);
    let mut fov = FovMap::new(5, 1);
    fov.compute_fov(0, 0, 2);
    explore(&mut g, &fov);
    assert!(g.is_explored(0, 0));
    assert!(g.is_explored(1, 0));
    assert!(!g.is_explored(2, 0));
    fov.compute_fov(4, 0, 2);
    explore(&mut g, &fov);
    assert!(g.is_explored(0, 0));
    assert!(g.is_explored(1, 0));
    assert!(g.is_explored(3, 0));
    assert!(g.is_explored(4, 0));
    assert!(!g.is_explored(2, 0));
    assert!(g.is_blocking(0, 0));
}

#[test]
fn blocked_by_wall_or_blocking_element() {
    let mut g = Grid::walls(5, 5);
    create_room(Rect::new(0, 0, 4, 4), &mut g);
    let elements: Vec<Element> = vec![make_player(1, 1)];
    assert!(is_blocked(0, 0, &g, &elements));
    assert!(is_blocked(1, 1, &g, &elements));
    assert!(!is_blocked(2, 2, &g, &elements));
}

fn reachable(g: &Grid, from: (i32, i32), to: (i32, i32)) -> bool {
    let w = g.get_width() as i32;
    let h = g.get_height() as i32;
    let mut seen = vec![false; (w * h) as usize];
    let mut stack = vec![from];
    while let Some((x, y)) = stack.pop() {
        if x < 0 || y < 0 || x >= w || y >= h || seen[(x * h + y) as usize] || g.is_blocking(x, y) {
            continue;
        }
        if (x, y) == to {
            return true;
        }
        seen[(x * h + y) as usize] = true;
        stack.extend([(x + 1, y), (x - 1, y), (x, y + 1), (x, y - 1)]);
    }
    false
}

#[test]
fn generated_rooms_are_apart_carved_and_connected() {
    for _ in 0..20 {
        let mut elements: Vec<Element> = vec![make_player(0, 0)];
        let (g, rooms, start) = generate(60, 40, 25, 4, 9, 3, 2, &mut elements);
        assert_eq!(g.get_width(), 60);
        assert_eq!(g.get_height(), 40);
        assert!(rooms.len() <= 25);
        assert!(!rooms.is_empty());
        assert_eq!(start, rooms[0].center());
        for i in 0..rooms.len() {
            for j in 0..rooms.len() {
                if i != j {
                    assert!(!rooms[i].intersects_with(&rooms[j]));
                }
            }
            let r = rooms[i];
            assert!(r.x1 >= 0 && r.y1 >= 0 && r.x2 < 60 && r.y2 < 40);
            assert!(r.x2 - r.x1 >= 4 && r.x2 - r.x1 <= 9);
            for x in r.x1 + 1..r.x2 {
                for y in r.y1 + 1..r.y2 {
                    assert!(!g.is_blocking(x, y));
                }
            }
            assert!(reachable(&g, start, r.center()));
        }
        assert_eq!(elements[0].pos(), (0, 0));
        for e in &elements[1..] {
            let (x, y) = e.pos();
            assert!(rooms.iter().any(|r| r.x1 < x && x < r.x2 && r.y1 < y && y < r.y2));
            assert!(!g.is_blocking(x, y));
        }
    }
}

#[test]
fn random_placement_varies() {
    let mut most_rooms = 0;
    let mut starts = Vec::new();
    for _ in 0..20 {
        let mut elements: Vec<Element> = Vec::new();
        let (_, rooms, start) = generate(60, 40, 25, 4, 9, 0, 0, &mut elements);
        assert!(elements.is_empty());
        most_rooms = most_rooms.max(rooms.len());
        starts.push(start);
    }
    assert!(most_rooms >= 2);
    assert!(starts.iter().any(|s| *s != starts[0]));
}

#[test]
fn zero_room_attempts_leave_all_walls() {
    let mut elements: Vec<Element> = Vec::new();
    let (g, rooms, _) = generate(12, 12, 0, 3, 5, 1, 1, &mut elements);
    assert!(rooms.is_empty());
    assert!(elements.is_empty());
    for x in 0..12 {
        for y in 0..12 {
            assert!(g.is_blocking(x, y));
        }
    }
}

#[test]
fn generate_map_has_game_size() {
    let mut elements: Vec<Element> = vec![make_player(0, 0)];
    let (g, start) = generate_map(&mut elements);
    assert_eq!(g.get_width(), 80);
    assert_eq!(g.get_height(), 43);
    assert!(!g.is_blocking(start.0, start.1));
}

#[test]
fn drawn_monsters_then_potions_skip_blocked_cells() {
    let mut g = Grid::walls(10, 10);
    let room = Rect::new(0, 0, 6, 6);
    create_room(room, &mut g);
    let mut elements: Vec<Element> = vec![make_player(1, 1)];
    let monsters = vec![(2, 2, 10), (3, 3, 80), (2, 2, 5), (1, 1, 0), (4, 4, 79)];
    let items = vec![(2, 2), (5, 5), (5, 5)];
    place_drawn(&g, room, &mut elements, &monsters, &items);
    let names: Vec<(&str, (i32, i32))> = elements.iter().map(|e| (e.display_name.as_str(), e.pos())).collect();
    assert_eq!(
        names,
        vec![
            ("player", (1, 1)),
            ("orc", (2, 2)),
            ("troll", (3, 3)),
            ("orc", (4, 4)),
            ("potion", (5, 5)),
            ("potion", (5, 5)),
        ]
    );
}

#[test]
fn placed_elements_stay_in_room_and_apart() {
    for _ in 0..50 {
        let mut g = Grid::walls(12, 12);
        let room = Rect::new(2, 2, 4, 4);
        create_room(room, &mut g);
        let mut elements: Vec<Element> = Vec::new();
        place_elements(&g, room, &mut elements, 3, 2);
        let monsters = elements.iter().take_while(|e| e.block_movement).count();
        assert!(monsters <= 3);
        assert!(elements.len() - monsters <= 2);
        assert!(elements[monsters..].iter().all(|e| e.display_name == "potion"));
        for (i, e) in elements.iter().enumerate() {
            let (x, y) = e.pos();
            assert!(x > 2 && x < 6 && y > 2 && y < 6);
            for (j, f) in elements.iter().enumerate() {
                if i != j && f.block_movement {
                    assert_ne!(f.pos(), e.pos());
                }
            }
        }
    }
}

#[test]
fn generated_border_is_wall_and_first_attempt_kept() {
    for _ in 0..10 {
        let mut elements: Vec<Element> = Vec::new();
        let (g, rooms, start) = generate(30, 20, 1, 3, 6, 0, 0, &mut elements);
        assert_eq!(rooms.len(), 1);
        assert!(!g.is_blocking(start.0, start.1));
        for x in 0..30 {
            assert!(g.is_blocking(x, 0) && g.is_blocking(x, 19));
        }
        for y in 0..20 {
            assert!(g.is_blocking(0, y) && g.is_blocking(29, y));
        }
        let r = rooms[0];
        for x in 0..30 {
            for y in 0..20 {
                let inside = r.x1 < x && x < r.x2 && r.y1 < y && y < r.y2;
                assert_eq!(!g.is_blocking(x, y), inside);
            }
        }
    }
}
