use vstd::prelude::*;
use crate::element::{Color, Element};
use crate::fov::FovMap;

verus! {

/// The background of a cell: none until explored; then lit or dark, wall or
/// ground, by whether it is in sight and whether it blocks sight.
pub open spec fn background_of(explored: bool, visible: bool, wall: bool) -> Option<Color> {
    if !explored {
        None
    } else if visible {
        if wall {
            Some(Color { r: 40, g: 15, b: 15 })
        } else {
            Some(Color { r: 60, g: 42, b: 32 })
        }
    } else if wall {
        Some(Color { r: 10, g: 5, b: 5 })
    } else {
        Some(Color { r: 50, g: 32, b: 32 })
    }
}

pub fn cell_background(explored: bool, visible: bool, wall: bool) -> (r: Option<Color>)
    ensures
        r == background_of(explored, visible, wall),
{
    if !explored {
        None
    } else {
        let color = match (visible, wall) {
            (false, true) => Color { r: 10, g: 5, b: 5 },
            (false, false) => Color { r: 50, g: 32, b: 32 },
            (true, true) => Color { r: 40, g: 15, b: 15 },
            (true, false) => Color { r: 60, g: 42, b: 32 },
        };
        Some(color)
    }
}

/// Element `e` stands on a cell in sight.
pub open spec fn in_view(e: Element, fov: FovMap) -> bool {
    fov.in_bounds(e.position.x as int, e.position.y as int) && fov.in_sight(e.position.x as int, e.position.y as int)
}

/// The indices below `n` of the elements in view whose blocking flag is
/// `blocking`, in order.
pub open spec fn in_view_with(elements: Seq<Element>, fov: FovMap, n: int, blocking: bool) -> Seq<usize>
    decreases n,
{
    if n <= 0 {
        Seq::empty()
    } else {
        let rest = in_view_with(elements, fov, n - 1, blocking);
        let e = elements[n - 1];
        if in_view(e, fov) && e.block_movement == blocking {
            rest.push((n - 1) as usize)
        } else {
            rest
        }
    }
}

/// The order in which to draw elements: those in view, the ones that do not
/// block movement first, each group in the elements' own order.
pub fn draw_order(elements: &Vec<Element>, fov_map: &FovMap) -> (r: Vec<usize>)
    requires
        fov_map.wf(),
    ensures
        r@ == in_view_with(elements@, *fov_map, elements@.len() as int, false) + in_view_with(
            elements@,
            *fov_map,
            elements@.len() as int,
            true,
        ),
{
    let width = fov_map.get_width() as i32;
    let height = fov_map.get_height() as i32;
    let mut below: Vec<usize> = Vec::new();
    let mut above: Vec<usize> = Vec::new();
    let mut k: usize = 0;
    while k < elements.len()
        invariant
            fov_map.wf(),
            width == fov_map.width() && height == fov_map.height(),
            0 <= k <= elements@.len(),
            below@ == in_view_with(elements@, *fov_map, k as int, false),
            above@ == in_view_with(elements@, *fov_map, k as int, true),
        decreases elements@.len() - k,
    {
        let x = elements[k].position.x;
        let y = elements[k].position.y;
        if 0 <= x && x < width && 0 <= y && y < height && fov_map.is_in_sight(x, y) {
            if elements[k].block_movement {
                above.push(k);
            } else {
                below.push(k);
            }
        }
        k = k + 1;
    }
    let mut i: usize = 0;
    let ghost below0 = below@;
    while i < above.len()
        invariant
            0 <= i <= above@.len(),
            below@ == below0 + above@.subrange(0, i as int),
        decreases above@.len() - i,
    {
        below.push(above[i]);
        i = i + 1;
        assert(below@ =~= below0 + above@.subrange(0, i as int));
    }
    assert(above@.subrange(0, above@.len() as int) =~= above@);
    below
}

/// The option that a key picks in a menu of `option_count` options: the
/// letter's place in the alphabet, either case.
pub open spec fn menu_index(key: char, option_count: int) -> Option<usize> {
    let lower = if 'A' <= key <= 'Z' { (key as int) + 32 } else { key as int };
    if 'a' as int <= lower <= 'z' as int && lower - ('a' as int) < option_count {
        Some((lower - ('a' as int)) as usize)
    } else {
        None
    }
}

/// The menu option chosen by `key`, if any.
pub fn menu_choice(key: char, option_count: usize) -> (r: Option<usize>)
    requires
        option_count <= 26,
    ensures
        r == menu_index(key, option_count as int),
{
    let code = key as u32;
    let lower: u32 = if 65 <= code && code <= 90 { code + 32 } else { code };
    if 97 <= lower && lower <= 122 && ((lower - 97) as usize) < option_count {
        Some((lower - 97) as usize)
    } else {
        None
    }
}

/// The lines of the inventory menu: the items' names, or a note that the
/// inventory is empty.
pub fn inventory_options(inventory: &Vec<Element>) -> (r: Vec<String>)
    ensures
        inventory@.len() == 0 ==> r@.len() == 1 && r@[0]@ == "Inventory is empty."@,
        inventory@.len() > 0 ==> r@.len() == inventory@.len() && forall|i: int| 0 <= i < r@.len() ==> #[trigger] r@[i]@
            == inventory@[i].display_name@,
{
    let mut options: Vec<String> = Vec::new();
    if inventory.len() == 0 {
        options.push("Inventory is empty.".to_owned());
        proof { reveal_strlit("Inventory is empty."); }
    } else {
        let mut k: usize = 0;
        while k < inventory.len()
            invariant
                0 <= k <= inventory@.len(),
                options@.len() == k,
                forall|i: int| 0 <= i < k ==> #[trigger] options@[i]@ == inventory@[i].display_name@,
            decreases inventory@.len() - k,
        {
            options.push(inventory[k].display_name.clone());
            k = k + 1;
        }
    }
    options
}

} // verus!
