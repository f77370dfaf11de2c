use vstd::prelude::*;
use crate::position::Position;
use crate::constants::{PLAYER, MAX_INVENTORY_ITEMS};
use vstd::string::StringExecFns;

verus! {

/// A display colour as red, green and blue components.
#[derive(Clone, Copy, Debug, PartialEq, Eq, Structural)]
pub struct Color {
    pub r: u8,
    pub g: u8,
    pub b: u8,
}


/// The player's colour (white).
pub fn color_player() -> (c: Color)
    ensures
        c == (Color { r: 255, g: 255, b: 255 }),
{
    Color { r: 255, g: 255, b: 255 }
}

/// A dead player's colour (dark red).
pub fn color_player_dead() -> (c: Color)
    ensures
        c == (Color { r: 191, g: 0, b: 0 }),
{
    Color { r: 191, g: 0, b: 0 }
}

/// An orc's colour (desaturated green).
pub fn color_monster_orc() -> (c: Color)
    ensures
        c == (Color { r: 63, g: 127, b: 63 }),
{
    Color { r: 63, g: 127, b: 63 }
}

/// A troll's colour (darker green).
pub fn color_monster_troll() -> (c: Color)
    ensures
        c == (Color { r: 0, g: 127, b: 0 }),
{
    Color { r: 0, g: 127, b: 0 }
}

/// A dead monster's colour (dark red).
pub fn color_monster_dead() -> (c: Color)
    ensures
        c == (Color { r: 191, g: 0, b: 0 }),
{
    Color { r: 191, g: 0, b: 0 }
}

/// A potion's colour (violet).
pub fn color_potion() -> (c: Color)
    ensures
        c == (Color { r: 127, g: 0, b: 255 }),
{
    Color { r: 127, g: 0, b: 255 }
}

/// What an item does when used.
#[derive(Clone, Copy, Debug, PartialEq, Eq, Structural)]
pub enum Item {
    Heal,
}

/// What happens to a fighter whose hit points run out.
#[derive(Clone, Copy, Debug, PartialEq, Eq, Structural)]
pub enum DeathCallback {
    Player,
    Monster,
}

/// Combat statistics.
#[derive(Clone, Copy, Debug, PartialEq, Eq, Structural)]
pub struct Fighter {
    pub max_hp: i32,
    pub hp: i32,
    pub defense: i32,
    pub strength: i32,
    pub on_death: DeathCallback,
}

/// Marks an element that takes monster turns.
#[derive(Clone, Copy, Debug, PartialEq, Eq, Structural)]
pub struct Ai;

/// Anything that stands on the map: the player, a monster, an item.
#[derive(Debug)]
pub struct Element {
    pub position: Position,
    pub char: char,
    pub color: Color,
    pub block_movement: bool,
    pub alive: bool,
    pub display_name: String,
    pub fighter: Option<Fighter>,
    pub ai: Option<Ai>,
    pub item: Option<Item>,
}

impl Element {
    /// A new element, not alive, with no fighter, ai or item.
    pub fn new(x: i32, y: i32, display_name: &str, char: char, color: Color, block_movement: bool) -> (r: Element)
        ensures
            r.position == (Position { x, y }),
            r.display_name@ == display_name@,
            r.char == char,
            r.color == color,
            r.block_movement == block_movement,
            !r.alive,
            r.fighter.is_none(),
            r.ai.is_none(),
            r.item.is_none(),
    {
        Element {
            position: Position::new(x, y),
            display_name: display_name.to_owned(),
            char,
            color,
            block_movement,
            alive: false,
            fighter: None,
            ai: None,
            item: None,
        }
    }

    pub fn pos(&self) -> (r: (i32, i32))
        ensures
            r == (self.position.x, self.position.y),
    {
        (self.position.x, self.position.y)
    }

    pub fn set_pos(&mut self, x: i32, y: i32)
        ensures
            final(self).position == (Position { x, y }),
            final(self).char == old(self).char,
            final(self).color == old(self).color,
            final(self).block_movement == old(self).block_movement,
            final(self).alive == old(self).alive,
            final(self).display_name == old(self).display_name,
            final(self).fighter == old(self).fighter,
            final(self).ai == old(self).ai,
            final(self).item == old(self).item,
    {
        self.position.x = x;
        self.position.y = y;
    }

    /// Heals by `amount`, without going over the maximum.
    pub fn heal(&mut self, amount: i32)
        requires
            old(self).fighter matches Some(f) ==> i32::MIN <= f.hp + amount <= i32::MAX,
        ensures
            *final(self) == (Element {
                fighter: match old(self).fighter {
                    Some(f) => Some(Fighter { hp: if f.hp + amount > f.max_hp { f.max_hp } else { (f.hp + amount) as i32 }, ..f }),
                    None => None,
                },
                ..*old(self)
            }),
    {
        if let Some(f) = self.fighter {
            let mut hp = f.hp + amount;
            if hp > f.max_hp {
                hp = f.max_hp;
            }
            self.fighter = Some(Fighter { hp, ..f });
        }
    }
}

/// `e` is a fresh orc standing at `(x, y)`.
pub open spec fn is_orc_at(e: Element, x: int, y: int) -> bool {
    &&& e.position.x == x
    &&& e.position.y == y
    &&& e.display_name@ == "orc"@
    &&& e.char == 'o'
    &&& e.color == (Color { r: 63, g: 127, b: 63 })
    &&& e.block_movement == true
    &&& e.alive == true
    &&& e.fighter == Some(Fighter { max_hp: 10, hp: 10, defense: 0, strength: 3, on_death: DeathCallback::Monster })
    &&& e.ai == Some(Ai)
    &&& e.item.is_none()
}

/// `e` is a fresh troll standing at `(x, y)`.
pub open spec fn is_troll_at(e: Element, x: int, y: int) -> bool {
    &&& e.position.x == x
    &&& e.position.y == y
    &&& e.display_name@ == "troll"@
    &&& e.char == 'T'
    &&& e.color == (Color { r: 0, g: 127, b: 0 })
    &&& e.block_movement == true
    &&& e.alive == true
    &&& e.fighter == Some(Fighter { max_hp: 10, hp: 10, defense: 1, strength: 4, on_death: DeathCallback::Monster })
    &&& e.ai == Some(Ai)
    &&& e.item.is_none()
}

/// `e` is a fresh player standing at `(x, y)`.
pub open spec fn is_player_at(e: Element, x: int, y: int) -> bool {
    &&& e.position.x == x
    &&& e.position.y == y
    &&& e.display_name@ == "player"@
    &&& e.char == '@'
    &&& e.color == (Color { r: 255, g: 255, b: 255 })
    &&& e.block_movement == true
    &&& e.alive == true
    &&& e.fighter == Some(Fighter { max_hp: 30, hp: 30, defense: 2, strength: 5, on_death: DeathCallback::Player })
    &&& e.ai.is_none()
    &&& e.item.is_none()
}

/// `e` is a fresh potion standing at `(x, y)`.
pub open spec fn is_potion_at(e: Element, x: int, y: int) -> bool {
    &&& e.position.x == x
    &&& e.position.y == y
    &&& e.display_name@ == "potion"@
    &&& e.char == '!'
    &&& e.color == (Color { r: 127, g: 0, b: 255 })
    &&& e.block_movement == false
    &&& e.alive == false
    &&& e.fighter.is_none()
    &&& e.ai.is_none()
    &&& e.item == Some(Item::Heal)
}

pub fn make_orc(x: i32, y: i32) -> (r: Element)
    ensures
        is_orc_at(r, x as int, y as int),
{
    let mut orc = Element::new(x, y, "orc", 'o', color_monster_orc(), true);
    orc.fighter = Some(Fighter { max_hp: 10, hp: 10, defense: 0, strength: 3, on_death: DeathCallback::Monster });
    orc.ai = Some(Ai);
    orc.alive = true;
    orc
}

pub fn make_troll(x: i32, y: i32) -> (r: Element)
    ensures
        is_troll_at(r, x as int, y as int),
{
    let mut troll = Element::new(x, y, "troll", 'T', color_monster_troll(), true);
    troll.fighter = Some(Fighter { max_hp: 10, hp: 10, defense: 1, strength: 4, on_death: DeathCallback::Monster });
    troll.ai = Some(Ai);
    troll.alive = true;
    troll
}

pub fn make_player(x: i32, y: i32) -> (r: Element)
    ensures
        is_player_at(r, x as int, y as int),
{
    let mut player = Element::new(x, y, "player", '@', color_player(), true);
    player.alive = true;
    player.fighter = Some(Fighter { max_hp: 30, hp: 30, defense: 2, strength: 5, on_death: DeathCallback::Player });
    player
}

pub fn make_potion(x: i32, y: i32) -> (r: Element)
    ensures
        is_potion_at(r, x as int, y as int),
{
    let mut potion = Element::new(x, y, "potion", '!', color_potion(), false);
    potion.item = Some(Item::Heal);
    potion
}

/// What `take_damage` does to `before`, giving `after` and reporting `died`:
/// a positive `damage` comes off a fighter's hit points; a fighter left at
/// zero or below dies, and its death callback runs.
pub open spec fn damaged(before: Element, after: Element, damage: int, died: Option<DeathCallback>) -> bool {
    match before.fighter {
        None => died.is_none() && after == before,
        Some(f) => {
            let hp = if damage > 0 { f.hp - damage } else { f.hp as int };
            let hurt = Fighter { hp: hp as i32, ..f };
            if hp > 0 {
                died.is_none() && after == (Element { fighter: Some(hurt), ..before })
            } else {
                &&& died == Some(f.on_death)
                &&& !after.alive
                &&& after.position == before.position
                &&& after.char == '%'
                &&& after.item == before.item
                &&& match f.on_death {
                    DeathCallback::Player => {
                        &&& after.color == (Color { r: 191, g: 0, b: 0 })
                        &&& after.fighter == Some(hurt)
                        &&& after.block_movement == before.block_movement
                        &&& after.ai == before.ai
                        &&& after.display_name == before.display_name
                    },
                    DeathCallback::Monster => {
                        &&& after.color == (Color { r: 191, g: 0, b: 0 })
                        &&& after.fighter.is_none()
                        &&& !after.block_movement
                        &&& after.ai.is_none()
                        &&& after.display_name@ == "remains of "@ + before.display_name@
                    },
                }
            }
        },
    }
}

/// The damage `attacker` deals to `target`: its strength less the target's
/// defense, a missing fighter counting as zero.
pub open spec fn attack_damage(attacker: Element, target: Element) -> int {
    (match attacker.fighter {
        Some(f) => f.strength as int,
        None => 0,
    }) - (match target.fighter {
        Some(f) => f.defense as int,
        None => 0,
    })
}

impl DeathCallback {
    /// Turns `element` into a corpse of its kind.
    pub fn callback(self, element: &mut Element)
        ensures
            final(element).position == old(element).position,
            final(element).alive == old(element).alive,
            final(element).item == old(element).item,
            final(element).char == '%',
            self == DeathCallback::Player ==> {
                &&& final(element).color == (Color { r: 191, g: 0, b: 0 })
                &&& final(element).fighter == old(element).fighter
                &&& final(element).block_movement == old(element).block_movement
                &&& final(element).ai == old(element).ai
                &&& final(element).display_name == old(element).display_name
            },
            self == DeathCallback::Monster ==> {
                &&& final(element).color == (Color { r: 191, g: 0, b: 0 })
                &&& final(element).fighter.is_none()
                &&& !final(element).block_movement
                &&& final(element).ai.is_none()
                &&& final(element).display_name@ == "remains of "@ + old(element).display_name@
            },
    {
        match self {
            DeathCallback::Player => player_death(element),
            DeathCallback::Monster => monster_death(element),
        }
    }
}

fn player_death(player: &mut Element)
    ensures
        *final(player) == (Element { char: '%', color: Color { r: 191, g: 0, b: 0 }, ..*old(player) }),
{
    player.char = '%';
    player.color = color_player_dead();
}

fn monster_death(monster: &mut Element)
    ensures
        final(monster).position == old(monster).position,
        final(monster).alive == old(monster).alive,
        final(monster).item == old(monster).item,
        final(monster).char == '%',
        final(monster).color == (Color { r: 191, g: 0, b: 0 }),
        final(monster).fighter.is_none(),
        !final(monster).block_movement,
        final(monster).ai.is_none(),
        final(monster).display_name@ == "remains of "@ + old(monster).display_name@,
{
    monster.char = '%';
    monster.color = color_monster_dead();
    monster.block_movement = false;
    monster.fighter = None;
    monster.ai = None;
    let prefix = "remains of ".to_owned();
    proof { reveal_strlit("remains of "); }
    monster.display_name = prefix.concat(monster.display_name.as_str());
}

impl Element {
    /// Takes `damage` hit points (none if it is not positive); a fighter left
    /// at zero or below dies. Returns the death callback that ran, if any.
    pub fn take_damage(&mut self, damage: i32) -> (died: Option<DeathCallback>)
        requires
            old(self).fighter matches Some(f) ==> damage > 0 ==> f.hp - damage >= i32::MIN,
        ensures
            damaged(*old(self), *final(self), damage as int, died),
    {
        if let Some(f) = self.fighter {
            if damage > 0 {
                self.fighter = Some(Fighter { hp: f.hp - damage, ..f });
            }
        }
        if let Some(f) = self.fighter {
            if f.hp <= 0 {
                self.alive = false;
                f.on_death.callback(self);
                return Some(f.on_death);
            }
        }
        None
    }

    /// Strikes `target`: deals `attack_damage` when positive. Returns the
    /// damage and the target's death callback if it died.
    pub fn attack(&mut self, target: &mut Element) -> (r: (i32, Option<DeathCallback>))
        requires
            i32::MIN <= attack_damage(*old(self), *old(target)) <= i32::MAX,
            old(target).fighter matches Some(f) ==> f.hp - attack_damage(*old(self), *old(target)) >= i32::MIN,
        ensures
            *final(self) == *old(self),
            r.0 == attack_damage(*old(self), *old(target)),
            r.0 > 0 ==> damaged(*old(target), *final(target), r.0 as int, r.1),
            r.0 <= 0 ==> *final(target) == *old(target) && r.1.is_none(),
    {
        let strength: i64 = match self.fighter {
            Some(f) => f.strength as i64,
            None => 0,
        };
        let defense: i64 = match target.fighter {
            Some(f) => f.defense as i64,
            None => 0,
        };
        let damage = (strength - defense) as i32;
        if damage > 0 {
            let died = target.take_damage(damage);
            (damage, died)
        } else {
            (damage, None)
        }
    }
}

/// Outcome of using an item.
#[derive(Clone, Copy, Debug, PartialEq, Eq, Structural)]
pub enum UseResult {
    UsedUp,
    Cancelled,
}

/// What `pick_item_up` does: element `id` moves into the inventory (the last
/// element taking its place), unless the inventory is full.
pub open spec fn picked_up(els: Seq<Element>, inv: Seq<Element>, id: int, els2: Seq<Element>, inv2: Seq<Element>) -> bool {
    if inv.len() >= MAX_INVENTORY_ITEMS {
        els2 == els && inv2 == inv
    } else {
        els2 == els.update(id, els.last()).drop_last() && inv2 == inv.push(els[id])
    }
}

/// What `drop_item` does: inventory item `id` goes down where the player stands.
pub open spec fn dropped(inv: Seq<Element>, els: Seq<Element>, id: int, inv2: Seq<Element>, els2: Seq<Element>) -> bool {
    &&& inv2 == inv.remove(id)
    &&& els2 == els.push(Element { position: els[PLAYER as int].position, ..inv[id] })
}

/// What `use_item` does with inventory item `id`: a healing potion heals the
/// player and is used up unless the use is cancelled; another item changes nothing.
pub open spec fn used(inv: Seq<Element>, els: Seq<Element>, id: int, inv2: Seq<Element>, els2: Seq<Element>) -> bool {
    &&& els2.len() == els.len()
    &&& forall|k: int| 0 <= k < els2.len() && k != PLAYER ==> #[trigger] els2[k] == els[k]
    &&& inv[id].item.is_none() ==> els2 == els && inv2 == inv
    &&& inv[id].item == Some(Item::Heal) ==> exists|r: UseResult| #[trigger]
        healed(els[PLAYER as int], els2[PLAYER as int], r) && inv2 == if r == UseResult::UsedUp {
        inv.remove(id)
    } else {
        inv
    }
}

/// Moves element `object_id` into the inventory, unless the inventory is full.
pub fn pick_item_up(object_id: usize, elements: &mut Vec<Element>, inventory: &mut Vec<Element>)
    requires
        object_id < old(elements)@.len(),
    ensures
        picked_up(old(elements)@, old(inventory)@, object_id as int, final(elements)@, final(inventory)@),
{
    if inventory.len() >= MAX_INVENTORY_ITEMS {
    } else {
        let item = elements.swap_remove(object_id);
        inventory.push(item);
    }
}

/// Takes item `inventory_id` out of the inventory and puts it down where the
/// player stands.
pub fn drop_item(inventory_id: usize, inventory: &mut Vec<Element>, elements: &mut Vec<Element>)
    requires
        inventory_id < old(inventory)@.len(),
        PLAYER < old(elements)@.len(),
    ensures
        dropped(old(inventory)@, old(elements)@, inventory_id as int, final(inventory)@, final(elements)@),
{
    let mut item = inventory.remove(inventory_id);
    let x = elements[PLAYER].position.x;
    let y = elements[PLAYER].position.y;
    item.set_pos(x, y);
    elements.push(item);
}

/// Heals the player by 5, unless it has no fighter or is at full health.
fn cast_heal(_inventory_id: usize, elements: &mut Vec<Element>) -> (r: UseResult)
    requires
        PLAYER < old(elements)@.len(),
        old(elements)@[PLAYER as int].fighter matches Some(f) ==> f.hp + 5 <= i32::MAX,
    ensures
        final(elements)@.len() == old(elements)@.len(),
        forall|k: int| 0 <= k < final(elements)@.len() && k != PLAYER ==> #[trigger] final(elements)@[k] == old(elements)@[k],
        healed(old(elements)@[PLAYER as int], final(elements)@[PLAYER as int], r),
{
    if let Some(f) = elements[PLAYER].fighter {
        if f.hp == f.max_hp {
            return UseResult::Cancelled;
        }
        elements[PLAYER].heal(5);
        return UseResult::UsedUp;
    }
    UseResult::Cancelled
}

/// What a healing potion does to the player `before`, giving `after`.
pub open spec fn healed(before: Element, after: Element, r: UseResult) -> bool {
    match before.fighter {
        Some(f) if f.hp != f.max_hp => {
            &&& r == UseResult::UsedUp
            &&& after == (Element {
                fighter: Some(Fighter { hp: if f.hp + 5 > f.max_hp { f.max_hp } else { (f.hp + 5) as i32 }, ..f }),
                ..before
            })
        },
        _ => r == UseResult::Cancelled && after == before,
    }
}

/// Uses item `inventory_id`: a healing potion heals the player and is used
/// up; an item that cannot be used, or a cancelled use, changes nothing.
pub fn use_item(inventory_id: usize, inventory: &mut Vec<Element>, elements: &mut Vec<Element>)
    requires
        inventory_id < old(inventory)@.len(),
        PLAYER < old(elements)@.len(),
        old(elements)@[PLAYER as int].fighter matches Some(f) ==> f.hp + 5 <= i32::MAX,
    ensures
        used(old(inventory)@, old(elements)@, inventory_id as int, final(inventory)@, final(elements)@),
{
    if let Some(item) = inventory[inventory_id].item {
        let result = match item {
            Item::Heal => cast_heal(inventory_id, elements),
        };
        match result {
            UseResult::UsedUp => {
                inventory.remove(inventory_id);
            },
            UseResult::Cancelled => {},
        }
    }
}

/// Fighter statistics small enough that a blow cannot overflow.
pub open spec fn fighter_bounded(e: Element) -> bool {
    e.fighter matches Some(f) ==> {
        &&& -1048576 <= f.hp <= 1048576
        &&& -1048576 <= f.max_hp <= 1048576
        &&& -1048576 <= f.strength <= 1048576
        &&& -1048576 <= f.defense <= 1048576
    }
}

/// Whether `e`'s fighter statistics are small enough that a blow cannot overflow.
pub fn is_fighter_bounded(e: &Element) -> (r: bool)
    ensures
        r == fighter_bounded(*e),
{
    match e.fighter {
        Some(f) => -1048576 <= f.hp && f.hp <= 1048576 && -1048576 <= f.max_hp && f.max_hp <= 1048576 && -1048576
            <= f.strength && f.strength <= 1048576 && -1048576 <= f.defense && f.defense <= 1048576,
        None => true,
    }
}

/// What an attack did, for the message log.
#[derive(Debug)]
pub struct AttackReport {
    pub attacker_name: String,
    pub target_name: String,
    pub damage: i32,
    pub death: Option<DeathCallback>,
}

/// Element `attacker` strikes element `target`, as `Element::attack` does.
pub fn strike(elements: &mut Vec<Element>, attacker: usize, target: usize) -> (r: AttackReport)
    requires
        attacker < old(elements)@.len(),
        target < old(elements)@.len(),
        fighter_bounded(old(elements)@[attacker as int]),
        fighter_bounded(old(elements)@[target as int]),
    ensures
        final(elements)@.len() == old(elements)@.len(),
        forall|k: int| 0 <= k < final(elements)@.len() && k != target ==> #[trigger] final(elements)@[k] == old(elements)@[k],
        r.attacker_name@ == old(elements)@[attacker as int].display_name@,
        r.target_name@ == old(elements)@[target as int].display_name@,
        r.damage == attack_damage(old(elements)@[attacker as int], old(elements)@[target as int]),
        r.damage > 0 ==> damaged(old(elements)@[target as int], final(elements)@[target as int], r.damage as int, r.death),
        r.damage <= 0 ==> final(elements)@ == old(elements)@ && r.death.is_none(),
{
    let strength: i32 = match elements[attacker].fighter {
        Some(f) => f.strength,
        None => 0,
    };
    let defense: i32 = match elements[target].fighter {
        Some(f) => f.defense,
        None => 0,
    };
    let attacker_name = elements[attacker].display_name.clone();
    let target_name = elements[target].display_name.clone();
    let damage = strength - defense;
    if damage > 0 {
        let death = elements[target].take_damage(damage);
        AttackReport { attacker_name, target_name, damage, death }
    } else {
        AttackReport { attacker_name, target_name, damage, death: None }
    }
}

} // verus!
