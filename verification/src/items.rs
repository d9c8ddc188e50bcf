//! Items: in an inventory, and dropped in the world.
use crate::packets::{add_to_inventory, byte, collect_item, entity};
use crate::player::PositionAndLook;
use crate::wire::{be16, be32, law_be16, law_be32};
use vstd::prelude::*;

verus! {

/// A stack of items of one type. The type -1 stands for an empty slot.
#[derive(Debug, Clone, Copy, PartialEq, Eq, Structural)]
pub struct Item {
    pub item_type: i16,
    pub count: i8,
    pub life: i16,
}

/// An empty slot.
pub open spec fn no_item() -> Item {
    Item { item_type: (-1) as i16, count: 0, life: 0 }
}

impl Default for Item {
    /// An empty slot.
    fn default() -> (r: Item)
        ensures
            r == no_item(),
    {
        Item { item_type: -1, count: 0, life: 0 }
    }
}

/// What a player carries.
#[derive(Debug)]
pub struct Inventory {
    pub main: [Item; 36],
    pub equipped: [Item; 4],
    pub crafting: [Item; 4],
}

impl Inventory {
    /// An inventory of empty slots.
    pub fn empty() -> (r: Inventory)
        ensures
            r.main@ == Seq::new(36, |i: int| no_item()),
            r.equipped@ == Seq::new(4, |i: int| no_item()),
            r.crafting@ == Seq::new(4, |i: int| no_item()),
    {
        let nothing: Item = Item::default();
        let r = Inventory { main: [nothing; 36], equipped: [nothing; 4], crafting: [nothing; 4] };
        assert(r.main@ =~= Seq::new(36, |i: int| no_item()));
        assert(r.equipped@ =~= Seq::new(4, |i: int| no_item()));
        assert(r.crafting@ =~= Seq::new(4, |i: int| no_item()));
        r
    }
}

/// An item that lies in the world.
#[derive(Debug, Clone, Copy, PartialEq, Eq, Structural)]
pub struct DroppedItem {
    pub eid: i32,
    pub item: Item,
    pub position: PositionAndLook,
}

/// The bytes that tell a player that they have picked up an item: the item goes to the player,
/// is added to the inventory, and its number is introduced anew.
pub open spec fn collected_bytes(dropped: DroppedItem, player_eid: i32) -> Seq<u8> {
    seq![0x16u8] + be32(dropped.eid as u32) + be32(player_eid as u32) + (seq![0x11u8] + be16(
        dropped.item.item_type as u16,
    ) + byte(dropped.item.count) + be16(dropped.item.life as u16)) + (seq![0x1eu8] + be32(
        dropped.eid as u32,
    ))
}

/// The bytes for those of the first `n` items that are near the player.
pub open spec fn all_collected_bytes(
    items: Seq<DroppedItem>,
    near: Seq<bool>,
    player_eid: i32,
    n: nat,
) -> Seq<u8>
    decreases n,
{
    if n == 0 {
        seq![]
    } else if near[n - 1] {
        all_collected_bytes(items, near, player_eid, (n - 1) as nat) + collected_bytes(
            items[n - 1],
            player_eid,
        )
    } else {
        all_collected_bytes(items, near, player_eid, (n - 1) as nat)
    }
}

/// Those of the first `n` positions that are marked, in ascending order.
pub open spec fn marked(near: Seq<bool>, n: nat) -> Seq<int>
    decreases n,
{
    if n == 0 {
        seq![]
    } else if near[n - 1] {
        marked(near, (n - 1) as nat).push(n - 1)
    } else {
        marked(near, (n - 1) as nat)
    }
}

/// What is left when items are removed one after the other, each at its position in what the
/// removals before it have left.
pub open spec fn removed_in_turn(items: Seq<DroppedItem>, positions: Seq<int>) -> Seq<DroppedItem>
    decreases positions.len(),
{
    if positions.len() == 0 {
        items
    } else {
        removed_in_turn(items, positions.drop_last()).remove(positions.last())
    }
}

/// Whether each of the removals finds an item at its position.
pub open spec fn removable_in_turn(len: nat, positions: Seq<int>) -> bool {
    forall|k: int|
        0 <= k < positions.len() ==> #[trigger] positions[k] < len - k
}

/// The positions that are marked.
fn marked_positions(near: &Vec<bool>) -> (r: Vec<usize>)
    ensures
        r@.len() == marked(near@, near@.len()).len(),
        forall|k: int| 0 <= k < r@.len() ==> #[trigger] r@[k] == marked(near@, near@.len())[k],
{
    let mut positions: Vec<usize> = Vec::new();
    for i in 0..near.len()
        invariant
            positions@.len() == marked(near@, i as nat).len(),
            forall|k: int|
                0 <= k < positions@.len() ==> #[trigger] positions@[k] == marked(near@, i as nat)[k],
    {
        if near[i] {
            positions.push(i);
        }
    }
    positions
}

/// Whether the marked items can be picked up together: removing them in turn, each at its
/// original position, must find an item every time.
pub fn can_pick_up(near: &Vec<bool>) -> (r: bool)
    ensures
        r == removable_in_turn(near@.len(), marked(near@, near@.len())),
{
    let positions: Vec<usize> = marked_positions(near);
    for k in 0..positions.len()
        invariant
            positions@.len() == marked(near@, near@.len()).len(),
            forall|j: int|
                0 <= j < positions@.len() ==> #[trigger] positions@[j] == marked(
                    near@,
                    near@.len(),
                )[j],
            forall|j: int|
                0 <= j < k ==> #[trigger] marked(near@, near@.len())[j] < near@.len() - j,
    {
        assert(positions@[k as int] == marked(near@, near@.len())[k as int]);
        if k > near.len() || positions[k] >= near.len() - k {
            return false;
        }
    }
    true
}

/// Lets a player pick up the items that are marked as near, and returns the bytes that tell them
/// so. The items are removed in turn, each at the position that it had at first.
pub fn pick_up(items: &mut Vec<DroppedItem>, near: &Vec<bool>, player_eid: i32) -> (r: Vec<u8>)
    requires
        near@.len() == old(items)@.len(),
        removable_in_turn(near@.len(), marked(near@, near@.len())),
    ensures
        r@ == all_collected_bytes(old(items)@, near@, player_eid, near@.len()),
        r@.len() == 20 * marked(near@, near@.len()).len(),
        final(items)@.len() == old(items)@.len() - marked(near@, near@.len()).len(),
        final(items)@ == removed_in_turn(old(items)@, marked(near@, near@.len())),
{
    let ghost before = items@;
    let mut bytes: Vec<u8> = Vec::new();
    for i in 0..near.len()
        invariant
            near@.len() == items@.len(),
            items@ == before,
            bytes@ == all_collected_bytes(before, near@, player_eid, i as nat),
    {
        if near[i] {
            let ghost so_far = bytes@;
            let dropped: DroppedItem = items[i];
            bytes.append(&mut collect_item(dropped.eid, player_eid));
            bytes.append(&mut add_to_inventory(&dropped.item));
            bytes.append(&mut entity(dropped.eid));
            assert(bytes@ =~= so_far + collected_bytes(dropped, player_eid));
        }
    }
    proof {
        law_every_marked_item_is_told(before, near@, player_eid, near@.len(), 0);
    }
    let positions: Vec<usize> = marked_positions(near);
    let ghost all = marked(near@, near@.len());
    assert(all.take(0) =~= seq![]);
    for k in 0..positions.len()
        invariant
            positions@.len() == all.len(),
            forall|j: int| 0 <= j < positions@.len() ==> #[trigger] positions@[j] == all[j],
            removable_in_turn(before.len(), all),
            items@.len() == before.len() - k,
            items@ == removed_in_turn(before, all.take(k as int)),
    {
        assert(positions@[k as int] == all[k as int]);
        assert(all.take(k + 1).drop_last() =~= all.take(k as int));
        items.remove(positions[k]);
    }
    assert(all.take(all.len() as int) =~= all);
    bytes
}

/// Where exactly one item is near, it is removed, and all others stay in their order.
pub proof fn law_single_item_is_picked_up(items: Seq<DroppedItem>, near: Seq<bool>, i: int)
    requires
        near.len() == items.len(),
        0 <= i < near.len(),
        near[i],
        forall|j: int| 0 <= j < near.len() && j != i ==> !#[trigger] near[j],
    ensures
        removable_in_turn(near.len(), marked(near, near.len())),
        removed_in_turn(items, marked(near, near.len())) == items.remove(i),
{
    lemma_single_mark(near, i, near.len());
    assert(seq![i].drop_last() =~= seq![]);
    assert(removed_in_turn(items, seq![i].drop_last()) == items);
}

/// A single mark gives a single position.
proof fn lemma_single_mark(near: Seq<bool>, i: int, n: nat)
    requires
        0 <= i < near.len(),
        n <= near.len(),
        near[i],
        forall|j: int| 0 <= j < near.len() && j != i ==> !#[trigger] near[j],
    ensures
        marked(near, n) == if i < n {
            seq![i]
        } else {
            seq![]
        },
    decreases n,
{
    if n > 0 {
        lemma_single_mark(near, i, (n - 1) as nat);
        if i == n - 1 {
            assert(seq![].push(i) =~= seq![i]);
        }
    }
}

/// Where no item is near, none is removed and nothing is sent.
pub proof fn law_nothing_near(items: Seq<DroppedItem>, near: Seq<bool>, player_eid: i32, n: nat)
    requires
        near.len() == items.len(),
        n <= near.len(),
        forall|j: int| 0 <= j < near.len() ==> !#[trigger] near[j],
    ensures
        removed_in_turn(items, marked(near, n)) == items,
        all_collected_bytes(items, near, player_eid, n) == Seq::<u8>::empty(),
    decreases n,
{
    if n > 0 {
        law_nothing_near(items, near, player_eid, (n - 1) as nat);
    }
}

/// The marked positions are those that are marked, each once and in ascending order.
pub proof fn law_marked_positions(near: Seq<bool>, n: nat)
    requires
        n <= near.len(),
    ensures
        forall|k: int|
            0 <= k < marked(near, n).len() ==> 0 <= #[trigger] marked(near, n)[k] < n
                && near[marked(near, n)[k]],
        forall|k: int, l: int|
            0 <= k < l < marked(near, n).len() ==> #[trigger] marked(near, n)[k]
                < #[trigger] marked(near, n)[l],
        forall|i: int|
            0 <= i < n && #[trigger] near[i] ==> exists|k: int|
                0 <= k < marked(near, n).len() && #[trigger] marked(near, n)[k] == i,
    decreases n,
{
    if n > 0 {
        law_marked_positions(near, (n - 1) as nat);
        let (few, all) = (marked(near, (n - 1) as nat), marked(near, n));
        assert forall|i: int| 0 <= i < n && #[trigger] near[i] implies exists|k: int|
            0 <= k < all.len() && #[trigger] all[k] == i by {
            if i < n - 1 {
                let k = choose|k: int| 0 <= k < few.len() && #[trigger] few[k] == i;
                assert(all[k] == i);
            } else {
                assert(all[all.len() - 1] == i);
            }
        }
    }
}

/// The bytes that tell of one item: it is collected by the player, added to the inventory with its
/// type, count and uses, and its number is introduced anew.
pub proof fn law_collected_item_is_told(dropped: DroppedItem, player_eid: i32)
    ensures
        collected_bytes(dropped, player_eid) == seq![0x16u8] + be32(dropped.eid as u32) + be32(
            player_eid as u32,
        ) + seq![0x11u8] + be16(dropped.item.item_type as u16) + seq![dropped.item.count as u8]
            + be16(dropped.item.life as u16) + seq![0x1eu8] + be32(dropped.eid as u32),
        collected_bytes(dropped, player_eid).len() == 20,
{
    law_be32(dropped.eid as u32);
    law_be32(player_eid as u32);
    law_be16(dropped.item.item_type as u16);
    law_be16(dropped.item.life as u16);
    assert(collected_bytes(dropped, player_eid) =~= seq![0x16u8] + be32(dropped.eid as u32) + be32(
        player_eid as u32,
    ) + seq![0x11u8] + be16(dropped.item.item_type as u16) + seq![dropped.item.count as u8] + be16(
        dropped.item.life as u16,
    ) + seq![0x1eu8] + be32(dropped.eid as u32));
}

/// Every item that is near is told to the player: there are 20 bytes for each, in the order of the
/// items, and those of the item at position `i` are its collect, inventory and entity packets.
pub proof fn law_every_marked_item_is_told(
    items: Seq<DroppedItem>,
    near: Seq<bool>,
    player_eid: i32,
    n: nat,
    i: int,
)
    requires
        near.len() == items.len(),
        n <= near.len(),
    ensures
        all_collected_bytes(items, near, player_eid, n).len() == 20 * marked(near, n).len(),
        0 <= i < n && near[i] ==> ({
            let from = 20 * marked(near, i as nat).len() as int;
            &&& from + 20 <= all_collected_bytes(items, near, player_eid, n).len()
            &&& all_collected_bytes(items, near, player_eid, n).subrange(from, from + 20)
                == seq![0x16u8] + be32(items[i].eid as u32) + be32(player_eid as u32) + seq![
                0x11u8,
            ] + be16(items[i].item.item_type as u16) + seq![items[i].item.count as u8] + be16(
                items[i].item.life as u16,
            ) + seq![0x1eu8] + be32(items[i].eid as u32)
        }),
    decreases n,
{
    if n > 0 {
        let m = (n - 1) as nat;
        law_every_marked_item_is_told(items, near, player_eid, m, i);
        law_collected_item_is_told(items[m as int], player_eid);
        if 0 <= i < n && near[i] {
            let from = 20 * marked(near, i as nat).len() as int;
            let (few, all) = (
                all_collected_bytes(items, near, player_eid, m),
                all_collected_bytes(items, near, player_eid, n),
            );
            if i == m {
                assert(all.subrange(from, from + 20) =~= collected_bytes(items[i], player_eid));
            } else {
                assert(all.subrange(from, from + 20) =~= few.subrange(from, from + 20));
            }
        }
    }
}

/// Where exactly one item is near, the player is told of this item and of nothing else.
pub proof fn law_single_item_is_told(
    items: Seq<DroppedItem>,
    near: Seq<bool>,
    player_eid: i32,
    i: int,
)
    requires
        near.len() == items.len(),
        0 <= i < near.len(),
        near[i],
        forall|j: int| 0 <= j < near.len() && j != i ==> !#[trigger] near[j],
    ensures
        all_collected_bytes(items, near, player_eid, near.len()) == seq![0x16u8] + be32(
            items[i].eid as u32,
        ) + be32(player_eid as u32) + seq![0x11u8] + be16(items[i].item.item_type as u16) + seq![
            items[i].item.count as u8,
        ] + be16(items[i].item.life as u16) + seq![0x1eu8] + be32(items[i].eid as u32),
{
    lemma_single_mark(near, i, near.len());
    lemma_single_mark(near, i, i as nat);
    law_every_marked_item_is_told(items, near, player_eid, near.len(), i);
    let all = all_collected_bytes(items, near, player_eid, near.len());
    assert(all.subrange(0, 20) =~= all);
}

/// Removing in turn at ascending positions takes as many items as there are positions, and keeps
/// the others in order: behind `k` of the positions, the items have moved up by `k`.
pub proof fn law_removed_in_turn(
    items: Seq<DroppedItem>,
    positions: Seq<int>,
    i: int,
    k: int,
)
    requires
        removable_in_turn(items.len(), positions),
        forall|a: int| 0 <= a < positions.len() ==> 0 <= #[trigger] positions[a],
        forall|a: int, b: int|
            0 <= a < b < positions.len() ==> #[trigger] positions[a] < #[trigger] positions[b],
        0 <= i < items.len() - positions.len(),
        0 <= k <= positions.len(),
        forall|a: int| 0 <= a < k ==> #[trigger] positions[a] <= i,
        forall|a: int| k <= a < positions.len() ==> i < #[trigger] positions[a],
    ensures
        removed_in_turn(items, positions).len() == items.len() - positions.len(),
        removed_in_turn(items, positions)[i] == items[i + k],
    decreases positions.len(),
{
    lemma_removed_len(items, positions);
    if positions.len() > 0 {
        let (few, p) = (positions.drop_last(), positions.last());
        assert(removable_in_turn(items.len(), few)) by {
            assert forall|a: int| 0 <= a < few.len() implies #[trigger] few[a] < items.len() - a by {
                assert(few[a] == positions[a]);
            }
        }
        assert forall|a: int, b: int| 0 <= a < b < few.len() implies #[trigger] few[a]
            < #[trigger] few[b] by {
            assert(few[a] == positions[a] && few[b] == positions[b]);
        }
        lemma_removed_len(items, few);
        let n = positions.len() as int;
        assert(positions[n - 1] == p);
        if k == n {
            assert forall|a: int| 0 <= a < few.len() implies #[trigger] few[a] <= i + 1 by {
                assert(few[a] == positions[a]);
            }
            law_removed_in_turn(items, few, i + 1, n - 1);
        } else {
            assert(i < p);
            law_removed_in_turn(items, few, i, k);
        }
    }
}

/// Each removal takes one item.
proof fn lemma_removed_len(items: Seq<DroppedItem>, positions: Seq<int>)
    requires
        removable_in_turn(items.len(), positions),
        forall|a: int| 0 <= a < positions.len() ==> 0 <= #[trigger] positions[a],
    ensures
        removed_in_turn(items, positions).len() == items.len() - positions.len(),
    decreases positions.len(),
{
    if positions.len() > 0 {
        let few = positions.drop_last();
        assert forall|a: int| 0 <= a < few.len() implies #[trigger] few[a] < items.len() - a && 0
            <= few[a] by {
            assert(few[a] == positions[a]);
        }
        lemma_removed_len(items, few);
        assert(positions[positions.len() - 1] == positions.last());
    }
}

/// The marked items can be removed in turn exactly if, for each of them, its position and the
/// number of marked ones before it together stay below the number of items.
pub proof fn law_removable_in_turn(near: Seq<bool>)
    ensures
        removable_in_turn(near.len(), marked(near, near.len())) <==> forall|k: int|
            0 <= k < marked(near, near.len()).len() ==> #[trigger] marked(near, near.len())[k] + k
                < near.len(),
{
}

} // verus!
