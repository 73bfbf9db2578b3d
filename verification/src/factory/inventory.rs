//! Moving items into and out of an inventory component.
use vstd::prelude::*;

use super::component::{InventoryState, ItemSlot};
use crate::util::{
    lemma_set_sum_change_one, lemma_set_sum_nonneg, lemma_set_sum_remove, lemma_set_sum_zero,
    map_get_mut, map_keys, set_sum,
};

verus! {

broadcast use vstd::std_specs::hash::group_hash_axioms;

/// Count that the slot under `k` holds of item `id` (0 for other items).
pub open spec fn slot_count_of(m: Map<u32, ItemSlot>, id: Seq<char>) -> spec_fn(u32) -> int {
    |k: u32| if m[k].item_id@ == id { m[k].count as int } else { 0 }
}

/// Total count of item `id` over all slots.
pub open spec fn inv_total(m: Map<u32, ItemSlot>, id: Seq<char>) -> int {
    set_sum(m.dom(), slot_count_of(m, id))
}

/// Whether a slot holds `id` under instance `inst_id`.
pub open spec fn slot_matches(s: ItemSlot, id: Seq<char>, inst_id: u32) -> bool {
    s.item_id@ == id && s.inst_id == inst_id
}

/// The least key at or above `from` that the map does not use.
pub open spec fn is_first_free_key(m: Map<u32, ItemSlot>, from: u32, k: u32) -> bool {
    &&& k >= from
    &&& !m.contains_key(k)
    &&& forall|j: u32| from <= j < k ==> m.contains_key(j)
}

/// Adds `count` of an item to a bag: onto a slot holding the same item
/// and instance when there is one, otherwise into a new slot under the
/// first free key at or above `inst_id`.
pub fn push_item_to_bag(inv: &mut InventoryState, item_id: &str, count: u32, inst_id: u32)
    requires
        forall|k: u32|
            #[trigger] old(inv).items@.contains_key(k) && slot_matches(old(inv).items@[k], item_id@, inst_id)
                ==> old(inv).items@[k].count + count <= u32::MAX,
        exists|k: u32| k >= inst_id && !#[trigger] old(inv).items@.contains_key(k),
    ensures
        (exists|k: u32| #[trigger] old(inv).items@.contains_key(k) && slot_matches(old(inv).items@[k], item_id@, inst_id))
            ==> exists|k: u32|
            #[trigger] old(inv).items@.contains_key(k) && slot_matches(old(inv).items@[k], item_id@, inst_id)
                && final(inv).items@ == old(inv).items@.insert(
                k,
                ItemSlot { count: (old(inv).items@[k].count + count) as u32, ..old(inv).items@[k] },
            ),
        !(exists|k: u32| #[trigger] old(inv).items@.contains_key(k) && slot_matches(old(inv).items@[k], item_id@, inst_id))
            ==> exists|k: u32|
            #[trigger] is_first_free_key(old(inv).items@, inst_id, k) && final(inv).items@[k].item_id@ == item_id@
                && final(inv).items@ == old(inv).items@.insert(k, final(inv).items@[k]) && final(inv).items@[k].count
                == count && final(inv).items@[k].inst_id == inst_id,
{
    let keys = map_keys(&inv.items);
    let ghost m = inv.items@;
    let key_s = item_id.to_owned();
    let mut i: usize = 0;
    while i < keys.len()
        invariant
            0 <= i <= keys.len(),
            inv.items@ == m,
            m == old(inv).items@,
            key_s@ == item_id@,
            forall|k: u32|
                #[trigger] m.contains_key(k) && slot_matches(m[k], item_id@, inst_id) ==> m[k].count + count <= u32::MAX,
            keys@.to_set() == m.dom(),
            forall|j: int| 0 <= j < i ==> !slot_matches(m[#[trigger] keys@[j]], item_id@, inst_id),
        decreases keys.len() - i,
    {
        let k = keys[i];
        proof {
            assert(keys@.to_set().contains(k));
        }
        let hit = match inv.items.get(&k) {
            Some(slot) => slot.item_id == key_s && slot.inst_id == inst_id,
            None => false,
        };
        if hit {
            match map_get_mut(&mut inv.items, k) {
                Some(slot) => {
                    proof {
                        assert(m.contains_key(k) && slot_matches(m[k], item_id@, inst_id));
                    }
                    slot.count = slot.count + count;
                },
                None => {},
            }
            proof {
                assert(inv.items@ == m.insert(k, ItemSlot { count: (m[k].count + count) as u32, ..m[k] }));
            }
            return;
        }
        i += 1;
    }
    proof {
        assert forall|k: u32| #[trigger] m.contains_key(k) implies !slot_matches(m[k], item_id@, inst_id) by {
            assert(keys@.to_set().contains(k));
            let j = choose|j: int| 0 <= j < keys@.len() && keys@[j] == k;
            assert(!slot_matches(m[keys@[j]], item_id@, inst_id));
        }
    }
    let mut key = inst_id;
    while inv.items.contains_key(&key)
        invariant
            inv.items@ == m,
            key >= inst_id,
            forall|j: u32| inst_id <= j < key ==> m.contains_key(j),
            exists|k: u32| k >= inst_id && !#[trigger] m.contains_key(k),
        decreases u32::MAX - key,
    {
        proof {
            let f = choose|k: u32| k >= inst_id && !#[trigger] m.contains_key(k);
            assert(f > key);
        }
        key = key + 1;
    }
    let slot = ItemSlot { item_id: item_id.to_owned(), count, inst_id };
    inv.items.insert(key, slot);
    proof {
        assert(is_first_free_key(m, inst_id, key));
    }
}

/// `new` came from `old` by draining slots of item `id`: other slots and
/// empty slots are untouched; touched slots only lose count, and slots
/// drained to zero are gone.
pub open spec fn drained_from(old: Map<u32, ItemSlot>, new: Map<u32, ItemSlot>, id: Seq<char>) -> bool {
    &&& new.dom() <= old.dom()
    &&& forall|k: u32|
        #[trigger] old.contains_key(k) && (old[k].item_id@ != id || old[k].count == 0) ==> new.contains_key(k)
            && new[k] == old[k]
    &&& forall|k: u32|
        #[trigger] new.contains_key(k) ==> new[k] == (ItemSlot { count: new[k].count, ..old[k] }) && new[k].count
            <= old[k].count && (new[k].count > 0 || old[k].count == 0)
}

/// Takes `needed` of item `item_id` from a bag, slot by slot, removing
/// slots that run empty. Returns whether the bag held enough; when it did
/// not, every slot of the item has been emptied and removed.
pub fn try_consume_from_inv(inv: &mut InventoryState, item_id: &str, needed: u32) -> (r: bool)
    ensures
        r == (inv_total(old(inv).items@, item_id@) >= needed),
        r ==> inv_total(final(inv).items@, item_id@) == inv_total(old(inv).items@, item_id@) - needed,
        !r ==> inv_total(final(inv).items@, item_id@) == 0,
        drained_from(old(inv).items@, final(inv).items@, item_id@),
{
    let ghost id = item_id@;
    let ghost m0 = inv.items@;
    let keys = map_keys(&inv.items);
    let key_s = item_id.to_owned();
    let mut remaining = needed;
    let mut i: usize = 0;
    proof {
        assert(drained_from(m0, m0, id));
    }
    while i < keys.len() && remaining > 0
        invariant
            0 <= i <= keys.len(),
            m0 == old(inv).items@,
            id == item_id@,
            key_s@ == id,
            keys@.no_duplicates(),
            keys@.to_set() == m0.dom(),
            remaining <= needed,
            drained_from(m0, inv.items@, id),
            inv_total(inv.items@, id) == inv_total(m0, id) - (needed - remaining),
            forall|j: int|
                0 <= j < i ==> (m0[#[trigger] keys@[j]].item_id@ == id && m0[keys@[j]].count > 0 && remaining > 0
                    ==> !inv.items@.contains_key(keys@[j])),
            forall|j: int| i <= j < keys@.len() ==> inv.items@.contains_key(#[trigger] keys@[j]) && inv.items@[keys@[j]] == m0[keys@[j]],
        decreases keys.len() - i,
    {
        let k = keys[i];
        let ghost cur = inv.items@;
        proof {
            assert(keys@.to_set().contains(k));
            assert(cur.contains_key(keys@[i as int]));
        }
        let (hit, have) = match inv.items.get(&k) {
            Some(slot) => (slot.item_id == key_s && slot.count > 0, slot.count),
            None => (false, 0),
        };
        if hit {
            let take = if have < remaining { have } else { remaining };
            let left = have - take;
            remaining = remaining - take;
            let ghost f = slot_count_of(cur, id);
            if left == 0 {
                inv.items.remove(&k);
                proof {
                    let nxt = inv.items@;
                    let g = slot_count_of(nxt, id);
                    lemma_set_sum_remove(cur.dom(), k, f);
                    assert(nxt.dom() == cur.dom().remove(k));
                    crate::util::lemma_set_sum_congruent(cur.dom().remove(k), f, g);
                }
            } else {
                match map_get_mut(&mut inv.items, k) {
                    Some(slot) => {
                        slot.count = left;
                    },
                    None => {},
                }
                proof {
                    let nxt = inv.items@;
                    let g = slot_count_of(nxt, id);
                    assert(nxt.dom() == cur.dom());
                    lemma_set_sum_change_one(cur.dom(), k, f, g);
                }
            }
        }
        proof {
            assert forall|j: int| i + 1 <= j < keys@.len() implies inv.items@.contains_key(#[trigger] keys@[j]) && inv.items@[keys@[j]] == m0[keys@[j]] by {
                assert(keys@[j] != keys@[i as int]);
            }
            assert forall|j: int| 0 <= j < i + 1 && m0[#[trigger] keys@[j]].item_id@ == id && m0[keys@[j]].count > 0 && remaining > 0
                implies !inv.items@.contains_key(keys@[j]) by {
                if j < i {
                    assert(keys@[j] != keys@[i as int]);
                }
            }
        }
        i += 1;
    }
    let ghost fin = inv.items@;
    proof {
        lemma_set_sum_nonneg(fin.dom(), slot_count_of(fin, id));
        if remaining > 0 {
            assert forall|k: u32| fin.dom().contains(k) implies slot_count_of(fin, id)(k) == 0 by {
                if fin[k].item_id@ == id && fin[k].count > 0 {
                    assert(m0.contains_key(k));
                    assert(keys@.to_set().contains(k));
                    let j = choose|j: int| 0 <= j < keys@.len() && keys@[j] == k;
                    assert(m0[keys@[j]].item_id@ == id);
                }
            }
            lemma_set_sum_zero(fin.dom(), slot_count_of(fin, id));
        }
    }
    remaining == 0
}

} // verus!
