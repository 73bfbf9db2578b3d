//! Per-player bitsets: sets of ids (found items, read wiki entries, ...)
//! grouped by kind.
use std::collections::{HashMap, HashSet};

use vstd::prelude::*;

use crate::util::map_get_mut;

verus! {

broadcast use vstd::std_specs::hash::group_hash_axioms;

/// Kind of a bitset, with its wire code.
#[derive(Debug, Clone, Copy, PartialEq, Eq, Hash, Structural)]
pub enum BitsetType {
    NoneKind,
    FoundItem,
    Wiki,
    UnreadWiki,
    MonsterDrop,
    GotItem,
    AreaFirstView,
    UnreadGotItem,
    Prts,
    UnreadPrts,
    PrtsFirstLv,
    PrtsTerminalContent,
    LevelHaveBeen,
    LevelMapFirstView,
    UnreadFormula,
    NewChar,
    ElogChannel,
    FmvWatched,
    TimeLineWatched,
    MapFilter,
    EnumMax,
}

impl BitsetType {
    pub open spec fn spec_code(self) -> i32 {
        match self {
            BitsetType::NoneKind => 0,
            BitsetType::FoundItem => 1,
            BitsetType::Wiki => 2,
            BitsetType::UnreadWiki => 3,
            BitsetType::MonsterDrop => 4,
            BitsetType::GotItem => 5,
            BitsetType::AreaFirstView => 6,
            BitsetType::UnreadGotItem => 7,
            BitsetType::Prts => 8,
            BitsetType::UnreadPrts => 9,
            BitsetType::PrtsFirstLv => 10,
            BitsetType::PrtsTerminalContent => 11,
            BitsetType::LevelHaveBeen => 12,
            BitsetType::LevelMapFirstView => 13,
            BitsetType::UnreadFormula => 14,
            BitsetType::NewChar => 15,
            BitsetType::ElogChannel => 16,
            BitsetType::FmvWatched => 17,
            BitsetType::TimeLineWatched => 18,
            BitsetType::MapFilter => 19,
            BitsetType::EnumMax => 20,
        }
    }

    /// The wire code of this kind.
    #[verifier::when_used_as_spec(spec_code)]
    pub fn code(self) -> (r: i32)
        ensures
            r == self.spec_code(),
    {
        match self {
            BitsetType::NoneKind => 0,
            BitsetType::FoundItem => 1,
            BitsetType::Wiki => 2,
            BitsetType::UnreadWiki => 3,
            BitsetType::MonsterDrop => 4,
            BitsetType::GotItem => 5,
            BitsetType::AreaFirstView => 6,
            BitsetType::UnreadGotItem => 7,
            BitsetType::Prts => 8,
            BitsetType::UnreadPrts => 9,
            BitsetType::PrtsFirstLv => 10,
            BitsetType::PrtsTerminalContent => 11,
            BitsetType::LevelHaveBeen => 12,
            BitsetType::LevelMapFirstView => 13,
            BitsetType::UnreadFormula => 14,
            BitsetType::NewChar => 15,
            BitsetType::ElogChannel => 16,
            BitsetType::FmvWatched => 17,
            BitsetType::TimeLineWatched => 18,
            BitsetType::MapFilter => 19,
            BitsetType::EnumMax => 20,
        }
    }

    /// The kind with wire code `val`; codes 0 to 19 name a kind (the
    /// `EnumMax` marker has no code that parses).
    pub fn from_i32(val: i32) -> (r: Option<Self>)
        ensures
            0 <= val <= 19 <==> r is Some,
            match r {
                Some(t) => t.spec_code() == val,
                None => true,
            },
    {
        match val {
            0 => Some(BitsetType::NoneKind),
            1 => Some(BitsetType::FoundItem),
            2 => Some(BitsetType::Wiki),
            3 => Some(BitsetType::UnreadWiki),
            4 => Some(BitsetType::MonsterDrop),
            5 => Some(BitsetType::GotItem),
            6 => Some(BitsetType::AreaFirstView),
            7 => Some(BitsetType::UnreadGotItem),
            8 => Some(BitsetType::Prts),
            9 => Some(BitsetType::UnreadPrts),
            10 => Some(BitsetType::PrtsFirstLv),
            11 => Some(BitsetType::PrtsTerminalContent),
            12 => Some(BitsetType::LevelHaveBeen),
            13 => Some(BitsetType::LevelMapFirstView),
            14 => Some(BitsetType::UnreadFormula),
            15 => Some(BitsetType::NewChar),
            16 => Some(BitsetType::ElogChannel),
            17 => Some(BitsetType::FmvWatched),
            18 => Some(BitsetType::TimeLineWatched),
            19 => Some(BitsetType::MapFilter),
            _ => None,
        }
    }
}

/// Ids set per kind; kinds are keyed by their wire code.
#[derive(Debug)]
pub struct BitsetManager {
    bits: HashMap<i32, HashSet<u32>>,
}

/// Strictly increasing.
pub open spec fn strictly_sorted(s: Seq<u32>) -> bool {
    forall|i: int, j: int| 0 <= i < j < s.len() ==> s[i] < s[j]
}

/// The elements of `s` in ascending order (see `lemma_sorted_unique`).
pub open spec fn ascending(s: Set<u32>) -> Seq<u32> {
    choose|l: Seq<u32>| strictly_sorted(l) && l.to_set() == s
}

/// A set has at most one strictly increasing listing.
pub proof fn lemma_sorted_unique(a: Seq<u32>, b: Seq<u32>)
    requires
        strictly_sorted(a),
        strictly_sorted(b),
        a.to_set() == b.to_set(),
    ensures
        a == b,
    decreases a.len(),
{
    if a.len() == 0 {
        if b.len() > 0 {
            assert(b.contains(b[0]));
            assert(b.to_set().contains(b[0]));
            assert(a.to_set().contains(b[0]));
        }
        assert(a =~= b);
    } else if b.len() == 0 {
        assert(a.contains(a[0]));
        assert(a.to_set().contains(a[0]));
        assert(b.to_set().contains(a[0]));
    } else {
        assert(a.contains(a[0]));
        assert(a.to_set().contains(a[0]));
        assert(b.to_set().contains(a[0]));
        let j = choose|j: int| 0 <= j < b.len() && b[j] == a[0];
        assert(b.contains(b[0]));
        assert(b.to_set().contains(b[0]));
        assert(a.to_set().contains(b[0]));
        let i = choose|i: int| 0 <= i < a.len() && a[i] == b[0];
        assert(b[0] <= b[j]);
        assert(a[0] <= a[i]);
        assert(a[0] == b[0]);
        let a1 = a.drop_first();
        let b1 = b.drop_first();
        assert forall|x: u32| a1.to_set().contains(x) <==> b1.to_set().contains(x) by {
            if a1.to_set().contains(x) {
                assert(a1.contains(x));
                let k = choose|k: int| 0 <= k < a1.len() && a1[k] == x;
                assert(a[k + 1] == x);
                assert(a.contains(x));
                assert(a.to_set().contains(x));
                assert(b.to_set().contains(x));
                let m = choose|m: int| 0 <= m < b.len() && b[m] == x;
                assert(x != b[0]);
                assert(m > 0);
                assert(b1[m - 1] == x);
                assert(b1.contains(x));
            }
            if b1.to_set().contains(x) {
                assert(b1.contains(x));
                let k = choose|k: int| 0 <= k < b1.len() && b1[k] == x;
                assert(b[k + 1] == x);
                assert(b.contains(x));
                assert(b.to_set().contains(x));
                assert(a.to_set().contains(x));
                let m = choose|m: int| 0 <= m < a.len() && a[m] == x;
                assert(x != a[0]);
                assert(m > 0);
                assert(a1[m - 1] == x);
                assert(a1.contains(x));
            }
        }
        assert(a1.to_set() =~= b1.to_set());
        lemma_sorted_unique(a1, b1);
        assert(a =~= b) by {
            assert forall|k: int| 0 <= k < a.len() implies a[k] == b[k] by {
                if k > 0 {
                    assert(a[k] == a1[k - 1]);
                    assert(b[k] == b1[k - 1]);
                }
            }
        }
    }
}

impl BitsetManager {
    /// The ids set for kind `t`.
    pub closed spec fn spec_bits(&self, t: BitsetType) -> Set<u32> {
        if self.bits@.contains_key(t.spec_code()) {
            self.bits@[t.spec_code()]@
        } else {
            Set::empty()
        }
    }

    /// Every kind's set is finite.
    pub closed spec fn wf(&self) -> bool {
        forall|k: i32| #[trigger] self.bits@.contains_key(k) ==> self.bits@[k]@.finite()
    }

    /// The ids set for any kind are finitely many.
    pub proof fn lemma_bits_finite(&self, t: BitsetType)
        requires
            self.wf(),
        ensures
            self.spec_bits(t).finite(),
    {
    }

    /// Setting an id makes it present and counts it once: the count grows
    /// by one exactly when the id was absent, and other kinds keep theirs.
    /// So setting it a second time changes nothing.
    pub proof fn lemma_set_counts_once(m0: BitsetManager, m1: BitsetManager, t: BitsetType, b: u32)
        requires
            m0.wf(),
            m1.spec_bits(t) == m0.spec_bits(t).insert(b),
            forall|t2: BitsetType| t2 != t ==> #[trigger] m1.spec_bits(t2) == m0.spec_bits(t2),
        ensures
            m1.spec_bits(t).contains(b),
            m1.spec_bits(t).len() == m0.spec_bits(t).len() + if m0.spec_bits(t).contains(b) { 0int } else { 1int },
            m0.spec_bits(t).contains(b) ==> m1.spec_bits(t) == m0.spec_bits(t),
            forall|t2: BitsetType| t2 != t ==> #[trigger] m1.spec_bits(t2).len() == m0.spec_bits(t2).len(),
    {
        m0.lemma_bits_finite(t);
        if m0.spec_bits(t).contains(b) {
            assert(m0.spec_bits(t).insert(b) =~= m0.spec_bits(t));
        }
    }

    /// Setting an absent id and clearing it again restores every kind's
    /// ids, hence their ascending listings and counts.
    pub proof fn lemma_set_then_unset_restores(m0: BitsetManager, m1: BitsetManager, m2: BitsetManager, t: BitsetType, b: u32)
        requires
            m0.wf(),
            !m0.spec_bits(t).contains(b),
            m1.spec_bits(t) == m0.spec_bits(t).insert(b),
            forall|t2: BitsetType| t2 != t ==> #[trigger] m1.spec_bits(t2) == m0.spec_bits(t2),
            m2.spec_bits(t) == m1.spec_bits(t).remove(b),
            forall|t2: BitsetType| t2 != t ==> #[trigger] m2.spec_bits(t2) == m1.spec_bits(t2),
        ensures
            forall|t2: BitsetType| #[trigger] m2.spec_bits(t2) == m0.spec_bits(t2),
            forall|t2: BitsetType| #[trigger] ascending(m2.spec_bits(t2)) == ascending(m0.spec_bits(t2)),
            forall|t2: BitsetType| #[trigger] m2.spec_bits(t2).len() == m0.spec_bits(t2).len(),
    {
        assert(m0.spec_bits(t).insert(b).remove(b) =~= m0.spec_bits(t));
        assert forall|t2: BitsetType| #[trigger] m2.spec_bits(t2) == m0.spec_bits(t2) by {
            if t2 != t {
                assert(m1.spec_bits(t2) == m0.spec_bits(t2));
            }
        }
    }

    /// No ids set.
    pub fn new() -> (r: Self)
        ensures
            r.wf(),
            forall|t: BitsetType| #[trigger] r.spec_bits(t) == Set::<u32>::empty(),
    {
        BitsetManager { bits: HashMap::new() }
    }

    /// Sets `bit` for kind `bitset_type`.
    pub fn set(&mut self, bitset_type: BitsetType, bit: u32)
        requires
            old(self).wf(),
        ensures
            final(self).wf(),
            final(self).spec_bits(bitset_type) == old(self).spec_bits(bitset_type).insert(bit),
            forall|t: BitsetType| t != bitset_type ==> #[trigger] final(self).spec_bits(t) == old(self).spec_bits(t),
    {
        let key = bitset_type.code();
        match map_get_mut(&mut self.bits, key) {
            Some(set) => {
                set.insert(bit);
            },
            None => {
                let mut set: HashSet<u32> = HashSet::new();
                set.insert(bit);
                self.bits.insert(key, set);
            },
        }
        proof {
            assert forall|t: BitsetType| t != bitset_type implies #[trigger] self.spec_bits(t) == old(self).spec_bits(t) by {
                assert(t.spec_code() != bitset_type.spec_code());
            }
        }
    }

    /// Clears `bit` for kind `bitset_type`.
    pub fn unset(&mut self, bitset_type: BitsetType, bit: u32)
        requires
            old(self).wf(),
        ensures
            final(self).wf(),
            final(self).spec_bits(bitset_type) == old(self).spec_bits(bitset_type).remove(bit),
            forall|t: BitsetType| t != bitset_type ==> #[trigger] final(self).spec_bits(t) == old(self).spec_bits(t),
    {
        let key = bitset_type.code();
        match map_get_mut(&mut self.bits, key) {
            Some(set) => {
                set.remove(&bit);
            },
            None => {},
        }
        proof {
            assert forall|t: BitsetType| t != bitset_type implies #[trigger] self.spec_bits(t) == old(self).spec_bits(t) by {
                assert(t.spec_code() != bitset_type.spec_code());
            }
            if !old(self).bits@.contains_key(key) {
                assert(Set::<u32>::empty().remove(bit) =~= Set::empty());
            }
        }
    }

    /// Clears every listed bit for kind `bitset_type`.
    pub fn unset_many(&mut self, bitset_type: BitsetType, bits: &[u32])
        requires
            old(self).wf(),
        ensures
            final(self).wf(),
            final(self).spec_bits(bitset_type) == old(self).spec_bits(bitset_type).difference(bits@.to_set()),
            forall|t: BitsetType| t != bitset_type ==> #[trigger] final(self).spec_bits(t) == old(self).spec_bits(t),
    {
        let mut i: usize = 0;
        while i < bits.len()
            invariant
                0 <= i <= bits.len(),
                self.wf(),
                self.spec_bits(bitset_type) == old(self).spec_bits(bitset_type).difference(bits@.subrange(0, i as int).to_set()),
                forall|t: BitsetType| t != bitset_type ==> #[trigger] self.spec_bits(t) == old(self).spec_bits(t),
            decreases bits.len() - i,
        {
            proof {
                assert(bits@.subrange(0, i as int + 1) == bits@.subrange(0, i as int).push(bits@[i as int]));
                bits@.subrange(0, i as int).lemma_push_to_set_commute(bits@[i as int]);
                assert(old(self).spec_bits(bitset_type).difference(bits@.subrange(0, i as int).to_set()).remove(bits@[i as int])
                    =~= old(self).spec_bits(bitset_type).difference(bits@.subrange(0, i as int + 1).to_set()));
            }
            self.unset(bitset_type, bits[i]);
            i += 1;
        }
        proof {
            assert(bits@.subrange(0, i as int) == bits@);
        }
    }

    /// Whether `bit` is set for kind `bitset_type`.
    pub fn has(&self, bitset_type: BitsetType, bit: u32) -> (r: bool)
        ensures
            r == self.spec_bits(bitset_type).contains(bit),
    {
        match self.bits.get(&bitset_type.code()) {
            Some(set) => set.contains(&bit),
            None => false,
        }
    }

    /// The ids set for kind `bitset_type`, ascending.
    pub fn get_bits(&self, bitset_type: BitsetType) -> (r: Vec<u32>)
        requires
            self.wf(),
        ensures
            strictly_sorted(r@),
            r@.to_set() == self.spec_bits(bitset_type),
            r@ == ascending(self.spec_bits(bitset_type)),
    {
        let mut v: Vec<u32> = match self.bits.get(&bitset_type.code()) {
            Some(set) => crate::util::set_elems(set),
            None => Vec::new(),
        };
        sort_dedup(&mut v);
        proof {
            let c = ascending(self.spec_bits(bitset_type));
            assert(strictly_sorted(v@) && v@.to_set() == self.spec_bits(bitset_type));
            assert(exists|l: Seq<u32>| strictly_sorted(l) && l.to_set() == self.spec_bits(bitset_type));
            assert(strictly_sorted(c) && c.to_set() == self.spec_bits(bitset_type));
            lemma_sorted_unique(v@, c);
        }
        v
    }

    /// Number of ids set for kind `bitset_type`.
    pub fn count(&self, bitset_type: BitsetType) -> (r: usize)
        requires
            self.wf(),
        ensures
            r == self.spec_bits(bitset_type).len(),
    {
        match self.bits.get(&bitset_type.code()) {
            Some(set) => set.len(),
            None => 0,
        }
    }
}

/// Sorts ascending and drops repeats.
fn sort_dedup(v: &mut Vec<u32>)
    ensures
        strictly_sorted(final(v)@),
        final(v)@.to_set() == old(v)@.to_set(),
{
    let mut out: Vec<u32> = Vec::new();
    let mut i: usize = 0;
    while i < v.len()
        invariant
            0 <= i <= v.len(),
            v@ == old(v)@,
            strictly_sorted(out@),
            out@.to_set() == v@.subrange(0, i as int).to_set(),
        decreases v.len() - i,
    {
        let x = v[i];
        proof {
            assert(v@.subrange(0, i as int + 1) == v@.subrange(0, i as int).push(x));
            v@.subrange(0, i as int).lemma_push_to_set_commute(x);
        }
        let mut pos: usize = 0;
        while pos < out.len() && out[pos] < x
            invariant
                0 <= pos <= out.len(),
                forall|j: int| 0 <= j < pos ==> out@[j] < x,
            decreases out.len() - pos,
        {
            pos += 1;
        }
        if pos < out.len() && out[pos] == x {
            proof {
                assert(out@.to_set().insert(x) =~= out@.to_set());
            }
        } else {
            let ghost before = out@;
            out.insert(pos, x);
            proof {
                assert(out@ == before.subrange(0, pos as int).push(x) + before.subrange(pos as int, before.len() as int));
                assert forall|a: int, b: int| 0 <= a < b < out@.len() implies out@[a] < out@[b] by {
                    if b < pos {
                    } else if b == pos {
                    } else if a < pos {
                        assert(out@[b] == before[b - 1]);
                        if a < pos {
                            assert(before[a] < x);
                        }
                        assert(x <= before[pos as int]);
                    } else if a == pos {
                        assert(out@[b] == before[b - 1]);
                        assert(x < before[pos as int] || pos == before.len());
                    } else {
                        assert(out@[a] == before[a - 1]);
                        assert(out@[b] == before[b - 1]);
                    }
                }
                assert(out@.to_set() =~= before.to_set().insert(x)) by {
                    assert forall|y: u32| #[trigger] out@.contains(y) <==> (before.contains(y) || y == x) by {
                        if out@.contains(y) {
                            let j = choose|j: int| 0 <= j < out@.len() && out@[j] == y;
                            if j < pos {
                                assert(before[j] == y);
                            } else if j > pos {
                                assert(before[j - 1] == y);
                            }
                        }
                        if before.contains(y) {
                            let j = choose|j: int| 0 <= j < before.len() && before[j] == y;
                            if j < pos {
                                assert(out@[j] == y);
                            } else {
                                assert(out@[j + 1] == y);
                            }
                        }
                        if y == x {
                            assert(out@[pos as int] == x);
                        }
                    }
                }
            }
        }
        i += 1;
    }
    proof {
        assert(v@.subrange(0, i as int) == v@);
    }
    *v = out;
}

} // verus!
