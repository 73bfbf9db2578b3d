//! Set and map facts shared by the modules, and the one std map method
//! that vstd leaves without a specification.
use std::collections::HashMap;

use vstd::prelude::*;

verus! {

/// Adding a fresh element to a finite set grows each of its filters by
/// one exactly when the element passes the filter.
pub proof fn lemma_filter_insert_len<A>(s: Set<A>, k: A, p: spec_fn(A) -> bool)
    requires
        s.finite(),
        !s.contains(k),
    ensures
        s.insert(k).filter(p).finite(),
        s.insert(k).filter(p).len() == s.filter(p).len() + if p(k) { 1int } else { 0int },
{
    s.lemma_len_filter(p);
    s.insert(k).lemma_len_filter(p);
    if p(k) {
        assert(s.insert(k).filter(p) =~= s.filter(p).insert(k));
    } else {
        assert(s.insert(k).filter(p) =~= s.filter(p));
    }
}

/// Mutable access to the value under `k` in a hash map.
///
/// Wraps `std::collections::HashMap::get_mut`. Claimed, for key types that
/// follow vstd's hash-key model: the result is `Some` exactly when the key
/// is present; it then refers to the value under `k`, and after the borrow
/// ends the map holds the final value of that reference under `k` and is
/// otherwise unchanged. When the key is absent the map is unchanged.
#[verifier::external_body]
pub fn map_get_mut<'a, K: std::hash::Hash + Eq, V>(m: &'a mut HashMap<K, V>, k: K) -> (r: Option<&'a mut V>)
    ensures
        vstd::std_specs::hash::obeys_key_model::<K>() ==> match r {
            Some(v) => {
                &&& old(m)@.contains_key(k)
                &&& *v == old(m)@[k]
                &&& final(m)@ == old(m)@.insert(k, *final(v))
            },
            None => !old(m)@.contains_key(k) && final(m)@ == old(m)@,
        },
{
    m.get_mut(&k)
}

/// Sum of `f` over a finite set of keys.
pub open spec fn set_sum(s: Set<u32>, f: spec_fn(u32) -> int) -> int
    decreases s.len(),
    when s.finite()
{
    if s.len() == 0 {
        0
    } else {
        let k = s.choose();
        f(k) + set_sum(s.remove(k), f)
    }
}

/// Any element can be split off a set sum first.
pub proof fn lemma_set_sum_remove(s: Set<u32>, k: u32, f: spec_fn(u32) -> int)
    requires
        s.finite(),
        s.contains(k),
    ensures
        set_sum(s, f) == f(k) + set_sum(s.remove(k), f),
    decreases s.len(),
{
    let c = s.choose();
    if c != k {
        lemma_set_sum_remove(s.remove(c), k, f);
        lemma_set_sum_remove(s.remove(k), c, f);
        assert(s.remove(c).remove(k) =~= s.remove(k).remove(c));
    }
}

/// Adding a fresh key adds its value to a set sum.
pub proof fn lemma_set_sum_insert(s: Set<u32>, k: u32, f: spec_fn(u32) -> int)
    requires
        s.finite(),
        !s.contains(k),
    ensures
        set_sum(s.insert(k), f) == f(k) + set_sum(s, f),
{
    lemma_set_sum_remove(s.insert(k), k, f);
    assert(s.insert(k).remove(k) =~= s);
}

/// The empty set sums to zero.
pub proof fn lemma_set_sum_empty(f: spec_fn(u32) -> int)
    ensures
        set_sum(Set::empty(), f) == 0,
{
}

/// `x` reduced into the `i64` range modulo 2^64, as two's-complement
/// arithmetic computes it.
pub open spec fn wrap_i64(x: int) -> int {
    (x + 0x8000_0000_0000_0000) % 0x1_0000_0000_0000_0000 - 0x8000_0000_0000_0000
}

/// Wrapping is the identity on values that fit in `i64`.
pub proof fn lemma_wrap_i64_small(x: int)
    requires
        i64::MIN <= x <= i64::MAX,
    ensures
        wrap_i64(x) == x,
{
    vstd::arithmetic::div_mod::lemma_small_mod(
        (x + 0x8000_0000_0000_0000) as nat,
        0x1_0000_0000_0000_0000,
    );
}

/// Wrapping an intermediate sum does not change the wrapped total.
pub proof fn lemma_wrap_i64_add(a: int, b: int)
    ensures
        wrap_i64(wrap_i64(a) + b) == wrap_i64(a + b),
        i64::MIN <= wrap_i64(a) <= i64::MAX,
{
    let m: int = 0x1_0000_0000_0000_0000;
    let h: int = 0x8000_0000_0000_0000;
    vstd::arithmetic::div_mod::lemma_add_mod_noop(a + h, b, m);
    vstd::arithmetic::div_mod::lemma_mod_twice(a + h, m);
    vstd::arithmetic::div_mod::lemma_add_mod_noop((a + h) % m, b, m);
    vstd::arithmetic::div_mod::lemma_mod_bound(a + h, m);
}

/// `a + b` with two's-complement wrap-around.
pub fn add_wrapping_i64(a: i64, b: i64) -> (r: i64)
    ensures
        r == wrap_i64(a + b),
{
    let s: i128 = a as i128 + b as i128;
    let m: i128 = 0x1_0000_0000_0000_0000;
    proof {
        let h: int = 0x8000_0000_0000_0000;
        if s > i64::MAX {
            lemma_wrap_i64_small(s - m);
            vstd::arithmetic::div_mod::lemma_mod_add_multiples_vanish(s - m + h, m as int);
        } else if s < i64::MIN {
            lemma_wrap_i64_small(s + m);
            vstd::arithmetic::div_mod::lemma_mod_sub_multiples_vanish(s + m + h, m as int);
        } else {
            lemma_wrap_i64_small(s as int);
        }
    }
    if s > i64::MAX as i128 {
        (s - m) as i64
    } else if s < i64::MIN as i128 {
        (s + m) as i64
    } else {
        s as i64
    }
}

/// Reinterprets a `u64` as an `i64` (two's complement), as `as i64` does.
pub fn u64_as_i64(x: u64) -> (r: i64)
    ensures
        r == wrap_i64(x as int),
{
    let m: i128 = 0x1_0000_0000_0000_0000;
    proof {
        let h: int = 0x8000_0000_0000_0000;
        if x > i64::MAX {
            lemma_wrap_i64_small(x - m);
            vstd::arithmetic::div_mod::lemma_mod_add_multiples_vanish(x - m + h, m as int);
        } else {
            lemma_wrap_i64_small(x as int);
        }
    }
    if x > i64::MAX as u64 {
        (x as i128 - m) as i64
    } else {
        x as i64
    }
}

/// Milliseconds since the Unix epoch on the system clock.
///
/// Wraps `std::time::SystemTime::now` and `duration_since(UNIX_EPOCH)`;
/// a clock set before the epoch reads as 0. Nothing is promised of the
/// value: it is the machine's clock.
#[verifier::external_body]
pub(crate) fn now_ms() -> (r: i64) {
    match std::time::SystemTime::now().duration_since(std::time::UNIX_EPOCH) {
        Ok(d) => d.as_millis() as i64,
        Err(_) => 0,
    }
}

/// The keys of a hash map, each once, in the map's iteration order.
pub fn map_keys<K: Copy + std::hash::Hash + Eq, V>(m: &HashMap<K, V>) -> (keys: Vec<K>)
    requires
        vstd::std_specs::hash::obeys_key_model::<K>(),
    ensures
        keys@.no_duplicates(),
        keys@.to_set() == m@.dom(),
{
    broadcast use vstd::std_specs::hash::group_hash_axioms;

    let mut keys: Vec<K> = Vec::new();
    let n = m.len();
    for k in it: m.keys()
        invariant
            keys@.no_duplicates(),
            keys@.len() == it.index(),
            keys@.to_set() <= m@.dom(),
            n == m@.dom().len(),
            it.seq().len() == n,
            it.seq().no_duplicates(),
            it.seq().unref().to_set() == m@.dom(),
            forall|j: int| 0 <= j < it.index() ==> keys@[j] == *#[trigger] it.seq()[j],
    {
        proof {
            let i = it.index() as int;
            assert(it.seq().unref()[i] == *k);
            assert(it.seq().unref().to_set().contains(*k));
            if keys@.contains(*k) {
                let j = choose|j: int| 0 <= j < keys@.len() && keys@[j] == *k;
                assert(it.seq()[j] == it.seq()[i]);
            }
            keys@.lemma_push_to_set_commute(*k);
        }
        keys.push(*k);
    }
    proof {
        keys@.unique_seq_to_set();
        vstd::set_lib::lemma_subset_equality(keys@.to_set(), m@.dom());
    }
    keys
}

/// The elements of a hash set, each once, in the set's iteration order.
pub fn set_elems<K: Copy + std::hash::Hash + Eq>(m: &std::collections::HashSet<K>) -> (elems: Vec<K>)
    requires
        vstd::std_specs::hash::obeys_key_model::<K>(),
    ensures
        elems@.no_duplicates(),
        elems@.to_set() == m@,
{
    broadcast use vstd::std_specs::hash::group_hash_axioms;

    let mut elems: Vec<K> = Vec::new();
    for k in it: m.iter()
        invariant
            elems@.no_duplicates(),
            elems@.len() == it.index(),
            elems@.to_set() <= m@,
            m@.finite(),
            it.seq().len() == m@.len(),
            it.seq().no_duplicates(),
            it.seq().unref().to_set() == m@,
            forall|j: int| 0 <= j < it.index() ==> elems@[j] == *#[trigger] it.seq()[j],
    {
        proof {
            let i = it.index() as int;
            assert(it.seq().unref()[i] == *k);
            assert(it.seq().unref().to_set().contains(*k));
            if elems@.contains(*k) {
                let j = choose|j: int| 0 <= j < elems@.len() && elems@[j] == *k;
                assert(it.seq()[j] == it.seq()[i]);
            }
            elems@.lemma_push_to_set_commute(*k);
        }
        elems.push(*k);
    }
    proof {
        elems@.unique_seq_to_set();
        vstd::set_lib::lemma_subset_equality(elems@.to_set(), m@);
    }
    elems
}

/// Set sums only depend on the summed values over the set.
pub proof fn lemma_set_sum_congruent(s: Set<u32>, f: spec_fn(u32) -> int, g: spec_fn(u32) -> int)
    requires
        s.finite(),
        forall|k: u32| s.contains(k) ==> f(k) == g(k),
    ensures
        set_sum(s, f) == set_sum(s, g),
    decreases s.len(),
{
    if s.len() > 0 {
        let c = s.choose();
        lemma_set_sum_congruent(s.remove(c), f, g);
    }
}

/// A sum of zeros is zero.
pub proof fn lemma_set_sum_zero(s: Set<u32>, f: spec_fn(u32) -> int)
    requires
        s.finite(),
        forall|k: u32| s.contains(k) ==> f(k) == 0,
    ensures
        set_sum(s, f) == 0,
    decreases s.len(),
{
    if s.len() > 0 {
        let c = s.choose();
        lemma_set_sum_zero(s.remove(c), f);
    }
}

/// A sum of non-negative values is non-negative.
pub proof fn lemma_set_sum_nonneg(s: Set<u32>, f: spec_fn(u32) -> int)
    requires
        s.finite(),
        forall|k: u32| s.contains(k) ==> f(k) >= 0,
    ensures
        set_sum(s, f) >= 0,
    decreases s.len(),
{
    if s.len() > 0 {
        let c = s.choose();
        lemma_set_sum_nonneg(s.remove(c), f);
    }
}

/// Changing one summand changes the sum by the difference.
pub proof fn lemma_set_sum_change_one(s: Set<u32>, k: u32, f: spec_fn(u32) -> int, g: spec_fn(u32) -> int)
    requires
        s.finite(),
        s.contains(k),
        forall|j: u32| s.contains(j) && j != k ==> f(j) == g(j),
    ensures
        set_sum(s, g) == set_sum(s, f) - f(k) + g(k),
{
    lemma_set_sum_remove(s, k, f);
    lemma_set_sum_remove(s, k, g);
    lemma_set_sum_congruent(s.remove(k), f, g);
}


/// Keys outside `s` where `f` is zero add nothing to a sum over a superset.
pub proof fn lemma_set_sum_extend_zero(s: Set<u32>, t: Set<u32>, f: spec_fn(u32) -> int)
    requires
        t.finite(),
        s <= t,
        forall|k: u32| t.contains(k) && !s.contains(k) ==> f(k) == 0,
    ensures
        set_sum(t, f) == set_sum(s, f),
    decreases t.len(),
{
    if exists|k: u32| t.contains(k) && !s.contains(k) {
        let k = choose|k: u32| t.contains(k) && !s.contains(k);
        lemma_set_sum_remove(t, k, f);
        lemma_set_sum_extend_zero(s, t.remove(k), f);
    } else {
        assert(s =~= t);
    }
}

} // verus!
