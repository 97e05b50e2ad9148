use vstd::prelude::*;

verus! {

/// A preference map: keys with accumulated weights, kept in order of first insertion.
#[verifier::external_body]
pub struct WeightMap {
    inner: indexmap::IndexMap<u128, u64>,
}

/// The entries of a preference map, in insertion order.
pub uninterp spec fn weight_entries(m: &WeightMap) -> Seq<(u128, u64)>;

/// Where `k` stands among the entries (the last such place), -1 when it is absent.
pub open spec fn key_index(s: Seq<(u128, u64)>, k: u128) -> int
    decreases s.len(),
{
    if s.len() == 0 {
        -1
    } else if s.last().0 == k {
        s.len() - 1
    } else {
        key_index(s.drop_last(), k)
    }
}

/// The weight held for `k`, 0 when the key is absent.
pub open spec fn weight_of(s: Seq<(u128, u64)>, k: u128) -> u64 {
    let i = key_index(s, k);
    if i >= 0 {
        s[i].1
    } else {
        0
    }
}

/// The entries after `w` is added to the weight of `k`: in place when the key is present,
/// appended otherwise.
pub open spec fn add_weight(s: Seq<(u128, u64)>, k: u128, w: u64) -> Seq<(u128, u64)> {
    let i = key_index(s, k);
    if i >= 0 {
        s.update(i, (k, (s[i].1 + w) as u64))
    } else {
        s.push((k, w))
    }
}

pub proof fn lemma_key_index(s: Seq<(u128, u64)>, k: u128)
    ensures
        -1 <= key_index(s, k) < s.len(),
        key_index(s, k) >= 0 ==> s[key_index(s, k)].0 == k,
        key_index(s, k) < 0 ==> forall|j: int| 0 <= j < s.len() ==> s[j].0 != k,
    decreases s.len(),
{
    if s.len() > 0 && s.last().0 != k {
        lemma_key_index(s.drop_last(), k);
        let d = s.drop_last();
        assert forall|j: int| 0 <= j < d.len() implies s[j] == d[j] by {}
    }
}

/// The sum of all weights.
pub open spec fn total(s: Seq<(u128, u64)>) -> nat
    decreases s.len(),
{
    if s.len() == 0 {
        0
    } else {
        total(s.drop_last()) + s.last().1 as nat
    }
}

/// Relies on IndexMap::new: a new map has no entries.
#[verifier::external_body]
pub(crate) fn empty_map() -> (r: WeightMap)
    ensures
        weight_entries(&r) == Seq::<(u128, u64)>::empty(),
{
    WeightMap { inner: indexmap::IndexMap::new() }
}

/// The entries after `k` is set to `v`: in place when the key is present, appended last
/// otherwise.
pub open spec fn put(s: Seq<(u128, u64)>, k: u128, v: u64) -> Seq<(u128, u64)> {
    let i = key_index(s, k);
    if i >= 0 {
        s.update(i, (k, v))
    } else {
        s.push((k, v))
    }
}

/// Relies on IndexMap::get: the value stored under the key, if any.
#[verifier::external_body]
fn map_get(m: &WeightMap, k: u128) -> (r: Option<u64>)
    ensures
        r == (if key_index(weight_entries(m), k) >= 0 {
            Some(weight_entries(m)[key_index(weight_entries(m), k)].1)
        } else {
            None
        }),
{
    m.inner.get(&k).copied()
}

/// Relies on IndexMap::insert: an existing key keeps its place and takes the new value;
/// a new key is appended last.
#[verifier::external_body]
fn map_insert(m: &mut WeightMap, k: u128, v: u64)
    ensures
        weight_entries(final(m)) == put(weight_entries(old(m)), k, v),
{
    m.inner.insert(k, v);
}

/// The weight held for `k`, 0 when the key is absent.
pub(crate) fn map_weight(m: &WeightMap, k: u128) -> (r: u64)
    ensures
        r == weight_of(weight_entries(m), k),
{
    match map_get(m, k) {
        Some(v) => v,
        None => 0,
    }
}

/// Adds `w` to the weight of `k`, creating the entry when the key is absent.
pub(crate) fn map_add(m: &mut WeightMap, k: u128, w: u64)
    requires
        weight_of(weight_entries(old(m)), k) + w <= u64::MAX,
    ensures
        weight_entries(final(m)) == add_weight(weight_entries(old(m)), k, w),
{
    let cur = map_weight(m, k);
    map_insert(m, k, cur + w);
}

/// No key occurs twice.
pub open spec fn keys_unique(s: Seq<(u128, u64)>) -> bool {
    forall|i: int, j: int| 0 <= i < s.len() && 0 <= j < s.len() && i != j ==> s[i].0 != s[j].0
}

pub proof fn lemma_add_weight_unique(s: Seq<(u128, u64)>, k: u128, w: u64)
    requires
        keys_unique(s),
    ensures
        keys_unique(add_weight(s, k, w)),
{
    lemma_key_index(s, k);
}

/// Rebuilding a map from the entries of a map with distinct keys gives back those entries.
pub proof fn lemma_built_from_unique(s: Seq<(u128, u64)>)
    requires
        keys_unique(s),
    ensures
        built_from(s) == s,
    decreases s.len(),
{
    if s.len() > 0 {
        let d = s.drop_last();
        assert(keys_unique(d));
        lemma_built_from_unique(d);
        lemma_key_index(d, s.last().0);
        assert(forall|j: int| 0 <= j < d.len() ==> d[j] == s[j]);
        assert(key_index(d, s.last().0) < 0);
        assert(d.push(s.last()) =~= s);
    }
}

/// What `built_from` gives has distinct keys.
pub proof fn lemma_built_from_keys_unique(v: Seq<(u128, u64)>)
    ensures
        keys_unique(built_from(v)),
    decreases v.len(),
{
    if v.len() > 0 {
        lemma_built_from_keys_unique(v.drop_last());
        lemma_add_weight_unique(built_from(v.drop_last()), v.last().0, v.last().1);
    }
}

/// Relies on IndexMap::len: the number of entries.
#[verifier::external_body]
pub(crate) fn map_len(m: &WeightMap) -> (r: usize)
    ensures
        r == weight_entries(m).len(),
{
    m.inner.len()
}

/// Relies on IndexMap::get_index: the entry at a position in insertion order.
#[verifier::external_body]
fn map_entry(m: &WeightMap, i: usize) -> (r: (u128, u64))
    requires
        i < weight_entries(m).len(),
    ensures
        r == weight_entries(m)[i as int],
{
    let (k, v) = m.inner.get_index(i).unwrap();
    (*k, *v)
}

/// The entries of a map that receives each of `v`'s weights in turn, starting empty.
pub open spec fn built_from(v: Seq<(u128, u64)>) -> Seq<(u128, u64)>
    decreases v.len(),
{
    if v.len() == 0 {
        Seq::empty()
    } else {
        add_weight(built_from(v.drop_last()), v.last().0, v.last().1)
    }
}

proof fn lemma_prefix_total(s: Seq<(u128, u64)>, i: int)
    requires
        0 <= i <= s.len(),
    ensures
        total(s.take(i)) <= total(s),
    decreases s.len(),
{
    if i < s.len() {
        lemma_prefix_total(s.drop_last(), i);
        assert(s.drop_last().take(i) =~= s.take(i));
    } else {
        assert(s.take(i) =~= s);
    }
}

impl WeightMap {
    /// The entries, in insertion order.
    pub fn entries(&self) -> (r: Vec<(u128, u64)>)
        ensures
            r@ == weight_entries(self),
    {
        let n = map_len(self);
        let mut r: Vec<(u128, u64)> = Vec::new();
        let mut i: usize = 0;
        while i < n
            invariant
                n == weight_entries(self).len(),
                i <= n,
                r@ == weight_entries(self).take(i as int),
            decreases n - i,
        {
            r.push(map_entry(self, i));
            i = i + 1;
            assert(r@ =~= weight_entries(self).take(i as int));
        }
        assert(weight_entries(self).take(n as int) =~= weight_entries(self));
        r
    }

    /// A map that receives each of `v`'s weights in turn, with its total; `None` when the
    /// weights add up past `u64::MAX`.
    pub fn from_entries(v: &Vec<(u128, u64)>) -> (r: Option<(WeightMap, u64)>)
        ensures
            r is None <==> total(v@) > u64::MAX,
            r matches Some((m, t)) ==> weight_entries(&m) == built_from(v@) && t == total(
                weight_entries(&m),
            ) && t == total(v@),
    {
        let mut m = empty_map();
        let mut t: u64 = 0;
        let mut i: usize = 0;
        assert(v@.take(0) =~= Seq::<(u128, u64)>::empty());
        while i < v.len()
            invariant
                i <= v@.len(),
                weight_entries(&m) == built_from(v@.take(i as int)),
                t == total(weight_entries(&m)),
                t == total(v@.take(i as int)),
            decreases v.len() - i,
        {
            let (k, w) = v[i];
            let ghost pre = v@.take(i as int);
            assert(v@.take(i + 1).drop_last() =~= pre);
            if w > u64::MAX - t {
                proof {
                    lemma_prefix_total(v@, i + 1);
                }
                return None;
            }
            proof {
                lemma_weight_le_total(weight_entries(&m), k);
                lemma_add_weight_total(weight_entries(&m), k, w);
            }
            map_add(&mut m, k, w);
            t = t + w;
            i = i + 1;
        }
        assert(v@.take(i as int) =~= v@);
        Some((m, t))
    }

    /// The weight held for `k`, 0 when the key is absent.
    pub fn weight(&self, k: u128) -> (r: u64)
        ensures
            r == weight_of(weight_entries(self), k),
    {
        map_weight(self, k)
    }

    /// The number of keys held.
    pub fn len(&self) -> (r: usize)
        ensures
            r == weight_entries(self).len(),
    {
        map_len(self)
    }
}

proof fn lemma_entry_le_total(s: Seq<(u128, u64)>, i: int)
    requires
        0 <= i < s.len(),
    ensures
        s[i].1 <= total(s),
    decreases s.len(),
{
    if i < s.len() - 1 {
        lemma_entry_le_total(s.drop_last(), i);
    }
}

pub proof fn lemma_weight_le_total(s: Seq<(u128, u64)>, k: u128)
    ensures
        weight_of(s, k) <= total(s),
{
    lemma_key_index(s, k);
    let i = key_index(s, k);
    if i >= 0 {
        lemma_entry_le_total(s, i);
    }
}

proof fn lemma_total_update(s: Seq<(u128, u64)>, i: int, e: (u128, u64))
    requires
        0 <= i < s.len(),
    ensures
        total(s.update(i, e)) == total(s) - s[i].1 + e.1,
    decreases s.len(),
{
    if i == s.len() - 1 {
        assert(s.update(i, e).drop_last() =~= s.drop_last());
    } else {
        lemma_total_update(s.drop_last(), i, e);
        assert(s.update(i, e).drop_last() =~= s.drop_last().update(i, e));
        lemma_entry_le_total(s.drop_last(), i);
    }
}

/// Adding `w` under any key raises the total by exactly `w`.
pub proof fn lemma_add_weight_total(s: Seq<(u128, u64)>, k: u128, w: u64)
    requires
        weight_of(s, k) + w <= u64::MAX,
    ensures
        total(add_weight(s, k, w)) == total(s) + w,
{
    lemma_key_index(s, k);
    let i = key_index(s, k);
    if i >= 0 {
        lemma_total_update(s, i, (k, (s[i].1 + w) as u64));
    } else {
        assert(s.push((k, w)).drop_last() =~= s);
    }
}

/// The part of `w` that the key at position `i` of `n` receives: an even split, with the
/// remainder handed out one unit each to the first keys.
pub open spec fn share(w: nat, n: nat, i: int) -> nat {
    (w / n + if i < w % n {
        1nat
    } else {
        0nat
    }) as nat
}

/// The entries after each of `keys` receives its share of `w` split over `n` keys.
pub open spec fn spread(s: Seq<(u128, u64)>, keys: Seq<u128>, w: u64, n: nat) -> Seq<(u128, u64)>
    decreases keys.len(),
{
    if keys.len() == 0 {
        s
    } else {
        add_weight(
            spread(s, keys.drop_last(), w, n),
            keys.last(),
            share(w as nat, n, keys.len() - 1) as u64,
        )
    }
}

/// The shares of the first `m` keys together.
pub open spec fn shares_sum(w: nat, n: nat, m: nat) -> nat
    decreases m,
{
    if m == 0 {
        0
    } else {
        shares_sum(w, n, (m - 1) as nat) + share(w, n, m - 1)
    }
}

proof fn lemma_shares_sum(w: nat, n: nat, m: nat)
    requires
        n > 0,
        m <= n,
    ensures
        shares_sum(w, n, m) == m * (w / n) + if m <= w % n {
            m as int
        } else {
            (w % n) as int
        },
        shares_sum(w, n, m) <= w,
        m == n ==> shares_sum(w, n, m) == w,
    decreases m,
{
    let q = w / n;
    let r = w % n;
    if m > 0 {
        lemma_shares_sum(w, n, (m - 1) as nat);
        assert((m - 1) * q + q == m * q) by (nonlinear_arith)
            requires
                m >= 1,
        ;
        assert(shares_sum(w, n, m) == shares_sum(w, n, (m - 1) as nat) + share(w, n, m - 1));
        assert(share(w, n, m - 1) == q + if m - 1 < r {
            1int
        } else {
            0int
        });
        assert(shares_sum(w, n, m) == m * q + if m <= r {
            m as int
        } else {
            r as int
        });
    } else {
        assert(m * q == 0) by (nonlinear_arith)
            requires
                m == 0,
        ;
    }
    assert(w == n * q + r) by (nonlinear_arith)
        requires
            n > 0,
            q == w / n,
            r == w % n,
    ;
    assert(m * q <= n * q) by (nonlinear_arith)
        requires
            m <= n,
            q >= 0,
    ;
}

proof fn lemma_spread_total(s: Seq<(u128, u64)>, keys: Seq<u128>, w: u64, n: nat)
    requires
        keys.len() <= n,
        n > 0,
        total(s) + w <= u64::MAX,
    ensures
        total(spread(s, keys, w, n)) == total(s) + shares_sum(w as nat, n, keys.len()),
    decreases keys.len(),
{
    if keys.len() > 0 {
        let prev = spread(s, keys.drop_last(), w, n);
        lemma_spread_total(s, keys.drop_last(), w, n);
        lemma_shares_sum(w as nat, n, keys.len());
        lemma_shares_sum(w as nat, n, (keys.len() - 1) as nat);
        lemma_weight_le_total(prev, keys.last());
        lemma_add_weight_total(prev, keys.last(), share(w as nat, n, keys.len() - 1) as u64);
    }
}

/// Handing a weight out keeps the keys distinct.
pub proof fn lemma_spread_unique(s: Seq<(u128, u64)>, keys: Seq<u128>, w: u64, n: nat)
    requires
        keys_unique(s),
    ensures
        keys_unique(spread(s, keys, w, n)),
    decreases keys.len(),
{
    if keys.len() > 0 {
        lemma_spread_unique(s, keys.drop_last(), w, n);
        lemma_add_weight_unique(
            spread(s, keys.drop_last(), w, n),
            keys.last(),
            share(w as nat, n, keys.len() - 1) as u64,
        );
    }
}

/// Handing a weight out over a non-empty list of keys raises the map's total by exactly
/// that weight.
pub proof fn lemma_distribution_conserves(s: Seq<(u128, u64)>, keys: Seq<u128>, w: u64)
    requires
        keys.len() > 0,
        total(s) + w <= u64::MAX,
    ensures
        total(spread(s, keys, w, keys.len())) == total(s) + w,
{
    lemma_spread_total(s, keys, w, keys.len());
    lemma_shares_sum(w as nat, keys.len(), keys.len());
}

/// Hands `w` out over `keys`: each receives `w / n` (n the number of keys) and the first
/// `w % n` one unit more, so that the shares add up to `w`. An empty list changes nothing.
pub fn distribute(m: &mut WeightMap, keys: &Vec<u128>, w: u64)
    requires
        total(weight_entries(old(m))) + w <= u64::MAX,
    ensures
        weight_entries(final(m)) == spread(weight_entries(old(m)), keys@, w, keys@.len()),
        total(weight_entries(final(m))) == total(weight_entries(old(m))) + if keys@.len() == 0 {
            0
        } else {
            w as int
        },
{
    let n = keys.len();
    if n == 0 {
        return ;
    }
    let q = w / (n as u64);
    let r = w % (n as u64);
    let ghost s0 = weight_entries(m);
    let mut i: usize = 0;
    assert(keys@.take(0) =~= Seq::<u128>::empty());
    while i < n
        invariant
            n == keys@.len(),
            n > 0,
            i <= n,
            q == (w as nat) / (n as nat),
            r == (w as nat) % (n as nat),
            total(s0) + w <= u64::MAX,
            weight_entries(m) == spread(s0, keys@.take(i as int), w, n as nat),
            total(weight_entries(m)) == total(s0) + shares_sum(w as nat, n as nat, i as nat),
        decreases n - i,
    {
        proof {
            lemma_shares_sum(w as nat, n as nat, (i + 1) as nat);
            lemma_weight_le_total(weight_entries(m), keys@[i as int]);
        }
        let part: u64 = if (i as u64) < r {
            q + 1
        } else {
            q
        };
        proof {
            lemma_add_weight_total(weight_entries(m), keys@[i as int], part);
        }
        map_add(m, keys[i], part);
        proof {
            let t = keys@.take(i + 1);
            assert(t.drop_last() =~= keys@.take(i as int));
        }
        i = i + 1;
    }
    assert(keys@.take(n as int) =~= keys@);
    proof {
        lemma_shares_sum(w as nat, n as nat, n as nat);
    }
}

} // verus!
