//! Sorting rows by keys: the order of the rows, and a merge sort that finds it.
use vstd::prelude::*;
use crate::order::{self, Comparison};
use crate::plain::{no_items, Plain};
use crate::query::SortDirection;
use crate::value::{self, EngineValue, ValueModel};

verus! {

/// The value at a place of a key, NULL beyond its end.
pub open spec fn key_part(key: Seq<ValueModel>, i: int) -> ValueModel {
    if 0 <= i < key.len() {
        key[i]
    } else {
        ValueModel::Null
    }
}

/// How two values compare when sorted in a direction.
pub open spec fn directed(a: ValueModel, b: ValueModel, direction: SortDirection) -> Comparison {
    let c = order::comparison(a, b, value::value_less());
    match direction {
        SortDirection::Asc => c,
        SortDirection::Desc => order::reversed(c),
    }
}

/// How two keys compare from place `from` on: by the first place that differs,
/// in that place's direction.
pub open spec fn compared_from(
    a: Seq<ValueModel>,
    b: Seq<ValueModel>,
    directions: Seq<SortDirection>,
    from: int,
) -> Comparison
    decreases directions.len() - from,
{
    if from < 0 || from >= directions.len() {
        Comparison::Equal
    } else {
        let c = directed(key_part(a, from), key_part(b, from), directions[from]);
        if c == Comparison::Equal {
            compared_from(a, b, directions, from + 1)
        } else {
            c
        }
    }
}

/// Row `i` comes before row `j`: its key is smaller, or the keys are equal
/// and it stood before `j` already.
pub open spec fn precedes(
    keys: Seq<Seq<ValueModel>>,
    directions: Seq<SortDirection>,
    i: int,
    j: int,
) -> bool {
    let c = compared_from(keys[i], keys[j], directions, 0);
    c == Comparison::Less || (c == Comparison::Equal && i < j)
}

/// `p` lists the rows `low` to `high`, each once, in their order.
pub open spec fn orders_range(
    p: Seq<int>,
    keys: Seq<Seq<ValueModel>>,
    directions: Seq<SortDirection>,
    low: int,
    high: int,
) -> bool {
    &&& forall|k: int| 0 <= k < p.len() ==> low <= #[trigger] p[k] < high
    &&& forall|i: int| low <= i < high ==> #[trigger] p.contains(i)
    &&& forall|k: int, l: int|
        0 <= k < l < p.len() ==> precedes(keys, directions, #[trigger] p[k], #[trigger] p[l])
}

/// The order of the rows with the given keys, as positions.
pub open spec fn sort_order(keys: Seq<Seq<ValueModel>>, directions: Seq<SortDirection>) -> Seq<
    int,
> {
    choose|p: Seq<int>| orders_range(p, keys, directions, 0, keys.len() as int)
}

proof fn lemma_compared_laws(
    a: Seq<ValueModel>,
    b: Seq<ValueModel>,
    c: Seq<ValueModel>,
    directions: Seq<SortDirection>,
    from: int,
)
    ensures
        compared_from(b, a, directions, from) == order::reversed(
            compared_from(a, b, directions, from),
        ),
        compared_from(a, a, directions, from) == Comparison::Equal,
        compared_from(a, b, directions, from) == Comparison::Equal ==> compared_from(
            a,
            c,
            directions,
            from,
        ) == compared_from(b, c, directions, from),
        compared_from(b, c, directions, from) == Comparison::Equal ==> compared_from(
            a,
            c,
            directions,
            from,
        ) == compared_from(a, b, directions, from),
        compared_from(a, b, directions, from) == Comparison::Less && compared_from(
            b,
            c,
            directions,
            from,
        ) == Comparison::Less ==> compared_from(a, c, directions, from) == Comparison::Less,
    decreases directions.len() - from,
{
    if 0 <= from < directions.len() {
        value::law_value_order_total();
        lemma_compared_laws(a, b, c, directions, from + 1);
        let less = value::value_less();
        let x = key_part(a, from);
        let y = key_part(b, from);
        let z = key_part(c, from);
        assert(!less(x, x) && !less(y, y));
        assert(less(x, y) && less(y, x) ==> less(x, x));
        assert(less(y, z) && less(z, y) ==> less(y, y));
        assert(less(x, z) && less(z, x) ==> less(x, x));
        assert(x != y ==> less(x, y) || less(y, x));
        assert(y != z ==> less(y, z) || less(z, y));
        assert(x != z ==> less(x, z) || less(z, x));
        assert(less(x, y) && less(y, z) ==> less(x, z));
        assert(less(z, y) && less(y, x) ==> less(z, x));
    }
}

/// Law: the order of the rows is strict and total, so that no two rows may
/// come in either order.
pub proof fn law_precedes_total(
    keys: Seq<Seq<ValueModel>>,
    directions: Seq<SortDirection>,
    i: int,
    j: int,
    k: int,
)
    ensures
        !precedes(keys, directions, i, i),
        precedes(keys, directions, i, j) ==> !precedes(keys, directions, j, i),
        i != j ==> precedes(keys, directions, i, j) || precedes(keys, directions, j, i),
        precedes(keys, directions, i, j) && precedes(keys, directions, j, k) ==> precedes(
            keys,
            directions,
            i,
            k,
        ),
{
    lemma_compared_laws(keys[i], keys[j], keys[k], directions, 0);
}

/// Law: the rows can be listed in one order only.
pub proof fn law_sort_order_unique(
    p: Seq<int>,
    q: Seq<int>,
    keys: Seq<Seq<ValueModel>>,
    directions: Seq<SortDirection>,
)
    requires
        forall|x: int| #[trigger] p.contains(x) <==> q.contains(x),
        forall|k: int, l: int|
            0 <= k < l < p.len() ==> precedes(keys, directions, #[trigger] p[k], #[trigger] p[l]),
        forall|k: int, l: int|
            0 <= k < l < q.len() ==> precedes(keys, directions, #[trigger] q[k], #[trigger] q[l]),
    ensures
        p == q,
    decreases p.len(),
{
    if p.len() == 0 {
        if q.len() > 0 {
            assert(q.contains(q[0]));
            assert(p.contains(q[0]));
        }
        assert(p =~= q);
    } else {
        assert(p.contains(p.last()));
        assert(q.contains(p.last()));
        assert(q.len() > 0);
        assert(q.contains(q.last()));
        assert(p.contains(q.last()));
        let x = p.last();
        let y = q.last();
        if x != y {
            let a = choose|a: int| 0 <= a < p.len() && p[a] == y;
            let b = choose|b: int| 0 <= b < q.len() && q[b] == x;
            assert(precedes(keys, directions, p[a], p[p.len() - 1]));
            assert(precedes(keys, directions, q[b], q[q.len() - 1]));
            law_precedes_total(keys, directions, x, y, x);
        }
        let p0 = p.drop_last();
        let q0 = q.drop_last();
        assert forall|z: int| #[trigger] p0.contains(z) <==> q0.contains(z) by {
            if p0.contains(z) {
                let a = choose|a: int| 0 <= a < p0.len() && p0[a] == z;
                assert(p[a] == z);
                assert(p.contains(z));
                assert(precedes(keys, directions, p[a], p[p.len() - 1]));
                law_precedes_total(keys, directions, z, x, x);
                let b = choose|b: int| 0 <= b < q.len() && q[b] == z;
                assert(q0[b] == z);
            }
            if q0.contains(z) {
                let b = choose|b: int| 0 <= b < q0.len() && q0[b] == z;
                assert(q[b] == z);
                assert(q.contains(z));
                assert(precedes(keys, directions, q[b], q[q.len() - 1]));
                law_precedes_total(keys, directions, z, y, y);
                assert(p.contains(z));
                let a = choose|a: int| 0 <= a < p.len() && p[a] == z;
                assert(p0[a] == z);
            }
        }
        assert forall|k: int, l: int| 0 <= k < l < p0.len() implies precedes(
            keys,
            directions,
            #[trigger] p0[k],
            #[trigger] p0[l],
        ) by {
            assert(precedes(keys, directions, p[k], p[l]));
        }
        assert forall|k: int, l: int| 0 <= k < l < q0.len() implies precedes(
            keys,
            directions,
            #[trigger] q0[k],
            #[trigger] q0[l],
        ) by {
            assert(precedes(keys, directions, q[k], q[l]));
        }
        law_sort_order_unique(p0, q0, keys, directions);
        assert(p =~= p0.push(x));
        assert(q =~= q0.push(y));
    }
}

/// The first place of `p` whose row comes after row `x`.
spec fn place_for(
    p: Seq<int>,
    keys: Seq<Seq<ValueModel>>,
    directions: Seq<SortDirection>,
    x: int,
) -> int
    decreases p.len(),
{
    if p.len() == 0 || !precedes(keys, directions, x, p.last()) {
        p.len() as int
    } else {
        place_for(p.drop_last(), keys, directions, x)
    }
}

proof fn lemma_place_for(
    p: Seq<int>,
    keys: Seq<Seq<ValueModel>>,
    directions: Seq<SortDirection>,
    x: int,
)
    requires
        forall|k: int, l: int|
            0 <= k < l < p.len() ==> precedes(keys, directions, #[trigger] p[k], #[trigger] p[l]),
        !p.contains(x),
    ensures
        0 <= place_for(p, keys, directions, x) <= p.len(),
        forall|k: int|
            0 <= k < place_for(p, keys, directions, x) ==> precedes(
                keys,
                directions,
                #[trigger] p[k],
                x,
            ),
        forall|k: int|
            place_for(p, keys, directions, x) <= k < p.len() ==> precedes(
                keys,
                directions,
                x,
                #[trigger] p[k],
            ),
    decreases p.len(),
{
    if p.len() > 0 {
        let p0 = p.drop_last();
        assert(p.contains(p.last()));
        law_precedes_total(keys, directions, x, p.last(), x);
        if precedes(keys, directions, x, p.last()) {
            assert forall|k: int, l: int| 0 <= k < l < p0.len() implies precedes(
                keys,
                directions,
                #[trigger] p0[k],
                #[trigger] p0[l],
            ) by {
                assert(precedes(keys, directions, p[k], p[l]));
            }
            assert(!p0.contains(x)) by {
                if p0.contains(x) {
                    let k = choose|k: int| 0 <= k < p0.len() && p0[k] == x;
                    assert(p[k] == x);
                }
            }
            lemma_place_for(p0, keys, directions, x);
            let at = place_for(p0, keys, directions, x);
            assert forall|k: int| 0 <= k < at implies precedes(
                keys,
                directions,
                #[trigger] p[k],
                x,
            ) by {
                assert(p[k] == p0[k]);
            }
            assert forall|k: int| at <= k < p.len() implies precedes(
                keys,
                directions,
                x,
                #[trigger] p[k],
            ) by {
                if k < p0.len() {
                    assert(p[k] == p0[k]);
                }
            }
        } else {
            assert forall|k: int| 0 <= k < p.len() implies precedes(
                keys,
                directions,
                #[trigger] p[k],
                x,
            ) by {
                if k < p.len() - 1 {
                    assert(precedes(keys, directions, p[k], p[p.len() - 1]));
                    law_precedes_total(keys, directions, p[k], p.last(), x);
                }
            }
        }
    }
}

proof fn lemma_order_of_prefix(
    keys: Seq<Seq<ValueModel>>,
    directions: Seq<SortDirection>,
    n: int,
) -> (p: Seq<int>)
    requires
        0 <= n,
    ensures
        orders_range(p, keys, directions, 0, n),
    decreases n,
{
    if n == 0 {
        Seq::empty()
    } else {
        let x = n - 1;
        let p = lemma_order_of_prefix(keys, directions, x);
        assert(!p.contains(x)) by {
            if p.contains(x) {
                let k = choose|k: int| 0 <= k < p.len() && p[k] == x;
                assert(0 <= p[k] < x);
            }
        }
        lemma_place_for(p, keys, directions, x);
        let at = place_for(p, keys, directions, x);
        let r = p.insert(at, x);
        assert forall|k: int| 0 <= k < r.len() implies 0 <= #[trigger] r[k] < n by {
            if k < at {
                assert(r[k] == p[k]);
            } else if k > at {
                assert(r[k] == p[k - 1]);
            }
        }
        assert forall|i: int| 0 <= i < n implies #[trigger] r.contains(i) by {
            if i == x {
                assert(r[at] == x);
            } else {
                assert(p.contains(i));
                let k = choose|k: int| 0 <= k < p.len() && p[k] == i;
                if k < at {
                    assert(r[k] == i);
                } else {
                    assert(r[k + 1] == i);
                }
            }
        }
        assert forall|k: int, l: int| 0 <= k < l < r.len() implies precedes(
            keys,
            directions,
            #[trigger] r[k],
            #[trigger] r[l],
        ) by {
            let k0 = if k < at { k } else { k - 1 };
            let l0 = if l < at { l } else { l - 1 };
            if k != at && l != at {
                assert(r[k] == p[k0] && r[l] == p[l0]);
                assert(precedes(keys, directions, p[k0], p[l0]));
            } else if l == at {
                assert(r[k] == p[k]);
            } else {
                assert(r[l] == p[l - 1]);
            }
        }
        r
    }
}

/// Law: sorting lists every row once, a row before another if its key is
/// smaller, and rows with equal keys in the order that they had.
pub proof fn law_sort_order(keys: Seq<Seq<ValueModel>>, directions: Seq<SortDirection>)
    ensures
        orders_range(sort_order(keys, directions), keys, directions, 0, keys.len() as int),
{
    let p = lemma_order_of_prefix(keys, directions, keys.len() as int);
    assert(orders_range(p, keys, directions, 0, keys.len() as int));
}

/// A list of positions as integers.
pub open spec fn positions(p: Seq<usize>) -> Seq<int> {
    p.map_values(|i: usize| i as int)
}

/// How two keys compare.
fn compare_keys(
    a: &Vec<EngineValue>,
    b: &Vec<EngineValue>,
    directions: &Vec<SortDirection>,
) -> (c: Comparison)
    ensures
        c == compared_from(a.deep_view(), b.deep_view(), directions.deep_view(), 0),
{
    let null = EngineValue::Null;
    let mut i: usize = 0;
    while i < directions.len()
        invariant
            i <= directions.len(),
            null.deep_view() == ValueModel::Null,
            compared_from(a.deep_view(), b.deep_view(), directions.deep_view(), 0)
                == compared_from(a.deep_view(), b.deep_view(), directions.deep_view(), i as int),
        decreases directions.len() - i,
    {
        let x: &EngineValue = if i < a.len() {
            &a[i]
        } else {
            &null
        };
        let y: &EngineValue = if i < b.len() {
            &b[i]
        } else {
            &null
        };
        let c = x.compare(y);
        let c = match directions[i] {
            SortDirection::Asc => c,
            SortDirection::Desc => c.reversed(),
        };
        proof {
            assert(x.deep_view() == key_part(a.deep_view(), i as int));
            assert(y.deep_view() == key_part(b.deep_view(), i as int));
            assert(directions.deep_view()[i as int] == directions@[i as int]);
        }
        match c {
            Comparison::Equal => {},
            _ => {
                return c;
            },
        }
        i += 1;
    }
    Comparison::Equal
}

fn comes_before(
    keys: &Vec<Vec<EngineValue>>,
    directions: &Vec<SortDirection>,
    i: usize,
    j: usize,
) -> (r: bool)
    requires
        i < keys.len(),
        j < keys.len(),
    ensures
        r == precedes(keys.deep_view(), directions.deep_view(), i as int, j as int),
{
    match compare_keys(&keys[i], &keys[j], directions) {
        Comparison::Less => true,
        Comparison::Equal => i < j,
        Comparison::Greater => false,
    }
}

/// Merges the orders of two neighbouring ranges of rows.
fn merge(
    keys: &Vec<Vec<EngineValue>>,
    directions: &Vec<SortDirection>,
    a: &Vec<usize>,
    b: &Vec<usize>,
    Ghost(low): Ghost<int>,
    Ghost(mid): Ghost<int>,
    Ghost(high): Ghost<int>,
) -> (r: Vec<usize>)
    requires
        0 <= low <= mid <= high <= keys.len(),
        orders_range(positions(a@), keys.deep_view(), directions.deep_view(), low, mid),
        orders_range(positions(b@), keys.deep_view(), directions.deep_view(), mid, high),
    ensures
        orders_range(positions(r@), keys.deep_view(), directions.deep_view(), low, high),
{
    let ghost ks = keys.deep_view();
    let ghost ds = directions.deep_view();
    let ghost p = positions(a@);
    let ghost q = positions(b@);
    let mut out: Vec<usize> = Vec::new();
    let mut i: usize = 0;
    let mut j: usize = 0;
    while i < a.len() || j < b.len()
        invariant
            i <= a.len(),
            j <= b.len(),
            ks == keys.deep_view(),
            ds == directions.deep_view(),
            p == positions(a@),
            q == positions(b@),
            0 <= low <= mid <= high <= keys.len(),
            orders_range(p, ks, ds, low, mid),
            orders_range(q, ks, ds, mid, high),
            forall|k: int| 0 <= k < out.len() ==> low <= #[trigger] positions(out@)[k] < high,
            forall|k: int, l: int|
                0 <= k < l < out.len() ==> precedes(
                    ks,
                    ds,
                    #[trigger] positions(out@)[k],
                    #[trigger] positions(out@)[l],
                ),
            forall|k: int, l: int|
                0 <= k < out.len() && i <= l < a.len() ==> precedes(
                    ks,
                    ds,
                    #[trigger] positions(out@)[k],
                    #[trigger] p[l],
                ),
            forall|k: int, l: int|
                0 <= k < out.len() && j <= l < b.len() ==> precedes(
                    ks,
                    ds,
                    #[trigger] positions(out@)[k],
                    #[trigger] q[l],
                ),
            forall|l: int| 0 <= l < i ==> positions(out@).contains(#[trigger] p[l]),
            forall|l: int| 0 <= l < j ==> positions(out@).contains(#[trigger] q[l]),
        decreases (a.len() - i) + (b.len() - j),
    {
        proof {
            if i < a.len() {
                assert(p[i as int] == a@[i as int]);
                assert(low <= p[i as int] < mid);
            }
            if j < b.len() {
                assert(q[j as int] == b@[j as int]);
                assert(mid <= q[j as int] < high);
            }
        }
        let from_a = if i >= a.len() {
            false
        } else if j >= b.len() {
            true
        } else {
            comes_before(keys, directions, a[i], b[j])
        };
        let next: usize = if from_a {
            a[i]
        } else {
            b[j]
        };
        let ghost before = positions(out@);
        proof {
            assert forall|l: int| (if from_a { i + 1 } else { i as int }) <= l < a.len() implies precedes(
                ks,
                ds,
                next as int,
                #[trigger] p[l],
            ) by {
                if from_a {
                    assert(precedes(ks, ds, p[i as int], p[l]));
                } else {
                    assert(low <= p[l] < mid);
                    law_precedes_total(ks, ds, p[i as int], q[j as int], q[j as int]);
                    if l > i {
                        assert(precedes(ks, ds, p[i as int], p[l]));
                        law_precedes_total(ks, ds, q[j as int], p[i as int], p[l]);
                    }
                }
            }
            assert forall|l: int| (if from_a { j as int } else { j + 1 }) <= l < b.len() implies precedes(
                ks,
                ds,
                next as int,
                #[trigger] q[l],
            ) by {
                if !from_a {
                    assert(precedes(ks, ds, q[j as int], q[l]));
                } else if l > j {
                    assert(precedes(ks, ds, q[j as int], q[l]));
                    law_precedes_total(ks, ds, p[i as int], q[j as int], q[l]);
                }
            }
        }
        out.push(next);
        proof {
            let after = positions(out@);
            assert(after =~= before.push(next as int));
            assert forall|k: int, l: int| 0 <= k < l < after.len() implies precedes(
                ks,
                ds,
                #[trigger] after[k],
                #[trigger] after[l],
            ) by {
                if l == before.len() {
                    assert(after[k] == before[k]);
                    if from_a {
                        assert(precedes(ks, ds, before[k], p[i as int]));
                    } else {
                        assert(precedes(ks, ds, before[k], q[j as int]));
                    }
                } else {
                    assert(after[k] == before[k] && after[l] == before[l]);
                }
            }
            assert(after[before.len() as int] == next);
            assert forall|x: int| before.contains(x) implies after.contains(x) by {
                let k = choose|k: int| 0 <= k < before.len() && before[k] == x;
                assert(after[k] == x);
            }
            assert forall|k: int, l: int|
                0 <= k < after.len() && (if from_a { i + 1 } else { i as int }) <= l
                    < a.len() implies precedes(ks, ds, #[trigger] after[k], #[trigger] p[l]) by {
                if k < before.len() {
                    assert(after[k] == before[k]);
                }
            }
            assert forall|k: int, l: int|
                0 <= k < after.len() && (if from_a { j as int } else { j + 1 }) <= l
                    < b.len() implies precedes(ks, ds, #[trigger] after[k], #[trigger] q[l]) by {
                if k < before.len() {
                    assert(after[k] == before[k]);
                }
            }
        }
        if from_a {
            i += 1;
        } else {
            j += 1;
        }
    }
    proof {
        let r = positions(out@);
        assert forall|x: int| low <= x < high implies #[trigger] r.contains(x) by {
            if x < mid {
                assert(p.contains(x));
                let l = choose|l: int| 0 <= l < p.len() && p[l] == x;
                assert(r.contains(p[l]));
            } else {
                assert(q.contains(x));
                let l = choose|l: int| 0 <= l < q.len() && q[l] == x;
                assert(r.contains(q[l]));
            }
        }
    }
    out
}

/// The order of the rows `low` to `high`.
fn sort_range(
    keys: &Vec<Vec<EngineValue>>,
    directions: &Vec<SortDirection>,
    low: usize,
    high: usize,
) -> (r: Vec<usize>)
    requires
        low <= high <= keys.len(),
    ensures
        orders_range(
            positions(r@),
            keys.deep_view(),
            directions.deep_view(),
            low as int,
            high as int,
        ),
    decreases high - low,
{
    if high - low == 0 {
        return Vec::new();
    }
    if high - low == 1 {
        let mut r: Vec<usize> = Vec::new();
        r.push(low);
        proof {
            assert(positions(r@)[0] == low);
            assert(positions(r@).contains(low as int));
        }
        return r;
    }
    let mid: usize = low + (high - low) / 2;
    let a = sort_range(keys, directions, low, mid);
    let b = sort_range(keys, directions, mid, high);
    merge(keys, directions, &a, &b, Ghost(low as int), Ghost(mid as int), Ghost(high as int))
}

/// The order of the rows with the given keys.
pub fn sorted_positions(keys: &Vec<Vec<EngineValue>>, directions: &Vec<SortDirection>) -> (r: Vec<
    usize,
>)
    ensures
        positions(r@) == sort_order(keys.deep_view(), directions.deep_view()),
        forall|k: int| 0 <= k < r.len() ==> (#[trigger] r@[k]) < keys.len(),
{
    let r = sort_range(keys, directions, 0, keys.len());
    proof {
        let ks = keys.deep_view();
        let ds = directions.deep_view();
        let p = positions(r@);
        let q = sort_order(ks, ds);
        assert(orders_range(p, ks, ds, 0, ks.len() as int));
        assert(orders_range(q, ks, ds, 0, ks.len() as int));
        assert forall|x: int| #[trigger] p.contains(x) <==> q.contains(x) by {
            if p.contains(x) {
                let k = choose|k: int| 0 <= k < p.len() && p[k] == x;
                assert(0 <= p[k] < ks.len());
            }
            if q.contains(x) {
                let k = choose|k: int| 0 <= k < q.len() && q[k] == x;
                assert(0 <= q[k] < ks.len());
            }
        }
        law_sort_order_unique(p, q, ks, ds);
        assert forall|k: int| 0 <= k < r.len() implies (#[trigger] r@[k]) < keys.len() by {
            assert(0 <= p[k] < ks.len());
        }
    }
    r
}

/// Rows from `offset` on, at most `limit` of them.
pub open spec fn sliced<A>(rows: Seq<A>, limit: Option<usize>, offset: Option<usize>) -> Seq<A> {
    let start = match offset {
        Some(n) => if n < rows.len() {
            n as int
        } else {
            rows.len() as int
        },
        None => 0,
    };
    let rest = rows.skip(start);
    match limit {
        Some(n) => if n < rest.len() {
            rest.take(n as int)
        } else {
            rest
        },
        None => rest,
    }
}

/// The rows from `offset` on, at most `limit` of them.
pub fn slice_rows<T: Plain>(rows: &Vec<T>, limit: Option<usize>, offset: Option<usize>) -> (r: Vec<
    T,
>)
    ensures
        r.deep_view() == sliced(rows.deep_view(), limit, offset),
{
    let start: usize = match offset {
        Some(n) => if n < rows.len() {
            n
        } else {
            rows.len()
        },
        None => 0,
    };
    let end: usize = match limit {
        Some(n) => if n < rows.len() - start {
            start + n
        } else {
            rows.len()
        },
        None => rows.len(),
    };
    let ghost all = rows.deep_view();
    let mut out: Vec<T> = no_items();
    let mut i: usize = start;
    while i < end
        invariant
            start <= i <= end,
            end <= rows.len(),
            all == rows.deep_view(),
            out.deep_view() == all.subrange(start as int, i as int),
        decreases end - i,
    {
        crate::plain::push_back(&mut out, rows[i].duplicate());
        proof {
            assert(out.deep_view() =~= all.subrange(start as int, i + 1));
        }
        i += 1;
    }
    proof {
        assert(out.deep_view() =~= sliced(all, limit, offset));
    }
    out
}

} // verus!
