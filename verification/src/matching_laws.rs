//! Which rows a join brings together.
use vstd::prelude::*;
use crate::condition_laws::value_at;
use crate::join_builder::{self, RowsModel};
use crate::operators::nested_loop_join;
use crate::predicate::StateModel;
use crate::query::{ColumnRef, JoinKind, JoinModel, JoinOnModel};
use crate::select_pipeline;
use crate::store::RowModel;

verus! {

/// The column of the state and that of the row are both there and hold the
/// same value, of whatever kind.
pub open spec fn agree(
    state: StateModel,
    row: RowModel,
    left: ColumnRef,
    right: ColumnRef,
) -> bool {
    let v = value_at(state, left.table, left.column_index as int);
    v is Some && right.column_index < row.len() && row[right.column_index as int] == v->0
}

/// A join of this kind keeps what it finds no row for.
pub open spec fn keeps_left(kind: JoinKind) -> bool {
    kind == JoinKind::Left || kind == JoinKind::Full
}

/// A join of this kind keeps the rows that it finds nothing for.
pub open spec fn keeps_right(kind: JoinKind) -> bool {
    kind == JoinKind::Right || kind == JoinKind::Full
}

/// Whether a join brings state `i` and row `j` together. The number behind the
/// last state stands for none, and so does that behind the last row.
pub open spec fn is_brought(
    kind: JoinKind,
    states: Seq<StateModel>,
    rows: Seq<RowModel>,
    left: ColumnRef,
    right: ColumnRef,
    i: int,
    j: int,
) -> bool {
    if 0 <= i < states.len() && 0 <= j < rows.len() {
        agree(states[i], rows[j], left, right)
    } else if 0 <= i < states.len() && j == rows.len() {
        keeps_left(kind) && forall|k: int|
            0 <= k < rows.len() ==> !agree(states[i], #[trigger] rows[k], left, right)
    } else if i == states.len() && 0 <= j < rows.len() {
        keeps_right(kind) && forall|k: int|
            0 <= k < states.len() ==> !agree(#[trigger] states[k], rows[j], left, right)
    } else {
        false
    }
}

/// State `i` with row `j`: beside the template where there is no state, with
/// the note that there is no row where there is none.
pub open spec fn brought(
    states: Seq<StateModel>,
    rows: Seq<RowModel>,
    table: Seq<char>,
    template: StateModel,
    place: (int, int),
) -> StateModel {
    let state = if place.0 < states.len() {
        states[place.0]
    } else {
        template
    };
    if place.1 < rows.len() {
        state.insert(table, Some(rows[place.1]))
    } else {
        state.insert(table, None)
    }
}

/// The order in which a join gives its pairs: state by state, or, for a right
/// join, row by row.
pub open spec fn pair_before(kind: JoinKind, a: (int, int), b: (int, int)) -> bool {
    if kind == JoinKind::Right {
        a.1 < b.1 || (a.1 == b.1 && a.0 < b.0)
    } else {
        a.0 < b.0 || (a.0 == b.0 && a.1 < b.1)
    }
}

/// `made` holds a state for each of the pairs, in their order.
pub open spec fn made_of(
    made: Seq<StateModel>,
    pairs: Seq<(int, int)>,
    states: Seq<StateModel>,
    rows: Seq<RowModel>,
    table: Seq<char>,
    template: StateModel,
) -> bool {
    &&& made.len() == pairs.len()
    &&& forall|k: int|
        0 <= k < pairs.len() ==> #[trigger] made[k] == brought(
            states,
            rows,
            table,
            template,
            pairs[k],
        )
}

/// `pairs` are in the order in which a join gives them, no pair twice.
pub open spec fn in_order(kind: JoinKind, pairs: Seq<(int, int)>) -> bool {
    forall|k: int, l: int|
        0 <= k < l < pairs.len() ==> pair_before(kind, #[trigger] pairs[k], #[trigger] pairs[l])
}

/// `made` is the join of states with rows: exactly the pairs that it brings
/// together, each once, in order.
pub open spec fn is_join(
    kind: JoinKind,
    states: Seq<StateModel>,
    rows: Seq<RowModel>,
    table: Seq<char>,
    left: ColumnRef,
    right: ColumnRef,
    template: StateModel,
    made: Seq<StateModel>,
    pairs: Seq<(int, int)>,
) -> bool {
    &&& made_of(made, pairs, states, rows, table, template)
    &&& in_order(kind, pairs)
    &&& forall|i: int, j: int| #[trigger]
        pairs.contains((i, j)) <==> is_brought(kind, states, rows, left, right, i, j)
}

/// Matching is agreement of the two columns.
proof fn lemma_rows_match(state: StateModel, row: RowModel, left: ColumnRef, right: ColumnRef)
    ensures
        nested_loop_join::rows_match(state, row, left, right) == agree(state, row, left, right),
{
}

/// The rows among the first `m` that join state `i`.
proof fn lemma_pairs_of_state(
    states: Seq<StateModel>,
    rows: Seq<RowModel>,
    table: Seq<char>,
    left: ColumnRef,
    right: ColumnRef,
    template: StateModel,
    i: int,
    m: int,
) -> (pairs: Seq<(int, int)>)
    requires
        0 <= i < states.len(),
        0 <= m <= rows.len(),
    ensures
        made_of(
            nested_loop_join::with_matches(states[i], rows.take(m), table, left, right),
            pairs,
            states,
            rows,
            table,
            template,
        ),
        forall|k: int, l: int|
            0 <= k < l < pairs.len() ==> (#[trigger] pairs[k]).1 < (#[trigger] pairs[l]).1,
        forall|a: int, b: int| #[trigger]
            pairs.contains((a, b)) <==> a == i && 0 <= b < m && agree(
                states[i],
                rows[b],
                left,
                right,
            ),
    decreases m,
{
    if m == 0 {
        Seq::empty()
    } else {
        let before = lemma_pairs_of_state(
            states,
            rows,
            table,
            left,
            right,
            template,
            i,
            m - 1,
        );
        let list = rows.take(m);
        assert(list.drop_last() =~= rows.take(m - 1));
        assert(list.last() == rows[m - 1]);
        lemma_rows_match(states[i], rows[m - 1], left, right);
        if agree(states[i], rows[m - 1], left, right) {
            let pairs = before.push((i, m - 1));
            assert forall|k: int, l: int| 0 <= k < l < pairs.len() implies (#[trigger] pairs[k]).1
                < (#[trigger] pairs[l]).1 by {
                assert(before.contains(before[k]));
                assert(before.contains((before[k].0, before[k].1)));
            }
            assert forall|a: int, b: int| #[trigger]
                pairs.contains((a, b)) <==> a == i && 0 <= b < m && agree(
                    states[i],
                    rows[b],
                    left,
                    right,
                ) by {
                lemma_push_contains(before, (i, m - 1), (a, b));
                assert(before.contains((a, b)) <==> a == i && 0 <= b < m - 1 && agree(
                    states[i],
                    rows[b],
                    left,
                    right,
                ));
            }
            pairs
        } else {
            before
        }
    }
}

/// What a sequence holds with one more.
proof fn lemma_push_contains<A>(s: Seq<A>, x: A, y: A)
    ensures
        s.push(x).contains(y) <==> s.contains(y) || x == y,
{
    let t = s.push(x);
    if s.contains(y) {
        let i = choose|i: int| 0 <= i < s.len() && s[i] == y;
        assert(t[i] == y);
    }
    if x == y {
        assert(t[s.len() as int] == y);
    }
    if t.contains(y) {
        let i = choose|i: int| 0 <= i < t.len() && t[i] == y;
        if i < s.len() {
            assert(s[i] == y);
        }
    }
}

/// What two sequences hold together.
proof fn lemma_concat_contains<A>(s: Seq<A>, t: Seq<A>, y: A)
    ensures
        (s + t).contains(y) <==> s.contains(y) || t.contains(y),
{
    let u = s + t;
    if s.contains(y) {
        let i = choose|i: int| 0 <= i < s.len() && s[i] == y;
        assert(u[i] == y);
    }
    if t.contains(y) {
        let i = choose|i: int| 0 <= i < t.len() && t[i] == y;
        assert(u[i + s.len()] == y);
    }
    if u.contains(y) {
        let i = choose|i: int| 0 <= i < u.len() && u[i] == y;
        if i < s.len() {
            assert(s[i] == y);
        } else {
            assert(t[i - s.len()] == y);
        }
    }
}

proof fn lemma_made_concat(
    made: Seq<StateModel>,
    pairs: Seq<(int, int)>,
    more: Seq<StateModel>,
    others: Seq<(int, int)>,
    states: Seq<StateModel>,
    rows: Seq<RowModel>,
    table: Seq<char>,
    template: StateModel,
)
    requires
        made_of(made, pairs, states, rows, table, template),
        made_of(more, others, states, rows, table, template),
    ensures
        made_of(made + more, pairs + others, states, rows, table, template),
{
    let all = pairs + others;
    let both = made + more;
    assert forall|k: int| 0 <= k < all.len() implies #[trigger] both[k] == brought(
        states,
        rows,
        table,
        template,
        all[k],
    ) by {
        if k < pairs.len() {
            assert(made[k] == brought(states, rows, table, template, pairs[k]));
        } else {
            assert(more[k - pairs.len()] == brought(
                states,
                rows,
                table,
                template,
                others[k - pairs.len()],
            ));
        }
    }
}

proof fn lemma_order_concat(kind: JoinKind, pairs: Seq<(int, int)>, others: Seq<(int, int)>)
    requires
        in_order(kind, pairs),
        in_order(kind, others),
        forall|a: (int, int), b: (int, int)|
            #[trigger] pairs.contains(a) && #[trigger] others.contains(b) ==> pair_before(
                kind,
                a,
                b,
            ),
    ensures
        in_order(kind, pairs + others),
{
    let all = pairs + others;
    assert forall|k: int, l: int| 0 <= k < l < all.len() implies pair_before(
        kind,
        #[trigger] all[k],
        #[trigger] all[l],
    ) by {
        if l < pairs.len() {
            assert(all[k] == pairs[k] && all[l] == pairs[l]);
        } else if k >= pairs.len() {
            assert(all[k] == others[k - pairs.len()] && all[l] == others[l - pairs.len()]);
        } else {
            assert(pairs.contains(pairs[k]));
            assert(others.contains(others[l - pairs.len()]));
        }
    }
}

/// What a join that goes state by state gives for the first `n` states.
proof fn lemma_pairs_by_state(
    kind: JoinKind,
    states: Seq<StateModel>,
    rows: Seq<RowModel>,
    table: Seq<char>,
    left: ColumnRef,
    right: ColumnRef,
    template: StateModel,
    n: int,
) -> (pairs: Seq<(int, int)>)
    requires
        0 <= n <= states.len(),
        kind != JoinKind::Right,
    ensures
        made_of(
            if kind == JoinKind::Inner {
                nested_loop_join::inner_join(states.take(n), rows, table, left, right)
            } else {
                nested_loop_join::left_join(states.take(n), rows, table, left, right)
            },
            pairs,
            states,
            rows,
            table,
            template,
        ),
        in_order(kind, pairs),
        forall|i: int, j: int| #[trigger]
            pairs.contains((i, j)) <==> i < n && is_brought(kind, states, rows, left, right, i, j),
    decreases n,
{
    if n == 0 {
        assert forall|i: int, j: int| i < 0 implies !is_brought(
            kind,
            states,
            rows,
            left,
            right,
            i,
            j,
        ) by {}
        Seq::empty()
    } else {
        let before = lemma_pairs_by_state(
            kind,
            states,
            rows,
            table,
            left,
            right,
            template,
            n - 1,
        );
        let i = n - 1;
        let list = states.take(n);
        assert(list.drop_last() =~= states.take(n - 1));
        assert(list.last() == states[i]);
        assert(rows.take(rows.len() as int) =~= rows);
        let own = lemma_pairs_of_state(
            states,
            rows,
            table,
            left,
            right,
            template,
            i,
            rows.len() as int,
        );
        let matched = nested_loop_join::with_matches(states[i], rows, table, left, right);
        let none = (i, rows.len() as int);
        let others = if kind != JoinKind::Inner && matched.len() == 0 {
            seq![none]
        } else {
            own
        };
        assert(own.len() == matched.len());
        assert forall|a: int, b: int| #[trigger]
            others.contains((a, b)) <==> a == i && is_brought(
                kind,
                states,
                rows,
                left,
                right,
                a,
                b,
            ) by {
            assert(own.contains((a, b)) <==> a == i && 0 <= b < rows.len() && agree(
                states[i],
                rows[b],
                left,
                right,
            ));
            if matched.len() == 0 {
                assert forall|k: int| 0 <= k < rows.len() implies !agree(
                    states[i],
                    #[trigger] rows[k],
                    left,
                    right,
                ) by {
                    assert(!own.contains((i, k)));
                }
                if kind != JoinKind::Inner {
                    assert(others[0] == none);
                    assert(others.contains((a, b)) <==> (a, b) == none);
                }
            } else {
                assert(own.contains(own[0]));
                assert(own.contains((own[0].0, own[0].1)));
                assert(agree(states[i], rows[own[0].1], left, right));
            }
        }
        assert(in_order(kind, others)) by {
            assert forall|k: int, l: int| 0 <= k < l < others.len() implies pair_before(
                kind,
                #[trigger] others[k],
                #[trigger] others[l],
            ) by {
                assert(own.contains((own[k].0, own[k].1)));
                assert(own.contains((own[l].0, own[l].1)));
            }
        }
        let more = if kind == JoinKind::Inner {
            matched
        } else {
            nested_loop_join::with_matches_or_none(states[i], rows, table, left, right)
        };
        assert(made_of(more, others, states, rows, table, template));
        let so_far = if kind == JoinKind::Inner {
            nested_loop_join::inner_join(states.take(n - 1), rows, table, left, right)
        } else {
            nested_loop_join::left_join(states.take(n - 1), rows, table, left, right)
        };
        lemma_made_concat(so_far, before, more, others, states, rows, table, template);
        assert forall|a: (int, int), b: (int, int)|
            #[trigger] before.contains(a) && #[trigger] others.contains(b) implies pair_before(
            kind,
            a,
            b,
        ) by {
            assert(before.contains((a.0, a.1)));
            assert(others.contains((b.0, b.1)));
        }
        lemma_order_concat(kind, before, others);
        let pairs = before + others;
        assert forall|a: int, b: int| #[trigger]
            pairs.contains((a, b)) <==> a < n && is_brought(
                kind,
                states,
                rows,
                left,
                right,
                a,
                b,
            ) by {
            lemma_concat_contains(before, others, (a, b));
            assert(before.contains((a, b)) <==> a < n - 1 && is_brought(
                kind,
                states,
                rows,
                left,
                right,
                a,
                b,
            ));
            assert(others.contains((a, b)) <==> a == i && is_brought(
                kind,
                states,
                rows,
                left,
                right,
                a,
                b,
            ));
        }
        pairs
    }
}

/// The states among the first `n` that row `j` joins.
proof fn lemma_pairs_of_row(
    states: Seq<StateModel>,
    rows: Seq<RowModel>,
    table: Seq<char>,
    left: ColumnRef,
    right: ColumnRef,
    template: StateModel,
    j: int,
    n: int,
) -> (pairs: Seq<(int, int)>)
    requires
        0 <= j < rows.len(),
        0 <= n <= states.len(),
    ensures
        made_of(
            nested_loop_join::states_with(states.take(n), rows[j], table, left, right),
            pairs,
            states,
            rows,
            table,
            template,
        ),
        forall|k: int, l: int|
            0 <= k < l < pairs.len() ==> (#[trigger] pairs[k]).0 < (#[trigger] pairs[l]).0,
        forall|a: int, b: int| #[trigger]
            pairs.contains((a, b)) <==> b == j && 0 <= a < n && agree(
                states[a],
                rows[j],
                left,
                right,
            ),
    decreases n,
{
    if n == 0 {
        Seq::empty()
    } else {
        let before = lemma_pairs_of_row(
            states,
            rows,
            table,
            left,
            right,
            template,
            j,
            n - 1,
        );
        let list = states.take(n);
        assert(list.drop_last() =~= states.take(n - 1));
        assert(list.last() == states[n - 1]);
        lemma_rows_match(states[n - 1], rows[j], left, right);
        if agree(states[n - 1], rows[j], left, right) {
            let pairs = before.push((n - 1, j));
            assert forall|k: int, l: int| 0 <= k < l < pairs.len() implies (#[trigger] pairs[k]).0
                < (#[trigger] pairs[l]).0 by {
                assert(before.contains(before[k]));
                assert(before.contains((before[k].0, before[k].1)));
            }
            assert forall|a: int, b: int| #[trigger]
                pairs.contains((a, b)) <==> b == j && 0 <= a < n && agree(
                    states[a],
                    rows[j],
                    left,
                    right,
                ) by {
                lemma_push_contains(before, (n - 1, j), (a, b));
                assert(before.contains((a, b)) <==> b == j && 0 <= a < n - 1 && agree(
                    states[a],
                    rows[j],
                    left,
                    right,
                ));
            }
            pairs
        } else {
            before
        }
    }
}

/// What a right join gives for the first `m` rows.
proof fn lemma_pairs_by_row(
    states: Seq<StateModel>,
    rows: Seq<RowModel>,
    table: Seq<char>,
    left: ColumnRef,
    right: ColumnRef,
    template: StateModel,
    m: int,
) -> (pairs: Seq<(int, int)>)
    requires
        0 <= m <= rows.len(),
    ensures
        made_of(
            nested_loop_join::right_join(states, rows.take(m), table, left, right, template),
            pairs,
            states,
            rows,
            table,
            template,
        ),
        in_order(JoinKind::Right, pairs),
        forall|i: int, j: int| #[trigger]
            pairs.contains((i, j)) <==> j < m && is_brought(
                JoinKind::Right,
                states,
                rows,
                left,
                right,
                i,
                j,
            ),
    decreases m,
{
    let kind = JoinKind::Right;
    if m == 0 {
        Seq::empty()
    } else {
        let before = lemma_pairs_by_row(states, rows, table, left, right, template, m - 1);
        let j = m - 1;
        let list = rows.take(m);
        assert(list.drop_last() =~= rows.take(m - 1));
        assert(list.last() == rows[j]);
        assert(states.take(states.len() as int) =~= states);
        let own = lemma_pairs_of_row(
            states,
            rows,
            table,
            left,
            right,
            template,
            j,
            states.len() as int,
        );
        let matched = nested_loop_join::states_with(states, rows[j], table, left, right);
        let alone = (states.len() as int, j);
        let others = if matched.len() == 0 {
            seq![alone]
        } else {
            own
        };
        assert(own.len() == matched.len());
        assert forall|a: int, b: int| #[trigger]
            others.contains((a, b)) <==> b == j && is_brought(
                kind,
                states,
                rows,
                left,
                right,
                a,
                b,
            ) by {
            assert(own.contains((a, b)) <==> b == j && 0 <= a < states.len() && agree(
                states[a],
                rows[j],
                left,
                right,
            ));
            if matched.len() == 0 {
                assert forall|k: int| 0 <= k < states.len() implies !agree(
                    #[trigger] states[k],
                    rows[j],
                    left,
                    right,
                ) by {
                    assert(!own.contains((k, j)));
                }
                assert(others[0] == alone);
                assert(others.contains((a, b)) <==> (a, b) == alone);
            } else {
                assert(own.contains(own[0]));
                assert(own.contains((own[0].0, own[0].1)));
                assert(agree(states[own[0].0], rows[j], left, right));
            }
        }
        assert(in_order(kind, others)) by {
            assert forall|k: int, l: int| 0 <= k < l < others.len() implies pair_before(
                kind,
                #[trigger] others[k],
                #[trigger] others[l],
            ) by {
                assert(own.contains((own[k].0, own[k].1)));
                assert(own.contains((own[l].0, own[l].1)));
            }
        }
        let more = nested_loop_join::states_with_or_alone(
            states,
            rows[j],
            table,
            left,
            right,
            template,
        );
        assert(made_of(more, others, states, rows, table, template));
        lemma_made_concat(
            nested_loop_join::right_join(states, rows.take(m - 1), table, left, right, template),
            before,
            more,
            others,
            states,
            rows,
            table,
            template,
        );
        assert forall|a: (int, int), b: (int, int)|
            #[trigger] before.contains(a) && #[trigger] others.contains(b) implies pair_before(
            kind,
            a,
            b,
        ) by {
            assert(before.contains((a.0, a.1)));
            assert(others.contains((b.0, b.1)));
        }
        lemma_order_concat(kind, before, others);
        let pairs = before + others;
        assert forall|a: int, b: int| #[trigger]
            pairs.contains((a, b)) <==> b < m && is_brought(
                kind,
                states,
                rows,
                left,
                right,
                a,
                b,
            ) by {
            lemma_concat_contains(before, others, (a, b));
            assert(before.contains((a, b)) <==> b < m - 1 && is_brought(
                kind,
                states,
                rows,
                left,
                right,
                a,
                b,
            ));
            assert(others.contains((a, b)) <==> b == j && is_brought(
                kind,
                states,
                rows,
                left,
                right,
                a,
                b,
            ));
        }
        pairs
    }
}

/// The rows among the first `m` that join no state.
proof fn lemma_pairs_alone(
    states: Seq<StateModel>,
    rows: Seq<RowModel>,
    table: Seq<char>,
    left: ColumnRef,
    right: ColumnRef,
    template: StateModel,
    m: int,
) -> (pairs: Seq<(int, int)>)
    requires
        0 <= m <= rows.len(),
    ensures
        made_of(
            nested_loop_join::rows_alone(states, rows.take(m), table, left, right, template),
            pairs,
            states,
            rows,
            table,
            template,
        ),
        in_order(JoinKind::Full, pairs),
        forall|i: int, j: int| #[trigger]
            pairs.contains((i, j)) <==> i == states.len() && 0 <= j < m && is_brought(
                JoinKind::Full,
                states,
                rows,
                left,
                right,
                i,
                j,
            ),
    decreases m,
{
    if m == 0 {
        Seq::empty()
    } else {
        let before = lemma_pairs_alone(states, rows, table, left, right, template, m - 1);
        let j = m - 1;
        let list = rows.take(m);
        assert(list.drop_last() =~= rows.take(m - 1));
        assert(list.last() == rows[j]);
        assert forall|k: int| 0 <= k < states.len() implies nested_loop_join::rows_match(
            #[trigger] states[k],
            rows[j],
            left,
            right,
        ) == agree(states[k], rows[j], left, right) by {
            lemma_rows_match(states[k], rows[j], left, right);
        }
        let n = states.len() as int;
        if is_brought(JoinKind::Full, states, rows, left, right, n, j) {
            let pairs = before.push((n, j));
            assert forall|k: int, l: int| 0 <= k < l < pairs.len() implies pair_before(
                JoinKind::Full,
                #[trigger] pairs[k],
                #[trigger] pairs[l],
            ) by {
                assert(before.contains((before[k].0, before[k].1)));
                if l < before.len() {
                    assert(pair_before(JoinKind::Full, before[k], before[l]));
                }
            }
            assert forall|a: int, b: int| #[trigger]
                pairs.contains((a, b)) <==> a == n && 0 <= b < m && is_brought(
                    JoinKind::Full,
                    states,
                    rows,
                    left,
                    right,
                    a,
                    b,
                ) by {
                lemma_push_contains(before, (n, j), (a, b));
                assert(before.contains((a, b)) <==> a == n && 0 <= b < m - 1 && is_brought(
                    JoinKind::Full,
                    states,
                    rows,
                    left,
                    right,
                    a,
                    b,
                ));
            }
            pairs
        } else {
            before
        }
    }
}

/// Law: a join on two columns brings a state and a row together exactly if the
/// column of each is there and they hold the same value. A left join keeps the
/// states without a row besides, a right join the rows without a state, and a
/// full join both. Each pair comes once; they come state by state and row by
/// row, in a right join row by row and state by state, and in a full join the
/// rows without a state come last.
pub proof fn law_join_pairs_equal_values(
    join: JoinModel,
    rows: RowsModel,
    template: StateModel,
    states: Seq<StateModel>,
    left: ColumnRef,
    right: ColumnRef,
)
    requires
        join.on == (JoinOnModel::ColumnEq { left, right }),
        rows.contains_key(join.right_table),
    ensures
        exists|pairs: Seq<(int, int)>| #[trigger]
            is_join(
                join.kind,
                states,
                rows[join.right_table],
                join.right_table,
                left,
                right,
                template,
                join_builder::join_applied(join, rows, template, states),
                pairs,
            ),
{
    let list = rows[join.right_table];
    let table = join.right_table;
    let made = join_builder::join_applied(join, rows, template, states);
    let n = states.len() as int;
    let m = list.len() as int;
    assert(states.take(n) =~= states);
    assert(list.take(m) =~= list);
    match join.kind {
        JoinKind::Inner | JoinKind::Left => {
            let pairs = lemma_pairs_by_state(
                join.kind,
                states,
                list,
                table,
                left,
                right,
                template,
                n,
            );
            assert forall|i: int, j: int| #[trigger]
                pairs.contains((i, j)) <==> is_brought(
                    join.kind,
                    states,
                    list,
                    left,
                    right,
                    i,
                    j,
                ) by {}
            assert(is_join(
                join.kind,
                states,
                list,
                table,
                left,
                right,
                template,
                made,
                pairs,
            ));
        },
        JoinKind::Right => {
            let pairs = lemma_pairs_by_row(states, list, table, left, right, template, m);
            assert(is_join(
                join.kind,
                states,
                list,
                table,
                left,
                right,
                template,
                made,
                pairs,
            ));
        },
        JoinKind::Full => {
            let kept = lemma_pairs_by_state(
                join.kind,
                states,
                list,
                table,
                left,
                right,
                template,
                n,
            );
            let alone = lemma_pairs_alone(states, list, table, left, right, template, m);
            lemma_made_concat(
                nested_loop_join::left_join(states, list, table, left, right),
                kept,
                nested_loop_join::rows_alone(states, list, table, left, right, template),
                alone,
                states,
                list,
                table,
                template,
            );
            assert forall|a: (int, int), b: (int, int)|
                #[trigger] kept.contains(a) && #[trigger] alone.contains(b) implies pair_before(
                join.kind,
                a,
                b,
            ) by {
                assert(kept.contains((a.0, a.1)));
                assert(alone.contains((b.0, b.1)));
            }
            lemma_order_concat(join.kind, kept, alone);
            let pairs = kept + alone;
            assert forall|i: int, j: int| #[trigger]
                pairs.contains((i, j)) <==> is_brought(
                    join.kind,
                    states,
                    list,
                    left,
                    right,
                    i,
                    j,
                ) by {
                lemma_concat_contains(kept, alone, (i, j));
                assert(kept.contains((i, j)) <==> i < n && is_brought(
                    join.kind,
                    states,
                    list,
                    left,
                    right,
                    i,
                    j,
                ));
                assert(alone.contains((i, j)) <==> i == n && 0 <= j < m && is_brought(
                    join.kind,
                    states,
                    list,
                    left,
                    right,
                    i,
                    j,
                ));
            }
            assert(is_join(
                join.kind,
                states,
                list,
                table,
                left,
                right,
                template,
                made,
                pairs,
            ));
        },
    }
}

/// Law: the joined rows that an inner join holds are exactly the states with a
/// row whose column holds the value of theirs.
pub proof fn law_inner_join_holds_equal_rows(
    states: Seq<StateModel>,
    rows: Seq<RowModel>,
    table: Seq<char>,
    left: ColumnRef,
    right: ColumnRef,
    made: StateModel,
)
    ensures
        nested_loop_join::inner_join(states, rows, table, left, right).contains(made) <==> exists|
            i: int,
            j: int,
        |
            0 <= i < states.len() && 0 <= j < rows.len() && agree(
                #[trigger] states[i],
                #[trigger] rows[j],
                left,
                right,
            ) && made == states[i].insert(table, Some(rows[j])),
{
    let n = states.len() as int;
    assert(states.take(n) =~= states);
    let template = StateModel::empty();
    let all = nested_loop_join::inner_join(states, rows, table, left, right);
    let pairs = lemma_pairs_by_state(
        JoinKind::Inner,
        states,
        rows,
        table,
        left,
        right,
        template,
        n,
    );
    if all.contains(made) {
        let k = choose|k: int| 0 <= k < all.len() && all[k] == made;
        assert(pairs.contains(pairs[k]));
        let (i, j) = pairs[k];
        assert(pairs.contains((i, j)));
        assert(agree(states[i], rows[j], left, right));
    }
    if exists|i: int, j: int|
        0 <= i < states.len() && 0 <= j < rows.len() && agree(
            #[trigger] states[i],
            #[trigger] rows[j],
            left,
            right,
        ) && made == states[i].insert(table, Some(rows[j])) {
        let (i, j) = choose|i: int, j: int|
            0 <= i < states.len() && 0 <= j < rows.len() && agree(
                #[trigger] states[i],
                #[trigger] rows[j],
                left,
                right,
            ) && made == states[i].insert(table, Some(rows[j]));
        assert(pairs.contains((i, j)));
        let k = choose|k: int| 0 <= k < pairs.len() && pairs[k] == (i, j);
        assert(all[k] == made);
    }
}

/// Law: joins are made one after the other, each on what the one before gave.
pub proof fn law_joins_follow_each_other(
    joins: Seq<JoinModel>,
    more: JoinModel,
    rows: RowsModel,
    template: StateModel,
    states: Seq<StateModel>,
)
    ensures
        select_pipeline::joins_applied(Seq::empty(), rows, template, states) == states,
        select_pipeline::joins_applied(joins.push(more), rows, template, states)
            == join_builder::join_applied(
            more,
            rows,
            template,
            select_pipeline::joins_applied(joins, rows, template, states),
        ),
    decreases joins.len(),
{
    reveal_with_fuel(select_pipeline::joins_applied, 2);
    if joins.len() == 0 {
        assert(joins.push(more).drop_first() =~= joins);
    } else {
        assert(joins.push(more).drop_first() =~= joins.drop_first().push(more));
        law_joins_follow_each_other(
            joins.drop_first(),
            more,
            rows,
            template,
            join_builder::join_applied(joins[0], rows, template, states),
        );
    }
}

} // verus!
