//! The playfield grid: a fixed `cols x rows` store of cells, with
//! connected-group search, erasure, and gravity compaction.

use vstd::prelude::*;

verus! {

/// Whether a cell holds a puyo.
pub open spec fn is_filled(c: Cell) -> bool {
    c is Filled
}

/// The filled cells of a column, in top-to-bottom order.
pub open spec fn filled_cells(s: Seq<Cell>) -> Seq<Cell>
    decreases s.len(),
{
    if s.len() == 0 {
        Seq::empty()
    } else if is_filled(s[0]) {
        seq![s[0]] + filled_cells(s.drop_first())
    } else {
        filled_cells(s.drop_first())
    }
}

/// A column after gravity: all its filled cells at the bottom, in their
/// original top-to-bottom order, with empty cells above them.
pub open spec fn compacted(s: Seq<Cell>) -> Seq<Cell> {
    Seq::new(
        s.len(),
        |y: int|
            if y < s.len() - filled_cells(s).len() {
                Cell::Empty
            } else {
                filled_cells(s)[y - (s.len() - filled_cells(s).len())]
            },
    )
}

/// A column is settled when no filled cell sits above an empty one: every
/// cell below a filled cell is filled too.
pub open spec fn settled(s: Seq<Cell>) -> bool {
    forall|i: int, j: int|
        #![trigger s[i], s[j]]
        0 <= i < j < s.len() && is_filled(s[i]) ==> is_filled(s[j])
}

/// The row at which the filled cell at row `r` comes to rest after gravity.
pub open spec fn settled_row(s: Seq<Cell>, r: int) -> int {
    s.len() - filled_cells(s).len() + filled_cells(s.take(r)).len()
}

proof fn lemma_filled_cells_len(s: Seq<Cell>)
    ensures
        filled_cells(s).len() <= s.len(),
    decreases s.len(),
{
    if s.len() > 0 {
        lemma_filled_cells_len(s.drop_first());
    }
}

proof fn lemma_filled_cells_filled(s: Seq<Cell>)
    ensures
        forall|i: int| 0 <= i < filled_cells(s).len() ==> is_filled(#[trigger] filled_cells(s)[i]),
    decreases s.len(),
{
    if s.len() > 0 {
        let d = s.drop_first();
        lemma_filled_cells_filled(d);
        if is_filled(s[0]) {
            assert forall|i: int| 0 <= i < filled_cells(s).len() implies is_filled(
                filled_cells(s)[i],
            ) by {
                if i == 0 {
                    assert(filled_cells(s)[0] == s[0]);
                } else {
                    assert(filled_cells(s)[i] == filled_cells(d)[i - 1]);
                }
            }
        } else {
            assert(filled_cells(s) == filled_cells(d));
            assert forall|i: int| 0 <= i < filled_cells(s).len() implies is_filled(
                filled_cells(s)[i],
            ) by {
                assert(filled_cells(s)[i] == filled_cells(d)[i]);
            }
        }
    }
}

proof fn lemma_filled_cells_all_filled(s: Seq<Cell>)
    requires
        forall|i: int| 0 <= i < s.len() ==> is_filled(#[trigger] s[i]),
    ensures
        filled_cells(s) == s,
    decreases s.len(),
{
    if s.len() > 0 {
        lemma_filled_cells_all_filled(s.drop_first());
        assert(filled_cells(s) =~= s);
    } else {
        assert(filled_cells(s) =~= s);
    }
}

/// Appending one cell appends it to the filled subsequence iff it is filled.
proof fn lemma_filled_cells_push(s: Seq<Cell>, c: Cell)
    ensures
        filled_cells(s.push(c)) == if is_filled(c) {
            filled_cells(s).push(c)
        } else {
            filled_cells(s)
        },
    decreases s.len(),
{
    if s.len() == 0 {
        assert(s.push(c).drop_first() =~= s);
        assert(filled_cells(s).len() == 0);
        if is_filled(c) {
            assert(filled_cells(s.push(c)) =~= filled_cells(s).push(c));
        } else {
            assert(filled_cells(s.push(c)) =~= filled_cells(s));
        }
    } else {
        assert(s.push(c).drop_first() =~= s.drop_first().push(c));
        lemma_filled_cells_push(s.drop_first(), c);
        if is_filled(c) {
            assert(filled_cells(s.push(c)) =~= filled_cells(s).push(c));
        }
    }
}

/// The filled cells of `s` decompose around any filled row `r`.
proof fn lemma_filled_cells_split(s: Seq<Cell>, r: int)
    requires
        0 <= r < s.len(),
        is_filled(s[r]),
    ensures
        filled_cells(s) == filled_cells(s.take(r)) + seq![s[r]] + filled_cells(s.skip(r + 1)),
    decreases r,
{
    if r == 0 {
        assert(s.take(0) =~= Seq::<Cell>::empty());
        assert(s.skip(1) =~= s.drop_first());
        assert(filled_cells(s) =~= filled_cells(s.take(0)) + seq![s[0]] + filled_cells(s.skip(1)));
    } else {
        let d = s.drop_first();
        lemma_filled_cells_split(d, r - 1);
        assert(d.take(r - 1) =~= s.take(r).drop_first());
        assert(d.skip(r) =~= s.skip(r + 1));
        if is_filled(s[0]) {
            assert(filled_cells(s.take(r)) =~= seq![s[0]] + filled_cells(s.take(r).drop_first()));
            assert(filled_cells(s) =~= filled_cells(s.take(r)) + seq![s[r]] + filled_cells(
                s.skip(r + 1),
            ));
        } else {
            assert(filled_cells(s.take(r)) =~= filled_cells(s.take(r).drop_first()));
            assert(filled_cells(s) =~= filled_cells(s.take(r)) + seq![s[r]] + filled_cells(
                s.skip(r + 1),
            ));
        }
    }
}

/// A settled column is unchanged by gravity.
proof fn lemma_settled_compacted_id(s: Seq<Cell>)
    requires
        settled(s),
    ensures
        compacted(s) == s,
    decreases s.len(),
{
    lemma_filled_cells_len(s);
    if s.len() == 0 {
        assert(compacted(s) =~= s);
    } else if is_filled(s[0]) {
        assert(forall|i: int| 0 <= i < s.len() ==> is_filled(#[trigger] s[i]));
        lemma_filled_cells_all_filled(s);
        assert(compacted(s) =~= s);
    } else {
        let d = s.drop_first();
        assert(settled(d)) by {
            assert forall|i: int, j: int|
                #![trigger d[i], d[j]]
                0 <= i < j < d.len() && is_filled(d[i]) implies is_filled(d[j]) by {
                assert(d[i] == s[i + 1]);
                assert(d[j] == s[j + 1]);
            }
        }
        lemma_settled_compacted_id(d);
        lemma_filled_cells_len(d);
        assert(filled_cells(s) == filled_cells(d));
        assert forall|j: int| 0 <= j < s.len() implies compacted(s)[j] == s[j] by {
            if j == 0 {
                assert(compacted(s)[0] == Cell::Empty);
            } else {
                assert(compacted(s)[j] == compacted(d)[j - 1]);
                assert(compacted(d)[j - 1] == d[j - 1]);
                assert(d[j - 1] == s[j]);
            }
        }
        assert(compacted(s) =~= s);
    }
}

/// Gravity always yields a settled column.
proof fn lemma_compacted_settled(s: Seq<Cell>)
    ensures
        settled(compacted(s)),
        compacted(s).len() == s.len(),
        filled_cells(compacted(s)).len() == filled_cells(s).len(),
{
    lemma_filled_cells_len(s);
    lemma_filled_cells_filled(s);
    let c = compacted(s);
    let k = filled_cells(s).len() as int;
    assert(forall|j: int| s.len() - k <= j < s.len() ==> is_filled(#[trigger] c[j]));
    assert(forall|j: int| 0 <= j < s.len() - k ==> !is_filled(#[trigger] c[j]));
    assert(c.take(s.len() - k) =~= Seq::new((s.len() - k) as nat, |y: int| Cell::Empty));
    lemma_filled_cells_of_layered(c, s.len() - k);
    assert(filled_cells(c) =~= c.skip(s.len() - k));
}

/// For a column whose first `e` cells are empty and whose rest are filled,
/// the filled cells are exactly the tail.
proof fn lemma_filled_cells_of_layered(s: Seq<Cell>, e: int)
    requires
        0 <= e <= s.len(),
        forall|j: int| 0 <= j < e ==> !is_filled(#[trigger] s[j]),
        forall|j: int| e <= j < s.len() ==> is_filled(#[trigger] s[j]),
    ensures
        filled_cells(s) == s.skip(e),
    decreases e,
{
    if e == 0 {
        lemma_filled_cells_all_filled(s);
        assert(s.skip(0) =~= s);
    } else {
        let d = s.drop_first();
        lemma_filled_cells_of_layered(d, e - 1);
        assert(d.skip(e - 1) =~= s.skip(e));
    }
}

/// Law: gravity is idempotent. Applying gravity to an already compacted
/// column leaves it unchanged, so a second `apply_gravity` with no
/// intervening mutation changes nothing and reports no movement.
pub proof fn lemma_gravity_idempotent(s: Seq<Cell>)
    ensures
        compacted(compacted(s)) == compacted(s),
{
    lemma_compacted_settled(s);
    lemma_settled_compacted_id(compacted(s));
}

/// Law: gravity is idempotent at board level. When every column of `b2`
/// is the compacted form of the matching column of `b1` (as `apply_gravity`
/// ensures), compacting `b2` changes nothing, so a second consecutive
/// `apply_gravity` reports no movement and leaves the grid unchanged.
pub proof fn lemma_apply_gravity_idempotent(b1: &Board, b2: &Board)
    requires
        b1.spec_cols() == b2.spec_cols(),
        forall|x: int|
            0 <= x < b1.spec_cols() ==> #[trigger] b2.column(x) == compacted(b1.column(x)),
    ensures
        forall|x: int| 0 <= x < b2.spec_cols() ==> #[trigger] compacted(b2.column(x)) == b2.column(x),
{
    assert forall|x: int| 0 <= x < b2.spec_cols() implies #[trigger] compacted(b2.column(x))
        == b2.column(x) by {
        lemma_gravity_idempotent(b1.column(x));
    }
}

/// Law: gravity preserves the top-to-bottom order of each column's filled
/// cells. If rows `r1 < r2` of a column are both filled, the cell from `r1`
/// comes to rest strictly above the cell from `r2`.
pub proof fn lemma_gravity_preserves_column_order(s: Seq<Cell>, r1: int, r2: int)
    requires
        0 <= r1 < r2 < s.len(),
        is_filled(s[r1]),
        is_filled(s[r2]),
    ensures
        s.len() - filled_cells(s).len() <= settled_row(s, r1) < settled_row(s, r2) < s.len(),
        compacted(s)[settled_row(s, r1)] == s[r1],
        compacted(s)[settled_row(s, r2)] == s[r2],
{
    lemma_filled_cells_len(s);
    lemma_settled_row_value(s, r1);
    lemma_settled_row_value(s, r2);
    lemma_filled_count_monotone(s, r1, r2);
}

/// The number of filled cells strictly above row `r1` is strictly less than
/// the number strictly above row `r2` when `r1 < r2` and row `r1` is filled.
proof fn lemma_filled_count_monotone(s: Seq<Cell>, r1: int, r2: int)
    requires
        0 <= r1 < r2 <= s.len(),
        is_filled(s[r1]),
    ensures
        filled_cells(s.take(r1)).len() < filled_cells(s.take(r2)).len(),
    decreases r2 - r1,
{
    assert(s.take(r1 + 1) =~= s.take(r1).push(s[r1]));
    lemma_filled_cells_push(s.take(r1), s[r1]);
    if r1 + 1 == r2 {
    } else {
        lemma_filled_take_monotone(s, r1 + 1, r2);
    }
}

proof fn lemma_filled_take_monotone(s: Seq<Cell>, a: int, b: int)
    requires
        0 <= a <= b <= s.len(),
    ensures
        filled_cells(s.take(a)).len() <= filled_cells(s.take(b)).len(),
    decreases b - a,
{
    if a < b {
        lemma_filled_take_monotone(s, a, b - 1);
        assert(s.take(b) =~= s.take(b - 1).push(s[b - 1]));
        lemma_filled_cells_push(s.take(b - 1), s[b - 1]);
    }
}

/// After gravity, the cell that was at filled row `r` sits at
/// `settled_row(s, r)` with its value unchanged.
proof fn lemma_settled_row_value(s: Seq<Cell>, r: int)
    requires
        0 <= r < s.len(),
        is_filled(s[r]),
    ensures
        s.len() - filled_cells(s).len() <= settled_row(s, r) < s.len(),
        compacted(s)[settled_row(s, r)] == s[r],
{
    lemma_filled_cells_len(s);
    lemma_filled_cells_split(s, r);
    let before = filled_cells(s.take(r));
    assert(filled_cells(s)[before.len() as int] == s[r]);
    lemma_filled_cells_len(s.take(r));
}

/// Two positions are orthogonally adjacent (Manhattan distance 1).
pub open spec fn adjacent(p: (usize, usize), q: (usize, usize)) -> bool {
    ||| p.0 == q.0 && p.1 + 1 == q.1
    ||| p.0 == q.0 && q.1 + 1 == p.1
    ||| p.1 == q.1 && p.0 + 1 == q.0
    ||| p.1 == q.1 && q.0 + 1 == p.0
}

/// `path` is a same-colored orthogonal path of `b` from `s` to `t`: it
/// starts at `s`, ends at `t`, every step is between adjacent cells, and
/// every cell on it is in bounds and holds the same filled value as `s`.
pub open spec fn reach_path(
    b: &Board,
    s: (usize, usize),
    t: (usize, usize),
    path: Seq<(usize, usize)>,
) -> bool {
    &&& path.len() >= 1
    &&& path[0] == s
    &&& path[path.len() - 1] == t
    &&& b.pos_in_bounds(s)
    &&& is_filled(b.pos_cell(s))
    &&& forall|i: int|
        0 <= i < path.len() ==> b.pos_in_bounds(#[trigger] path[i]) && b.pos_cell(path[i])
            == b.pos_cell(s)
    &&& forall|i: int| 0 <= i < path.len() - 1 ==> adjacent(#[trigger] path[i], path[i + 1])
}

/// `t` belongs to the connected same-color group of `s`.
pub open spec fn reachable(b: &Board, s: (usize, usize), t: (usize, usize)) -> bool {
    exists|path: Seq<(usize, usize)>| reach_path(b, s, t, path)
}

/// A filled in-bounds cell reaches itself.
pub proof fn lemma_reachable_refl(b: &Board, s: (usize, usize))
    requires
        b.pos_in_bounds(s),
        is_filled(b.pos_cell(s)),
    ensures
        reachable(b, s, s),
{
    let path: Seq<(usize, usize)> = seq![s];
    assert(reach_path(b, s, s, path));
}

/// Reachability extends across one adjacent same-colored cell.
pub proof fn lemma_reachable_step(b: &Board, s: (usize, usize), a: (usize, usize), q: (usize, usize))
    requires
        reachable(b, s, a),
        adjacent(a, q),
        b.pos_in_bounds(q),
        b.pos_cell(q) == b.pos_cell(s),
    ensures
        reachable(b, s, q),
{
    let path = choose|path: Seq<(usize, usize)>| reach_path(b, s, a, path);
    let longer = path.push(q);
    assert(longer[longer.len() - 1] == q);
    assert(forall|i: int| 0 <= i < path.len() ==> longer[i] == #[trigger] path[i]);
    assert(reach_path(b, s, q, longer));
}

/// Reachability is symmetric: a path from `s` to `t` reverses into a path
/// from `t` to `s`.
pub proof fn lemma_reachable_sym(b: &Board, s: (usize, usize), t: (usize, usize))
    requires
        reachable(b, s, t),
    ensures
        reachable(b, t, s),
{
    let path = choose|path: Seq<(usize, usize)>| reach_path(b, s, t, path);
    let rev = Seq::new(path.len(), |i: int| path[path.len() - 1 - i]);
    assert(b.pos_cell(t) == b.pos_cell(s));
    assert forall|i: int| 0 <= i < rev.len() - 1 implies adjacent(#[trigger] rev[i], rev[i + 1]) by {
        let j = path.len() - 1 - i;
        assert(adjacent(path[j - 1], path[j]));
        assert(rev[i] == path[j] && rev[i + 1] == path[j - 1]);
    }
    assert(reach_path(b, t, s, rev));
}

/// Reachability is transitive: paths concatenate.
pub proof fn lemma_reachable_trans(b: &Board, s: (usize, usize), t: (usize, usize), u: (usize, usize))
    requires
        reachable(b, s, t),
        reachable(b, t, u),
    ensures
        reachable(b, s, u),
{
    let p1 = choose|p: Seq<(usize, usize)>| reach_path(b, s, t, p);
    let p2 = choose|p: Seq<(usize, usize)>| reach_path(b, t, u, p);
    let joined = p1 + p2.drop_first();
    assert(b.pos_cell(t) == b.pos_cell(s));
    assert(joined.len() == p1.len() + p2.len() - 1);
    assert(joined[joined.len() - 1] == if p2.len() == 1 {
        p1[p1.len() - 1]
    } else {
        p2[p2.len() - 1]
    });
    assert forall|i: int|
        0 <= i < joined.len() implies b.pos_in_bounds(#[trigger] joined[i]) && b.pos_cell(joined[i])
        == b.pos_cell(s) by {
        if i < p1.len() {
            assert(joined[i] == p1[i]);
        } else {
            assert(joined[i] == p2[i - p1.len() + 1]);
        }
    }
    assert forall|i: int| 0 <= i < joined.len() - 1 implies adjacent(
        #[trigger] joined[i],
        joined[i + 1],
    ) by {
        if i + 1 < p1.len() {
            assert(joined[i] == p1[i] && joined[i + 1] == p1[i + 1]);
        } else if i + 1 == p1.len() {
            assert(joined[i] == p1[p1.len() - 1] && p1[p1.len() - 1] == p2[0]);
            if p2.len() > 1 {
                assert(joined[i + 1] == p2[1]);
                assert(adjacent(p2[0], p2[1]));
            }
        } else {
            assert(joined[i] == p2[i - p1.len() + 1] && joined[i + 1] == p2[i - p1.len() + 2]);
            assert(adjacent(p2[i - p1.len() + 1], p2[i - p1.len() + 2]));
        }
    }
    assert(reach_path(b, s, u, joined));
}

/// Any collection that contains `s` and is closed under same-colored
/// adjacency contains the endpoint of every same-colored path from `s`.
proof fn lemma_closed_contains_path(
    b: &Board,
    s: (usize, usize),
    t: (usize, usize),
    path: Seq<(usize, usize)>,
    r: Seq<(usize, usize)>,
)
    requires
        reach_path(b, s, t, path),
        r.contains(s),
        forall|p: (usize, usize), q: (usize, usize)|
            #![trigger r.contains(p), adjacent(p, q)]
            r.contains(p) && adjacent(p, q) && b.pos_in_bounds(q) && b.pos_cell(q) == b.pos_cell(s)
                ==> r.contains(q),
    ensures
        r.contains(t),
    decreases path.len(),
{
    if path.len() == 1 {
        assert(t == s);
    } else {
        let shorter = path.take(path.len() - 1);
        let prev = path[path.len() - 2];
        assert(reach_path(b, s, prev, shorter)) by {
            assert(forall|i: int| 0 <= i < shorter.len() ==> shorter[i] == #[trigger] path[i]);
        }
        lemma_closed_contains_path(b, s, prev, shorter, r);
        assert(adjacent(prev, t));
        assert(b.pos_in_bounds(t) && b.pos_cell(t) == b.pos_cell(s));
    }
}

/// Appending a fresh element keeps a sequence duplicate-free.
proof fn lemma_push_keeps_no_duplicates(s: Seq<(usize, usize)>, x: (usize, usize))
    requires
        s.no_duplicates(),
        !s.contains(x),
    ensures
        s.push(x).no_duplicates(),
{
    let longer = s.push(x);
    assert forall|i: int, j: int|
        0 <= i < longer.len() && 0 <= j < longer.len() && i != j implies longer[i] != longer[j] by {
        if i < s.len() && j < s.len() {
            assert(longer[i] == s[i] && longer[j] == s[j]);
        } else if i < s.len() {
            assert(longer[i] == s[i] && longer[j] == x);
            assert(s.contains(s[i]));
        } else {
            assert(longer[i] == x && longer[j] == s[j]);
            assert(s.contains(s[j]));
        }
    }
}

/// The connected group of `p` holds at least four cells: there are four
/// pairwise distinct cells reachable from `p`.
pub open spec fn has_big_group(b: &Board, p: (usize, usize)) -> bool {
    exists|g1: (usize, usize), g2: (usize, usize), g3: (usize, usize), g4: (usize, usize)|
        #![trigger reachable(b, p, g1), reachable(b, p, g2), reachable(b, p, g3), reachable(b, p, g4)]
        g1 != g2 && g1 != g3 && g1 != g4 && g2 != g3 && g2 != g4 && g3 != g4 && reachable(b, p, g1)
            && reachable(b, p, g2) && reachable(b, p, g3) && reachable(b, p, g4)
}

/// The endpoint of a reachability fact is an in-bounds cell of the start's
/// filled color.
pub proof fn lemma_reachable_bounds(b: &Board, s: (usize, usize), t: (usize, usize))
    requires
        reachable(b, s, t),
    ensures
        b.pos_in_bounds(s),
        b.pos_in_bounds(t),
        is_filled(b.pos_cell(s)),
        b.pos_cell(t) == b.pos_cell(s),
    decreases 0int,
{
    let path = choose|path: Seq<(usize, usize)>| reach_path(b, s, t, path);
    assert(path[path.len() - 1] == t);
}

/// Every member of a group of at least four distinct cells itself has a
/// big group.
proof fn lemma_big_group_member(b: &Board, s: (usize, usize), comp: Seq<(usize, usize)>, q: (usize, usize))
    requires
        comp.no_duplicates(),
        comp.len() >= 4,
        forall|t: (usize, usize)| #[trigger] comp.contains(t) <==> reachable(b, s, t),
        reachable(b, s, q),
    ensures
        has_big_group(b, q),
{
    lemma_reachable_sym(b, s, q);
    assert(comp.contains(comp[0]) && comp.contains(comp[1]) && comp.contains(comp[2])
        && comp.contains(comp[3]));
    lemma_reachable_trans(b, q, s, comp[0]);
    lemma_reachable_trans(b, q, s, comp[1]);
    lemma_reachable_trans(b, q, s, comp[2]);
    lemma_reachable_trans(b, q, s, comp[3]);
}

/// If some member of a group has a big group, the group itself holds at
/// least four cells.
proof fn lemma_member_big_group(b: &Board, s: (usize, usize), comp: Seq<(usize, usize)>, q: (usize, usize))
    requires
        forall|t: (usize, usize)| #[trigger] comp.contains(t) <==> reachable(b, s, t),
        reachable(b, s, q),
        has_big_group(b, q),
    ensures
        comp.len() >= 4,
{
    let (g1, g2, g3, g4) = choose|g1: (usize, usize), g2: (usize, usize), g3: (usize, usize), g4: (usize, usize)|
        g1 != g2 && g1 != g3 && g1 != g4 && g2 != g3 && g2 != g4 && g3 != g4 && reachable(b, q, g1)
            && reachable(b, q, g2) && reachable(b, q, g3) && reachable(b, q, g4);
    lemma_reachable_trans(b, s, q, g1);
    lemma_reachable_trans(b, s, q, g2);
    lemma_reachable_trans(b, s, q, g3);
    lemma_reachable_trans(b, s, q, g4);
    assert(comp.contains(g1) && comp.contains(g2) && comp.contains(g3) && comp.contains(g4));
    let k1 = choose|k: int| 0 <= k < comp.len() && comp[k] == g1;
    let k2 = choose|k: int| 0 <= k < comp.len() && comp[k] == g2;
    let k3 = choose|k: int| 0 <= k < comp.len() && comp[k] == g3;
    let k4 = choose|k: int| 0 <= k < comp.len() && comp[k] == g4;
    assert(k1 != k2 && k1 != k3 && k1 != k4 && k2 != k3 && k2 != k4 && k3 != k4);
}

/// How many entries of a row of flags are set.
pub open spec fn count_row(s: Seq<bool>) -> int
    decreases s.len(),
{
    if s.len() == 0 {
        0
    } else {
        (if s[0] {
            1int
        } else {
            0int
        }) + count_row(s.drop_first())
    }
}

/// How many entries of a grid of flags are set.
pub open spec fn count_grid(g: Seq<Seq<bool>>) -> int
    decreases g.len(),
{
    if g.len() == 0 {
        0
    } else {
        count_row(g[0]) + count_grid(g.drop_first())
    }
}

proof fn lemma_count_row_le(s: Seq<bool>)
    ensures
        0 <= count_row(s) <= s.len(),
    decreases s.len(),
{
    if s.len() > 0 {
        lemma_count_row_le(s.drop_first());
    }
}

proof fn lemma_count_row_lt(s: Seq<bool>, j: int)
    requires
        0 <= j < s.len(),
        !s[j],
    ensures
        0 <= count_row(s) < s.len(),
    decreases s.len(),
{
    lemma_count_row_le(s.drop_first());
    if j == 0 {
    } else {
        lemma_count_row_lt(s.drop_first(), j - 1);
    }
}

proof fn lemma_count_grid_le(g: Seq<Seq<bool>>, rows: int)
    requires
        forall|i: int| 0 <= i < g.len() ==> (#[trigger] g[i]).len() == rows,
    ensures
        0 <= count_grid(g) <= g.len() * rows,
    decreases g.len(),
{
    if g.len() == 0 {
    } else {
        lemma_count_row_le(g[0]);
        lemma_count_grid_le(g.drop_first(), rows);
        assert(g.len() * rows == rows + (g.len() - 1) * rows) by (nonlinear_arith);
    }
}

proof fn lemma_count_grid_lt(g: Seq<Seq<bool>>, rows: int, i: int, j: int)
    requires
        forall|a: int| 0 <= a < g.len() ==> (#[trigger] g[a]).len() == rows,
        0 <= i < g.len(),
        0 <= j < rows,
        !g[i][j],
    ensures
        0 <= count_grid(g) < g.len() * rows,
    decreases g.len(),
{
    if i == 0 {
        lemma_count_row_lt(g[0], j);
        lemma_count_grid_le(g.drop_first(), rows);
    } else {
        lemma_count_row_le(g[0]);
        lemma_count_grid_lt(g.drop_first(), rows, i - 1, j);
    }
    assert(g.len() * rows == rows + (g.len() - 1) * rows) by (nonlinear_arith);
}

/// Updating one row changes the grid count by the row count difference.
proof fn lemma_count_grid_update(g: Seq<Seq<bool>>, i: int, c: Seq<bool>)
    requires
        0 <= i < g.len(),
    ensures
        count_grid(g.update(i, c)) == count_grid(g) - count_row(g[i]) + count_row(c),
    decreases g.len(),
{
    let u = g.update(i, c);
    if i == 0 {
        assert(u.drop_first() =~= g.drop_first());
        assert(u[0] == c);
    } else {
        assert(u[0] == g[0]);
        assert(u.drop_first() =~= g.drop_first().update(i - 1, c));
        lemma_count_grid_update(g.drop_first(), i - 1, c);
    }
}

/// Setting one flag raises the row count by one when it was clear.
proof fn lemma_count_row_update(s: Seq<bool>, j: int)
    requires
        0 <= j < s.len(),
        !s[j],
    ensures
        count_row(s.update(j, true)) == count_row(s) + 1,
    decreases s.len(),
{
    let u = s.update(j, true);
    if j == 0 {
        assert(u.drop_first() =~= s.drop_first());
        assert(u[0]);
    } else {
        assert(u[0] == s[0]);
        assert(u.drop_first() =~= s.drop_first().update(j - 1, true));
        lemma_count_row_update(s.drop_first(), j - 1);
    }
}

/// A grid of cleared flags counts zero.
proof fn lemma_count_grid_zero(g: Seq<Seq<bool>>)
    requires
        forall|i: int, j: int|
            #![trigger g[i][j]]
            0 <= i < g.len() && 0 <= j < g[i].len() ==> !g[i][j],
    ensures
        count_grid(g) == 0,
    decreases g.len(),
{
    if g.len() > 0 {
        lemma_count_row_all_false(g[0]);
        lemma_count_grid_zero(g.drop_first());
    }
}

proof fn lemma_count_row_all_false(s: Seq<bool>)
    requires
        forall|j: int| 0 <= j < s.len() ==> !(#[trigger] s[j]),
    ensures
        count_row(s) == 0,
    decreases s.len(),
{
    if s.len() > 0 {
        lemma_count_row_all_false(s.drop_first());
    }
}

/// The flag grid of the visited mask.
pub open spec fn bool_grid(v: &Vec<Vec<bool>>) -> Seq<Seq<bool>> {
    Seq::new(v@.len() as nat, |i: int| v@[i]@)
}

/// One of the four puyo colors. Colors are opaque tags: the rules only
/// ever compare them for equality.
#[derive(Debug, Clone, Copy, PartialEq, Eq, Structural)]
pub enum PuyoColor {
    Red,
    Blue,
    Green,
    Yellow,
}

/// A grid cell: empty, or holding a puyo of one color.
#[derive(Debug, Clone, Copy, PartialEq, Eq, Structural)]
pub enum Cell {
    Empty,
    Filled(PuyoColor),
}

/// The playfield. `cells[x][y]` is the cell in column `x`, row `y`;
/// row numbers grow downward, so row `rows - 1` is the floor.
pub struct Board {
    cols: usize,
    rows: usize,
    cells: Vec<Vec<Cell>>,
}

impl Board {
    /// The grid contents as a sequence of columns, each a sequence of cells.
    pub closed spec fn grid(&self) -> Seq<Seq<Cell>> {
        Seq::new(self.cells@.len() as nat, |x: int| self.cells@[x]@)
    }

    /// Number of columns.
    pub closed spec fn spec_cols(&self) -> int {
        self.cols as int
    }

    /// Number of rows.
    pub closed spec fn spec_rows(&self) -> int {
        self.rows as int
    }

    /// The board is a rectangle of `cols x rows` defined cells, with
    /// dimensions small enough to convert to `i32` and to count cells
    /// without overflow.
    pub open spec fn wf(&self) -> bool {
        &&& self.grid().len() == self.spec_cols()
        &&& forall|x: int|
            0 <= x < self.grid().len() ==> (#[trigger] self.grid()[x]).len() == self.spec_rows()
        &&& 0 <= self.spec_cols() < 0x8000_0000
        &&& 0 <= self.spec_rows() < 0x8000_0000
    }

    /// Whether `(x, y)` names a cell of the board.
    pub open spec fn in_bounds(&self, x: int, y: int) -> bool {
        0 <= x < self.spec_cols() && 0 <= y < self.spec_rows()
    }

    /// The cell at `(x, y)`; meaningful only in bounds.
    pub open spec fn cell_at(&self, x: int, y: int) -> Cell {
        self.grid()[x][y]
    }

    /// Whether a position pair names a cell of the board.
    pub open spec fn pos_in_bounds(&self, p: (usize, usize)) -> bool {
        self.in_bounds(p.0 as int, p.1 as int)
    }

    /// The cell at a position pair.
    pub open spec fn pos_cell(&self, p: (usize, usize)) -> Cell {
        self.cell_at(p.0 as int, p.1 as int)
    }

    /// A fresh board of the given dimensions, entirely empty.
    pub fn new(cols: usize, rows: usize) -> (b: Board)
        requires
            cols < 0x8000_0000,
            rows < 0x8000_0000,
        ensures
            b.wf(),
            b.spec_cols() == cols,
            b.spec_rows() == rows,
            forall|x: int, y: int| b.in_bounds(x, y) ==> b.cell_at(x, y) == Cell::Empty,
    {
        let mut cells: Vec<Vec<Cell>> = Vec::new();
        let mut x: usize = 0;
        while x < cols
            invariant
                x <= cols,
                cells@.len() == x,
                forall|i: int| 0 <= i < x ==> (#[trigger] cells@[i]@).len() == rows,
                forall|i: int, j: int|
                    0 <= i < x && 0 <= j < rows ==> #[trigger] cells@[i]@[j] == Cell::Empty,
            decreases cols - x,
        {
            let column: Vec<Cell> = vec![Cell::Empty; rows];
            cells.push(column);
            x = x + 1;
        }
        Board { cols, rows, cells }
    }

    /// Number of columns.
    pub fn cols(&self) -> (r: usize)
        ensures
            r as int == self.spec_cols(),
    {
        self.cols
    }

    /// Number of rows.
    pub fn rows(&self) -> (r: usize)
        ensures
            r as int == self.spec_rows(),
    {
        self.rows
    }

    /// The cell at `(x, y)`, or `None` when the coordinate is out of bounds.
    pub fn get_cell(&self, x: usize, y: usize) -> (r: Option<Cell>)
        requires
            self.wf(),
        ensures
            r == (if self.in_bounds(x as int, y as int) {
                Some(self.cell_at(x as int, y as int))
            } else {
                None::<Cell>
            }),
    {
        if x < self.cols && y < self.rows {
            Some(self.cells[x][y])
        } else {
            None
        }
    }

    /// Writes `cell` at `(x, y)`; a no-op when the coordinate is out of bounds.
    pub fn set_cell(&mut self, x: usize, y: usize, cell: Cell)
        requires
            old(self).wf(),
        ensures
            final(self).wf(),
            final(self).spec_cols() == old(self).spec_cols(),
            final(self).spec_rows() == old(self).spec_rows(),
            old(self).in_bounds(x as int, y as int) ==> forall|i: int, j: int|
                final(self).in_bounds(i, j) ==> final(self).cell_at(i, j) == (if i == x as int
                    && j == y as int {
                    cell
                } else {
                    old(self).cell_at(i, j)
                }),
            !old(self).in_bounds(x as int, y as int) ==> *final(self) == *old(self),
    {
        if x < self.cols && y < self.rows {
            assert(self.grid()[x as int] == self.cells@[x as int]@);
            self.cells[x][y] = cell;
            assert(self.grid() =~= old(self).grid().update(
                x as int,
                old(self).grid()[x as int].update(y as int, cell),
            ));
        }
    }

    /// The cells of column `x`, top to bottom.
    pub open spec fn column(&self, x: int) -> Seq<Cell> {
        self.grid()[x]
    }

    /// Compacts the filled cells of column `x` downward, preserving their
    /// top-to-bottom order, and reports whether any cell moved.
    fn apply_gravity_to_column(&mut self, x: usize) -> (r: bool)
        requires
            old(self).wf(),
            0 <= x < old(self).spec_cols(),
        ensures
            final(self).wf(),
            final(self).spec_cols() == old(self).spec_cols(),
            final(self).spec_rows() == old(self).spec_rows(),
            forall|i: int|
                0 <= i < old(self).spec_cols() && i != x ==> #[trigger] final(self).column(i)
                    == old(self).column(i),
            final(self).column(x as int) == compacted(old(self).column(x as int)),
            r == (final(self).column(x as int) != old(self).column(x as int)),
    {
        let ghost orig = self.column(x as int);
        let rows = self.rows;
        assert(self.grid()[x as int] == self.cells@[x as int]@);

        // First pass: gather the column's filled cells, top to bottom.
        let mut stack: Vec<Cell> = Vec::new();
        let mut y: usize = 0;
        while y < rows
            invariant
                self.wf(),
                rows == self.spec_rows(),
                0 <= x < self.spec_cols(),
                y <= rows,
                orig.len() == rows,
                orig == self.column(x as int),
                self.cells@[x as int]@ == orig,
                stack@ == filled_cells(orig.take(y as int)),
                stack@.len() <= y,
            decreases rows - y,
        {
            let cell = self.cells[x][y];
            proof {
                assert(orig.take(y as int + 1) =~= orig.take(y as int).push(orig[y as int]));
                lemma_filled_cells_push(orig.take(y as int), orig[y as int]);
            }
            if let Cell::Filled(_) = cell {
                stack.push(cell);
            }
            y = y + 1;
        }
        proof {
            assert(orig.take(rows as int) =~= orig);
        }
        let k = stack.len();

        // Second pass: empty cells above, the gathered cells at the bottom.
        let mut has_fallen = false;
        let mut y: usize = 0;
        while y < rows
            invariant
                self.wf(),
                self.spec_cols() == old(self).spec_cols(),
                self.spec_rows() == old(self).spec_rows(),
                rows == self.spec_rows(),
                0 <= x < self.spec_cols(),
                y <= rows,
                orig.len() == rows,
                self.column(x as int).len() == rows,
                k == filled_cells(orig).len(),
                k <= rows,
                stack@ == filled_cells(orig),
                orig == old(self).column(x as int),
                forall|i: int|
                    0 <= i < self.spec_cols() && i != x ==> #[trigger] self.grid()[i] == old(
                        self,
                    ).grid()[i],
                forall|j: int|
                    0 <= j < y ==> #[trigger] self.column(x as int)[j] == compacted(orig)[j],
                forall|j: int| y <= j < rows ==> #[trigger] self.column(x as int)[j] == orig[j],
                has_fallen == exists|j: int| 0 <= j < y && #[trigger] compacted(orig)[j] != orig[j],
            decreases rows - y,
        {
            let v = if y < rows - k {
                Cell::Empty
            } else {
                stack[y - (rows - k)]
            };
            assert(v == compacted(orig)[y as int]);
            assert(self.grid()[x as int] == self.cells@[x as int]@);
            let cur = self.cells[x][y];
            if cur != v {
                has_fallen = true;
                assert(compacted(orig)[y as int] != orig[y as int]);
            }
            let ghost before = self.grid();
            self.cells[x][y] = v;
            proof {
                assert(forall|i: int|
                    0 <= i < self.grid().len() && i != x ==> #[trigger] self.grid()[i]
                        == before[i]);
                assert(self.column(x as int) =~= before[x as int].update(y as int, v));
            }
            y = y + 1;
        }
        proof {
            assert(self.column(x as int) =~= compacted(orig));
            if !has_fallen {
                assert(self.column(x as int) =~= orig);
            }
            assert forall|i: int| 0 <= i < old(self).spec_cols() && i != x implies self.column(i)
                == old(self).column(i) by {
                assert(self.grid()[i] == old(self).grid()[i]);
            }
        }
        has_fallen
    }

    /// Applies gravity to every column independently; reports whether any
    /// cell of the board moved.
    pub fn apply_gravity(&mut self) -> (r: bool)
        requires
            old(self).wf(),
        ensures
            final(self).wf(),
            final(self).spec_cols() == old(self).spec_cols(),
            final(self).spec_rows() == old(self).spec_rows(),
            forall|x: int|
                0 <= x < old(self).spec_cols() ==> #[trigger] final(self).column(x) == compacted(
                    old(self).column(x),
                ),
            r == exists|x: int|
                0 <= x < old(self).spec_cols() && #[trigger] compacted(old(self).column(x)) != old(
                    self,
                ).column(x),
    {
        let mut has_fallen = false;
        let mut x: usize = 0;
        while x < self.cols
            invariant
                self.wf(),
                self.spec_cols() == old(self).spec_cols(),
                self.spec_rows() == old(self).spec_rows(),
                x <= self.spec_cols(),
                forall|i: int|
                    0 <= i < x ==> #[trigger] self.column(i) == compacted(old(self).column(i)),
                forall|i: int|
                    x <= i < self.spec_cols() ==> #[trigger] self.column(i) == old(self).column(i),
                has_fallen == exists|i: int|
                    0 <= i < x && #[trigger] compacted(old(self).column(i)) != old(self).column(i),
            decreases self.spec_cols() - x,
        {
            if self.apply_gravity_to_column(x) {
                has_fallen = true;
            }
            x = x + 1;
        }
        has_fallen
    }

    /// The shared bookkeeping state of a connected-group search is sound:
    /// the visited mask mirrors membership in `result`, every collected
    /// position is an in-bounds cell of the start's color and reachable from
    /// the start, nothing is collected twice, and the pending stack holds
    /// collected positions only.
    pub open spec fn search_inv(
        &self,
        start: (usize, usize),
        c: PuyoColor,
        visited: &Vec<Vec<bool>>,
        stack: &Vec<(usize, usize)>,
        result: &Vec<(usize, usize)>,
    ) -> bool {
        &&& self.wf()
        &&& self.pos_in_bounds(start)
        &&& self.pos_cell(start) == Cell::Filled(c)
        &&& visited@.len() == self.spec_cols()
        &&& forall|i: int|
            0 <= i < visited@.len() ==> (#[trigger] visited@[i]@).len() == self.spec_rows()
        &&& forall|i: int, j: int|
            0 <= i < self.spec_cols() && 0 <= j < self.spec_rows() ==> #[trigger] visited@[i]@[j]
                == result@.contains((i as usize, j as usize))
        &&& forall|k: int|
            0 <= k < result@.len() ==> self.pos_in_bounds(#[trigger] result@[k]) && self.pos_cell(
                result@[k],
            ) == Cell::Filled(c) && reachable(self, start, result@[k])
        &&& result@.no_duplicates()
        &&& stack@.no_duplicates()
        &&& forall|k: int| 0 <= k < stack@.len() ==> result@.contains(#[trigger] stack@[k])
        &&& result@.len() == count_grid(bool_grid(visited))
        &&& result@.len() <= self.spec_cols() * self.spec_rows()
    }

    /// Visits one neighbor `(nx, ny)` of an already collected cell during a
    /// connected-group search: if it is unvisited and holds the start's
    /// color, it is marked, collected, and scheduled.
    fn visit_neighbor(
        &self,
        c: PuyoColor,
        nx: usize,
        ny: usize,
        visited: &mut Vec<Vec<bool>>,
        stack: &mut Vec<(usize, usize)>,
        result: &mut Vec<(usize, usize)>,
        Ghost(start): Ghost<(usize, usize)>,
        Ghost(from): Ghost<(usize, usize)>,
    )
        requires
            self.search_inv(start, c, old(visited), old(stack), old(result)),
            nx < self.spec_cols(),
            ny < self.spec_rows(),
            old(result)@.contains(from),
            adjacent(from, (nx, ny)),
        ensures
            self.search_inv(start, c, final(visited), final(stack), final(result)),
            self.pos_cell((nx, ny)) == Cell::Filled(c) ==> final(result)@.contains((nx, ny)),
            forall|q: (usize, usize)|
                old(result)@.contains(q) ==> final(result)@.contains(q),
            forall|q: (usize, usize)| old(stack)@.contains(q) ==> final(stack)@.contains(q),
            forall|q: (usize, usize)|
                final(result)@.contains(q) && !old(result)@.contains(q)
                    ==> final(stack)@.contains(q),
            if !old(visited)@[nx as int]@[ny as int] && self.pos_cell((nx, ny)) == Cell::Filled(c) {
                &&& final(result)@ == old(result)@.push((nx, ny))
                &&& final(stack)@ == old(stack)@.push((nx, ny))
            } else {
                &&& final(result)@ == old(result)@
                &&& final(stack)@ == old(stack)@
                &&& final(visited)@ == old(visited)@
            },
    {
        let p = (nx, ny);
        if visited[nx][ny] {
            return;
        }
        if let Cell::Filled(cc) = self.cells[nx][ny] {
            assert(self.pos_cell(p) == Cell::Filled(cc)) by {
                assert(self.grid()[nx as int] == self.cells@[nx as int]@);
            }
            if cc == c {
                proof {
                    assert(!result@.contains(p));
                    lemma_reachable_step(self, start, from, p);
                    lemma_push_keeps_no_duplicates(result@, p);
                    lemma_push_keeps_no_duplicates(stack@, p);
                    lemma_count_grid_update(
                        bool_grid(visited),
                        nx as int,
                        bool_grid(visited)[nx as int].update(ny as int, true),
                    );
                    lemma_count_row_update(bool_grid(visited)[nx as int], ny as int);
                    lemma_count_grid_lt(
                        bool_grid(visited),
                        self.spec_rows(),
                        nx as int,
                        ny as int,
                    );
                }
                let ghost before = bool_grid(visited);
                visited[nx][ny] = true;
                proof {
                    assert(bool_grid(visited) =~= before.update(
                        nx as int,
                        before[nx as int].update(ny as int, true),
                    )) by {
                        assert(forall|i: int|
                            0 <= i < visited@.len() && i != nx ==> #[trigger] visited@[i]@
                                == before[i]);
                        assert(visited@[nx as int]@ =~= before[nx as int].update(ny as int, true));
                    }
                }
                stack.push(p);
                result.push(p);
                proof {
                    assert forall|i: int, j: int|
                        0 <= i < self.spec_cols() && 0 <= j < self.spec_rows() implies #[trigger]
                    visited@[i]@[j] == result@.contains((i as usize, j as usize)) by {
                        let q = (i as usize, j as usize);
                        if i == nx && j == ny {
                            assert(result@[result@.len() - 1] == p);
                            assert(result@.contains(p));
                        } else {
                            assert(q != p);
                            assert(old(visited)@[i]@[j] == old(result)@.contains(q));
                            assert(result@.contains(q) == old(result)@.contains(q)) by {
                                if old(result)@.contains(q) {
                                    let k = choose|k: int|
                                        0 <= k < old(result)@.len() && old(result)@[k] == q;
                                    assert(result@[k] == q);
                                } else if result@.contains(q) {
                                    let k = choose|k: int|
                                        0 <= k < result@.len() && result@[k] == q;
                                    assert(k < old(result)@.len());
                                }
                            }
                        }
                    }
                    assert(forall|k: int|
                        0 <= k < stack@.len() ==> result@.contains(#[trigger] stack@[k])) by {
                        assert(forall|k: int|
                            0 <= k < old(stack)@.len() ==> old(result)@.contains(
                                #[trigger] old(stack)@[k],
                            ));
                        assert(forall|q: (usize, usize)|
                            old(result)@.contains(q) ==> result@.contains(q)) by {
                            assert forall|q: (usize, usize)|
                                old(result)@.contains(q) implies result@.contains(q) by {
                                let k = choose|k: int|
                                    0 <= k < old(result)@.len() && old(result)@[k] == q;
                                assert(result@[k] == q);
                            }
                        }
                        assert(result@[result@.len() - 1] == p);
                    }
                }
            }
        }
        proof {
            assert forall|q: (usize, usize)|
                old(result)@.contains(q) implies result@.contains(q) by {
                let k = choose|k: int| 0 <= k < old(result)@.len() && old(result)@[k] == q;
                assert(result@[k] == q);
            }
            assert forall|q: (usize, usize)|
                old(stack)@.contains(q) implies stack@.contains(q) by {
                let k = choose|k: int| 0 <= k < old(stack)@.len() && old(stack)@[k] == q;
                assert(stack@[k] == q);
            }
            assert forall|q: (usize, usize)|
                result@.contains(q) && !old(result)@.contains(q) implies stack@.contains(q) by {
                let k = choose|k: int| 0 <= k < result@.len() && result@[k] == q;
                if k < old(result)@.len() {
                    assert(old(result)@[k] == q);
                } else {
                    assert(q == (nx, ny));
                    assert(stack@[stack@.len() - 1] == (nx, ny));
                }
            }
        }
    }

    /// The connected same-color group of the cell at `(start_x, start_y)`:
    /// every cell reachable from it through orthogonally adjacent cells of
    /// the same color, each listed exactly once. The result is empty when
    /// the start cell is out of bounds or empty.
    #[verifier::rlimit(50)]
    pub fn find_connected(&self, start_x: usize, start_y: usize) -> (r: Vec<(usize, usize)>)
        requires
            self.wf(),
        ensures
            r@.no_duplicates(),
            forall|t: (usize, usize)|
                #[trigger] r@.contains(t) <==> reachable(self, (start_x, start_y), t),
            forall|t: (usize, usize)|
                #[trigger] r@.contains(t) ==> self.pos_in_bounds(t) && self.pos_cell(t)
                    == self.pos_cell((start_x, start_y)),
    {
        let ghost start = (start_x, start_y);
        if start_x >= self.cols || start_y >= self.rows {
            let r: Vec<(usize, usize)> = Vec::new();
            proof {
                assert forall|t: (usize, usize)| !reachable(self, start, t) by {
                    assert(!self.pos_in_bounds(start));
                }
                assert(forall|t: (usize, usize)| !r@.contains(t));
            }
            return r;
        }
        let c: PuyoColor = match self.cells[start_x][start_y] {
            Cell::Filled(color) => color,
            Cell::Empty => {
                let r: Vec<(usize, usize)> = Vec::new();
                proof {
                    assert(self.grid()[start_x as int] == self.cells@[start_x as int]@);
                    assert forall|t: (usize, usize)| !reachable(self, start, t) by {
                        assert(!is_filled(self.pos_cell(start)));
                    }
                    assert(forall|t: (usize, usize)| !r@.contains(t));
                }
                return r;
            },
        };
        assert(self.pos_cell(start) == Cell::Filled(c)) by {
            assert(self.grid()[start_x as int] == self.cells@[start_x as int]@);
        }

        let cols = self.cols;
        let rows = self.rows;
        let mut visited: Vec<Vec<bool>> = Vec::new();
        let mut i: usize = 0;
        while i < cols
            invariant
                i <= cols,
                visited@.len() == i,
                forall|a: int| 0 <= a < i ==> (#[trigger] visited@[a]@).len() == rows,
                forall|a: int, b: int|
                    0 <= a < i && 0 <= b < rows ==> !(#[trigger] visited@[a]@[b]),
            decreases cols - i,
        {
            let column: Vec<bool> = vec![false; rows];
            visited.push(column);
            i = i + 1;
        }

        let mut result: Vec<(usize, usize)> = Vec::new();
        let mut stack: Vec<(usize, usize)> = Vec::new();
        proof {
            lemma_count_grid_zero(bool_grid(&visited));
            lemma_reachable_refl(self, start);
        }
        visited[start_x][start_y] = true;
        proof {
            let ghost fresh = Seq::new(cols as nat, |a: int| Seq::new(rows as nat, |b: int| false));
            assert(bool_grid(&visited) =~= fresh.update(
                start_x as int,
                fresh[start_x as int].update(start_y as int, true),
            )) by {
                assert(forall|a: int|
                    0 <= a < cols && a != start_x ==> #[trigger] visited@[a]@ =~= fresh[a]);
                assert(visited@[start_x as int]@ =~= fresh[start_x as int].update(
                    start_y as int,
                    true,
                ));
            }
            lemma_count_grid_zero(fresh);
            lemma_count_grid_update(
                fresh,
                start_x as int,
                fresh[start_x as int].update(start_y as int, true),
            );
            lemma_count_row_update(fresh[start_x as int], start_y as int);
            lemma_count_grid_le(bool_grid(&visited), rows as int);
            assert(count_grid(bool_grid(&visited)) == 1);
        }
        result.push((start_x, start_y));
        stack.push((start_x, start_y));
        assert(result@[0] == start && result@.contains(start));
        assert(self.search_inv(start, c, &visited, &stack, &result)) by {
            assert(forall|i2: int, j2: int|
                0 <= i2 < cols && 0 <= j2 < rows ==> #[trigger] visited@[i2]@[j2] == ((
                i2 as usize,
                j2 as usize,
            ) == start));
            assert forall|i2: int, j2: int|
                0 <= i2 < cols && 0 <= j2 < rows implies #[trigger] visited@[i2]@[j2]
                == result@.contains((i2 as usize, j2 as usize)) by {
                let q = (i2 as usize, j2 as usize);
                if q == start {
                    assert(result@.contains(q));
                } else {
                    if result@.contains(q) {
                        let k = choose|k: int| 0 <= k < result@.len() && result@[k] == q;
                        assert(result@[k] == start);
                    }
                }
            }
        }

        while stack.len() > 0
            invariant
                self.search_inv(start, c, &visited, &stack, &result),
                cols == self.spec_cols(),
                rows == self.spec_rows(),
                result@.contains(start),
                forall|p: (usize, usize), q: (usize, usize)|
                    #![trigger result@.contains(p), adjacent(p, q)]
                    result@.contains(p) && !stack@.contains(p) && adjacent(p, q)
                        && self.pos_in_bounds(q) && self.pos_cell(q) == Cell::Filled(c)
                        ==> result@.contains(q),
            decreases 5 * (cols * rows - result@.len()) + stack@.len(),
        {
            let ghost result_at_entry = result@;
            let ghost stack_at_entry = stack@;
            let p = match stack.pop() {
                Some(p) => p,
                None => {
                    return result;
                },
            };
            let (px, py) = p;
            let ghost stack_popped = stack@;
            proof {
                assert(stack_at_entry[stack_at_entry.len() - 1] == p);
                assert(result@.contains(p));
                assert(stack@ =~= stack_at_entry.take(stack_at_entry.len() - 1));
                assert(stack@.no_duplicates());
                assert(!stack@.contains(p)) by {
                    if stack@.contains(p) {
                        let k = choose|k: int| 0 <= k < stack@.len() && stack@[k] == p;
                        assert(stack_at_entry[k] == p);
                    }
                }
                assert(px < cols && py < rows) by {
                    let k = choose|k: int| 0 <= k < result@.len() && result@[k] == p;
                }
            }
            if px + 1 < cols {
                self.visit_neighbor(
                    c,
                    px + 1,
                    py,
                    &mut visited,
                    &mut stack,
                    &mut result,
                    Ghost(start),
                    Ghost(p),
                );
            }
            let ghost r1 = result@;
            let ghost s1 = stack@;
            if px > 0 {
                self.visit_neighbor(
                    c,
                    px - 1,
                    py,
                    &mut visited,
                    &mut stack,
                    &mut result,
                    Ghost(start),
                    Ghost(p),
                );
            }
            let ghost r2 = result@;
            let ghost s2 = stack@;
            if py + 1 < rows {
                self.visit_neighbor(
                    c,
                    px,
                    py + 1,
                    &mut visited,
                    &mut stack,
                    &mut result,
                    Ghost(start),
                    Ghost(p),
                );
            }
            let ghost r3 = result@;
            let ghost s3 = stack@;
            if py > 0 {
                self.visit_neighbor(
                    c,
                    px,
                    py - 1,
                    &mut visited,
                    &mut stack,
                    &mut result,
                    Ghost(start),
                    Ghost(p),
                );
            }
            proof {
                let r4 = result@;
                let s4 = stack@;
                assert(r4.contains(start)) by {
                    let k = choose|k: int|
                        0 <= k < result_at_entry.len() && result_at_entry[k] == start;
                    assert(result_at_entry.contains(start));
                }
                assert forall|p2: (usize, usize), q2: (usize, usize)|
                    #![trigger r4.contains(p2), adjacent(p2, q2)]
                    r4.contains(p2) && !s4.contains(p2) && adjacent(p2, q2) && self.pos_in_bounds(
                    q2,
                ) && self.pos_cell(q2) == Cell::Filled(c) implies r4.contains(q2) by {
                    if p2 == p {
                        if q2.1 == py && q2.0 == px + 1 {
                            assert(q2 == ((px + 1) as usize, py));
                            assert(r1.contains(q2));
                        } else if q2.1 == py && q2.0 + 1 == px {
                            assert(q2 == ((px - 1) as usize, py));
                            assert(r2.contains(q2));
                        } else if q2.0 == px && q2.1 == py + 1 {
                            assert(q2 == (px, (py + 1) as usize));
                            assert(r3.contains(q2));
                        } else {
                            assert(q2.0 == px && q2.1 + 1 == py);
                            assert(q2 == (px, (py - 1) as usize));
                            assert(r4.contains(q2));
                        }
                    } else if result_at_entry.contains(p2) {
                        assert(!stack_popped.contains(p2)) by {
                            if stack_popped.contains(p2) {
                                assert(s4.contains(p2));
                            }
                        }
                        assert(!stack_at_entry.contains(p2)) by {
                            if stack_at_entry.contains(p2) {
                                let k = choose|k: int|
                                    0 <= k < stack_at_entry.len() && stack_at_entry[k] == p2;
                                if k < stack_at_entry.len() - 1 {
                                    assert(stack_popped[k] == p2);
                                    assert(stack_popped.contains(p2));
                                }
                            }
                        }
                        assert(result_at_entry.contains(q2));
                    } else {
                        assert(s4.contains(p2)) by {
                            if !r1.contains(p2) && r2.contains(p2) {
                                assert(s2.contains(p2));
                            } else if !r2.contains(p2) && r3.contains(p2) {
                                assert(s3.contains(p2));
                            } else if !r3.contains(p2) {
                                assert(s4.contains(p2));
                            } else {
                                assert(r1.contains(p2) && s1.contains(p2));
                            }
                        }
                    }
                }
            }
        }
        proof {
            assert forall|t: (usize, usize)|
                #[trigger] result@.contains(t) <==> reachable(self, start, t) by {
                if result@.contains(t) {
                    let k = choose|k: int| 0 <= k < result@.len() && result@[k] == t;
                    assert(reachable(self, start, result@[k]));
                }
                if reachable(self, start, t) {
                    let path = choose|path: Seq<(usize, usize)>| reach_path(self, start, t, path);
                    assert forall|p2: (usize, usize), q2: (usize, usize)|
                        #![trigger result@.contains(p2), adjacent(p2, q2)]
                        result@.contains(p2) && adjacent(p2, q2) && self.pos_in_bounds(q2)
                            && self.pos_cell(q2) == self.pos_cell(start) implies result@.contains(
                        q2,
                    ) by {
                        assert(!stack@.contains(p2));
                    }
                    lemma_closed_contains_path(self, start, t, path, result@);
                }
            }
            assert forall|t: (usize, usize)| #[trigger] result@.contains(t) implies
                self.pos_in_bounds(t) && self.pos_cell(t) == self.pos_cell(start) by {
                lemma_reachable_bounds(self, start, t);
            }
        }
        result
    }

    /// The scan bookkeeping of `check_erase` is sound: `checked` marks whole
    /// groups of filled cells at a time, and a checked cell stands in
    /// `erase` exactly when its group holds at least four cells.
    pub open spec fn scan_inv(&self, checked: &Vec<Vec<bool>>, erase: &Vec<(usize, usize)>) -> bool {
        &&& self.wf()
        &&& checked@.len() == self.spec_cols()
        &&& forall|i: int|
            0 <= i < checked@.len() ==> (#[trigger] checked@[i]@).len() == self.spec_rows()
        &&& erase@.no_duplicates()
        &&& forall|t: (usize, usize)|
            #[trigger] erase@.contains(t) ==> self.pos_in_bounds(t)
                && checked@[t.0 as int]@[t.1 as int]
        &&& forall|i: int, j: int|
            #![trigger checked@[i]@[j]]
            0 <= i < self.spec_cols() && 0 <= j < self.spec_rows() && checked@[i]@[j] ==> {
                &&& is_filled(self.cell_at(i, j))
                &&& (erase@.contains((i as usize, j as usize)) <==> has_big_group(
                    self,
                    (i as usize, j as usize),
                ))
            }
        &&& forall|i: int, j: int, u: (usize, usize)|
            #![trigger checked@[i]@[j], reachable(self, (i as usize, j as usize), u)]
            0 <= i < self.spec_cols() && 0 <= j < self.spec_rows() && checked@[i]@[j] && reachable(
                self,
                (i as usize, j as usize),
                u,
            ) ==> checked@[u.0 as int]@[u.1 as int]
    }

    /// Every erasable cell of the board: a cell stands in the result exactly
    /// when it belongs to a connected same-color group of at least four
    /// cells. Each such cell is listed exactly once.
    #[verifier::rlimit(50)]
    pub fn check_erase(&self) -> (r: Vec<(usize, usize)>)
        requires
            self.wf(),
        ensures
            r@.no_duplicates(),
            forall|t: (usize, usize)| #[trigger] r@.contains(t) <==> has_big_group(self, t),
    {
        let cols = self.cols;
        let rows = self.rows;
        let mut checked: Vec<Vec<bool>> = Vec::new();
        let mut i: usize = 0;
        while i < cols
            invariant
                i <= cols,
                checked@.len() == i,
                forall|a: int| 0 <= a < i ==> (#[trigger] checked@[a]@).len() == rows,
                forall|a: int, b: int|
                    0 <= a < i && 0 <= b < rows ==> !(#[trigger] checked@[a]@[b]),
            decreases cols - i,
        {
            let column: Vec<bool> = vec![false; rows];
            checked.push(column);
            i = i + 1;
        }
        let mut erase: Vec<(usize, usize)> = Vec::new();

        let mut x: usize = 0;
        while x < cols
            invariant
                self.scan_inv(&checked, &erase),
                cols == self.spec_cols(),
                rows == self.spec_rows(),
                x <= cols,
                forall|i2: int, j2: int|
                    #![trigger checked@[i2]@[j2]]
                    0 <= i2 < x && 0 <= j2 < rows && is_filled(self.cell_at(i2, j2))
                        ==> checked@[i2]@[j2],
            decreases cols - x,
        {
            let mut y: usize = 0;
            while y < rows
                invariant
                    self.scan_inv(&checked, &erase),
                    cols == self.spec_cols(),
                    rows == self.spec_rows(),
                    x < cols,
                    y <= rows,
                    forall|i2: int, j2: int|
                        #![trigger checked@[i2]@[j2]]
                        0 <= i2 < x && 0 <= j2 < rows && is_filled(self.cell_at(i2, j2))
                            ==> checked@[i2]@[j2],
                    forall|j2: int|
                        #![trigger checked@[x as int]@[j2]]
                        0 <= j2 < y && is_filled(self.cell_at(x as int, j2))
                            ==> checked@[x as int]@[j2],
                decreases rows - y,
            {
                let already = checked[x][y];
                let cell = self.cells[x][y];
                proof {
                    assert(self.grid()[x as int] == self.cells@[x as int]@);
                }
                if !already {
                    if let Cell::Filled(_) = cell {
                        self.scan_group(x, y, &mut checked, &mut erase);
                    }
                }
                y = y + 1;
            }
            x = x + 1;
        }
        proof {
            assert forall|t: (usize, usize)| #[trigger] erase@.contains(t) <==> has_big_group(
                self,
                t,
            ) by {
                if erase@.contains(t) {
                    assert(checked@[t.0 as int]@[t.1 as int]);
                }
                if has_big_group(self, t) {
                    let (g1, g2, g3, g4) = choose|
                        g1: (usize, usize),
                        g2: (usize, usize),
                        g3: (usize, usize),
                        g4: (usize, usize),
                    |
                        g1 != g2 && g1 != g3 && g1 != g4 && g2 != g3 && g2 != g4 && g3 != g4
                            && reachable(self, t, g1) && reachable(self, t, g2) && reachable(
                            self,
                            t,
                            g3,
                        ) && reachable(self, t, g4);
                    lemma_reachable_bounds(self, t, g1);
                    assert(checked@[t.0 as int]@[t.1 as int]);
                }
            }
        }
        erase
    }

    /// Collects the group of the unchecked filled cell at `(x, y)`: marks
    /// all its members checked, and appends them to `erase` when the group
    /// holds at least four cells.
    #[verifier::rlimit(50)]
    fn scan_group(
        &self,
        x: usize,
        y: usize,
        checked: &mut Vec<Vec<bool>>,
        erase: &mut Vec<(usize, usize)>,
    )
        requires
            self.scan_inv(old(checked), old(erase)),
            x < self.spec_cols(),
            y < self.spec_rows(),
            !old(checked)@[x as int]@[y as int],
            is_filled(self.cell_at(x as int, y as int)),
        ensures
            self.scan_inv(final(checked), final(erase)),
            final(checked)@[x as int]@[y as int],
            forall|i: int, j: int|
                #![trigger final(checked)@[i]@[j]]
                0 <= i < self.spec_cols() && 0 <= j < self.spec_rows()
                    ==> final(checked)@[i]@[j] == (old(checked)@[i]@[j] || reachable(
                    self,
                    (x, y),
                    (i as usize, j as usize),
                )),
    {
        let ghost s = (x, y);
        let comp = self.find_connected(x, y);
        proof {
            lemma_reachable_refl(self, s);
            assert(comp@.contains(s));
            assert forall|k: int| 0 <= k < comp@.len() implies self.pos_in_bounds(
                #[trigger] comp@[k],
            ) && !old(checked)@[comp@[k].0 as int]@[comp@[k].1 as int] by {
                assert(comp@.contains(comp@[k]));
                lemma_reachable_bounds(self, s, comp@[k]);
                if old(checked)@[comp@[k].0 as int]@[comp@[k].1 as int] {
                    lemma_reachable_sym(self, s, comp@[k]);
                    assert(reachable(self, comp@[k], s));
                    assert(old(checked)@[s.0 as int]@[s.1 as int]);
                }
            }
        }

        // Mark every member of the group as checked.
        let mut k: usize = 0;
        while k < comp.len()
            invariant
                self.wf(),
                comp@.no_duplicates(),
                forall|t: (usize, usize)| #[trigger] comp@.contains(t) <==> reachable(self, s, t),
                forall|k2: int|
                    0 <= k2 < comp@.len() ==> self.pos_in_bounds(#[trigger] comp@[k2]),
                k <= comp@.len(),
                checked@.len() == self.spec_cols(),
                forall|i: int|
                    0 <= i < checked@.len() ==> (#[trigger] checked@[i]@).len()
                        == self.spec_rows(),
                forall|i: int, j: int|
                    #![trigger checked@[i]@[j]]
                    0 <= i < self.spec_cols() && 0 <= j < self.spec_rows() ==> checked@[i]@[j] == (
                    old(checked)@[i]@[j] || comp@.take(k as int).contains((i as usize, j as usize))),
            decreases comp@.len() - k,
        {
            let (cx, cy) = comp[k];
            let ghost before = checked@;
            checked[cx][cy] = true;
            proof {
                assert(comp@[k as int] == (cx, cy));
                assert(comp@.take(k as int + 1) =~= comp@.take(k as int).push((cx, cy)));
                assert(forall|i: int|
                    0 <= i < checked@.len() && i != cx ==> #[trigger] checked@[i] == before[i]);
                assert(checked@[cx as int]@ =~= before[cx as int]@.update(cy as int, true));
                assert forall|i: int, j: int|
                    #![trigger checked@[i]@[j]]
                    0 <= i < self.spec_cols() && 0 <= j < self.spec_rows() implies checked@[i]@[j]
                    == (old(checked)@[i]@[j] || comp@.take(k as int + 1).contains(
                    (i as usize, j as usize),
                )) by {
                    let q = (i as usize, j as usize);
                    if i == cx && j == cy {
                        assert(checked@[i]@[j]);
                        assert(comp@.take(k as int + 1)[k as int] == q);
                        assert(comp@.take(k as int + 1).contains(q));
                    } else {
                        assert(checked@[i]@[j] == before[i]@[j]);
                        assert(comp@.take(k as int + 1).contains(q) == comp@.take(
                            k as int,
                        ).contains(q)) by {
                            if comp@.take(k as int).contains(q) {
                                let k3 = choose|k3: int|
                                    0 <= k3 < k && comp@.take(k as int)[k3] == q;
                                assert(comp@.take(k as int + 1)[k3] == q);
                            } else if comp@.take(k as int + 1).contains(q) {
                                let k3 = choose|k3: int|
                                    #![trigger comp@.take(k as int + 1)[k3]]
                                    0 <= k3 < k + 1 && comp@.take(k as int + 1)[k3] == q;
                                assert(k3 < k);
                                assert(comp@.take(k as int)[k3] == q);
                            }
                        }
                    }
                }
            }
            k = k + 1;
        }
        proof {
            assert(comp@.take(comp@.len() as int) =~= comp@);
        }

        // A group of at least four cells is erasable: collect all of it.
        if comp.len() >= 4 {
            let mut k2: usize = 0;
            while k2 < comp.len()
                invariant
                    self.wf(),
                    comp@.no_duplicates(),
                    comp@.len() >= 4,
                    forall|t: (usize, usize)|
                        #[trigger] comp@.contains(t) <==> reachable(self, s, t),
                    k2 <= comp@.len(),
                    erase@ == old(erase)@ + comp@.take(k2 as int),
                    forall|t: (usize, usize)| !(old(erase)@.contains(t) && comp@.contains(t)),
                decreases comp@.len() - k2,
            {
                let q = comp[k2];
                proof {
                    assert(comp@.take(k2 as int + 1) =~= comp@.take(k2 as int).push(
                        comp@[k2 as int],
                    ));
                    assert(erase@ + comp@.take(k2 as int + 1) =~= (erase@ + comp@.take(
                        k2 as int,
                    )).push(comp@[k2 as int]));
                    assert((old(erase)@ + comp@.take(k2 as int + 1)) =~= (old(erase)@ + comp@.take(
                        k2 as int,
                    )).push(comp@[k2 as int]));
                }
                erase.push(q);
                k2 = k2 + 1;
            }
            proof {
                assert(comp@.take(comp@.len() as int) =~= comp@);
            }
        }
        proof {
            self.lemma_scan_group_post(
                s,
                comp@,
                bool_grid(old(checked)),
                bool_grid(checked),
                old(erase)@,
                erase@,
            );
            assert(forall|i: int, j: int|
                0 <= i < self.spec_cols() && 0 <= j < self.spec_rows()
                    ==> #[trigger] checked@[i]@[j] == bool_grid(checked)[i][j]);
            assert(forall|i: int, j: int|
                0 <= i < self.spec_cols() && 0 <= j < self.spec_rows()
                    ==> #[trigger] old(checked)@[i]@[j] == bool_grid(old(checked))[i][j]);
            assert forall|i: int, j: int|
                #![trigger checked@[i]@[j]]
                0 <= i < self.spec_cols() && 0 <= j < self.spec_rows() implies checked@[i]@[j] == (
            old(checked)@[i]@[j] || reachable(self, s, (i as usize, j as usize))) by {
                let q = (i as usize, j as usize);
                assert(checked@[i]@[j] == (old(checked)@[i]@[j] || comp@.contains(q)));
                assert(comp@.contains(q) <==> reachable(self, s, q));
            }
        }
    }

    /// Re-establishes the scan bookkeeping after one whole group has been
    /// marked checked and, when large enough, appended to the erase list.
    proof fn lemma_scan_group_post(
        &self,
        s: (usize, usize),
        comp: Seq<(usize, usize)>,
        checked0: Seq<Seq<bool>>,
        checked1: Seq<Seq<bool>>,
        erase0: Seq<(usize, usize)>,
        erase1: Seq<(usize, usize)>,
    )
        requires
            self.wf(),
            comp.no_duplicates(),
            forall|t: (usize, usize)| #[trigger] comp.contains(t) <==> reachable(self, s, t),
            comp.contains(s),
            checked0.len() == self.spec_cols(),
            forall|i: int| 0 <= i < checked0.len() ==> (#[trigger] checked0[i]).len() == self.spec_rows(),
            checked1.len() == self.spec_cols(),
            forall|i: int| 0 <= i < checked1.len() ==> (#[trigger] checked1[i]).len() == self.spec_rows(),
            erase0.no_duplicates(),
            forall|t: (usize, usize)|
                #[trigger] erase0.contains(t) ==> self.pos_in_bounds(t)
                    && checked0[t.0 as int][t.1 as int],
            forall|i: int, j: int|
                #![trigger checked0[i][j]]
                0 <= i < self.spec_cols() && 0 <= j < self.spec_rows() && checked0[i][j] ==> {
                    &&& is_filled(self.cell_at(i, j))
                    &&& (erase0.contains((i as usize, j as usize)) <==> has_big_group(
                        self,
                        (i as usize, j as usize),
                    ))
                },
            forall|i: int, j: int, u: (usize, usize)|
                #![trigger checked0[i][j], reachable(self, (i as usize, j as usize), u)]
                0 <= i < self.spec_cols() && 0 <= j < self.spec_rows() && checked0[i][j]
                    && reachable(self, (i as usize, j as usize), u)
                    ==> checked0[u.0 as int][u.1 as int],
            forall|t: (usize, usize)| #[trigger] comp.contains(t) ==> !checked0[t.0 as int][t.1 as int],
            forall|i: int, j: int|
                #![trigger checked1[i][j]]
                0 <= i < self.spec_cols() && 0 <= j < self.spec_rows() ==> checked1[i][j] == (
                checked0[i][j] || comp.contains((i as usize, j as usize))),
            erase1 == if comp.len() >= 4 {
                erase0 + comp
            } else {
                erase0
            },
        ensures
            erase1.no_duplicates(),
            forall|t: (usize, usize)|
                #[trigger] erase1.contains(t) ==> self.pos_in_bounds(t)
                    && checked1[t.0 as int][t.1 as int],
            forall|i: int, j: int|
                #![trigger checked1[i][j]]
                0 <= i < self.spec_cols() && 0 <= j < self.spec_rows() && checked1[i][j] ==> {
                    &&& is_filled(self.cell_at(i, j))
                    &&& (erase1.contains((i as usize, j as usize)) <==> has_big_group(
                        self,
                        (i as usize, j as usize),
                    ))
                },
            forall|i: int, j: int, u: (usize, usize)|
                #![trigger checked1[i][j], reachable(self, (i as usize, j as usize), u)]
                0 <= i < self.spec_cols() && 0 <= j < self.spec_rows() && checked1[i][j]
                    && reachable(self, (i as usize, j as usize), u)
                    ==> checked1[u.0 as int][u.1 as int],
    {
        let big = comp.len() >= 4;
        assert forall|t: (usize, usize)| #[trigger] erase1.contains(t) implies (erase0.contains(t)
            || (big && comp.contains(t))) by {
            if big {
                let k = choose|k: int| 0 <= k < erase1.len() && erase1[k] == t;
                if k < erase0.len() {
                    assert(erase0[k] == t);
                } else {
                    assert(comp[k - erase0.len()] == t);
                }
            }
        }
        assert forall|t: (usize, usize)| erase0.contains(t) implies #[trigger] erase1.contains(
            t,
        ) by {
            let k = choose|k: int| 0 <= k < erase0.len() && erase0[k] == t;
            assert(erase1[k] == t);
        }
        if big {
            assert forall|t: (usize, usize)| comp.contains(t) implies #[trigger] erase1.contains(
                t,
            ) by {
                let k = choose|k: int| 0 <= k < comp.len() && comp[k] == t;
                assert(erase1[erase0.len() + k] == t);
            }
            assert(erase1.no_duplicates()) by {
                assert forall|a: int, b: int|
                    0 <= a < erase1.len() && 0 <= b < erase1.len() && a != b implies erase1[a]
                    != erase1[b] by {
                    if a < erase0.len() && b < erase0.len() {
                        assert(erase1[a] == erase0[a] && erase1[b] == erase0[b]);
                    } else if a < erase0.len() {
                        assert(erase1[a] == erase0[a] && erase1[b] == comp[b - erase0.len()]);
                        assert(erase0.contains(erase0[a]));
                        assert(comp.contains(comp[b - erase0.len()]));
                    } else if b < erase0.len() {
                        assert(erase1[a] == comp[a - erase0.len()] && erase1[b] == erase0[b]);
                        assert(erase0.contains(erase0[b]));
                        assert(comp.contains(comp[a - erase0.len()]));
                    } else {
                        assert(erase1[a] == comp[a - erase0.len()] && erase1[b] == comp[b
                            - erase0.len()]);
                    }
                }
            }
        }
        assert forall|t: (usize, usize)| #[trigger] erase1.contains(t) implies self.pos_in_bounds(
            t,
        ) && checked1[t.0 as int][t.1 as int] by {
            if erase0.contains(t) {
            } else {
                assert(big && comp.contains(t));
                lemma_reachable_bounds(self, s, t);
            }
        }
        assert forall|i: int, j: int|
            #![trigger checked1[i][j]]
            0 <= i < self.spec_cols() && 0 <= j < self.spec_rows() && checked1[i][j] implies {
            &&& is_filled(self.cell_at(i, j))
            &&& (erase1.contains((i as usize, j as usize)) <==> has_big_group(
                self,
                (i as usize, j as usize),
            ))
        } by {
            let q = (i as usize, j as usize);
            if checked0[i][j] {
                assert(!comp.contains(q));
                assert(erase1.contains(q) <==> erase0.contains(q)) by {
                    if erase1.contains(q) && !erase0.contains(q) {
                        assert(big && comp.contains(q));
                    }
                }
            } else {
                assert(comp.contains(q));
                assert(reachable(self, s, q));
                lemma_reachable_bounds(self, s, q);
                if big {
                    lemma_big_group_member(self, s, comp, q);
                    assert(erase1.contains(q));
                } else {
                    assert(!erase0.contains(q));
                    assert(!erase1.contains(q));
                    if has_big_group(self, q) {
                        lemma_member_big_group(self, s, comp, q);
                    }
                }
            }
        }
        assert forall|i: int, j: int, u: (usize, usize)|
            #![trigger checked1[i][j], reachable(self, (i as usize, j as usize), u)]
            0 <= i < self.spec_cols() && 0 <= j < self.spec_rows() && checked1[i][j] && reachable(
                self,
                (i as usize, j as usize),
                u,
            ) implies checked1[u.0 as int][u.1 as int] by {
            let q = (i as usize, j as usize);
            lemma_reachable_bounds(self, q, u);
            if checked0[i][j] {
                assert(checked0[u.0 as int][u.1 as int]);
            } else {
                assert(comp.contains(q));
                assert(reachable(self, s, q));
                lemma_reachable_trans(self, s, q, u);
                assert(comp.contains(u));
            }
        }
    }

    /// Empties every listed in-bounds position; out-of-bounds entries are
    /// ignored. Cells not listed keep their previous contents.
    pub fn erase_puyos(&mut self, positions: &Vec<(usize, usize)>)
        requires
            old(self).wf(),
        ensures
            final(self).wf(),
            final(self).spec_cols() == old(self).spec_cols(),
            final(self).spec_rows() == old(self).spec_rows(),
            forall|i: int, j: int|
                old(self).in_bounds(i, j) ==> #[trigger] final(self).cell_at(i, j) == (
                if positions@.contains((i as usize, j as usize)) {
                    Cell::Empty
                } else {
                    old(self).cell_at(i, j)
                }),
    {
        let mut k: usize = 0;
        while k < positions.len()
            invariant
                self.wf(),
                self.spec_cols() == old(self).spec_cols(),
                self.spec_rows() == old(self).spec_rows(),
                k <= positions@.len(),
                forall|i: int, j: int|
                    old(self).in_bounds(i, j) ==> #[trigger] self.cell_at(i, j) == (
                    if positions@.take(k as int).contains((i as usize, j as usize)) {
                        Cell::Empty
                    } else {
                        old(self).cell_at(i, j)
                    }),
            decreases positions@.len() - k,
        {
            let (x, y) = positions[k];
            self.set_cell(x, y, Cell::Empty);
            proof {
                let q = (x, y);
                assert(positions@.take(k as int + 1) =~= positions@.take(k as int).push(q));
                assert forall|t: (usize, usize)| #[trigger] positions@.take(
                    k as int + 1,
                ).contains(t) == (positions@.take(k as int).contains(t) || t == q) by {
                    if positions@.take(k as int).contains(t) {
                        let k3 = choose|k3: int|
                            0 <= k3 < k && positions@.take(k as int)[k3] == t;
                        assert(positions@.take(k as int + 1)[k3] == t);
                    } else if t == q {
                        assert(positions@.take(k as int + 1)[k as int] == t);
                    } else if positions@.take(k as int + 1).contains(t) {
                        let k3 = choose|k3: int|
                            #![trigger positions@.take(k as int + 1)[k3]]
                            0 <= k3 < k + 1 && positions@.take(k as int + 1)[k3] == t;
                        assert(k3 < k);
                        assert(positions@.take(k as int)[k3] == t);
                    }
                }
            }
            k = k + 1;
        }
        proof {
            assert(positions@.take(positions@.len() as int) =~= positions@);
        }
    }

    /// Whether every cell of the board is empty.
    pub fn is_all_clear(&self) -> (r: bool)
        requires
            self.wf(),
        ensures
            r == forall|x: int, y: int|
                self.in_bounds(x, y) ==> #[trigger] self.cell_at(x, y) == Cell::Empty,
    {
        let mut x: usize = 0;
        while x < self.cols
            invariant
                self.wf(),
                x <= self.spec_cols(),
                forall|i: int, j: int|
                    0 <= i < x && 0 <= j < self.spec_rows() ==> #[trigger] self.cell_at(i, j)
                        == Cell::Empty,
            decreases self.spec_cols() - x,
        {
            let mut y: usize = 0;
            while y < self.rows
                invariant
                    self.wf(),
                    x < self.spec_cols(),
                    y <= self.spec_rows(),
                    forall|j: int|
                        0 <= j < y ==> #[trigger] self.cell_at(x as int, j) == Cell::Empty,
                decreases self.spec_rows() - y,
            {
                match self.cells[x][y] {
                    Cell::Empty => {},
                    Cell::Filled(_) => {
                        assert(self.cell_at(x as int, y as int) != Cell::Empty);
                        return false;
                    },
                }
                y = y + 1;
            }
            x = x + 1;
        }
        true
    }
}

} // verus!
