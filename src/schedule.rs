//! The layered schedule: which block flies in when, and from where.
use vstd::prelude::*;
use crate::grid::{BlockView, GridBlock, views};
use crate::path::{ArrivedSet, Direction, PathCalculator, layer_of};
use crate::random::shuffle_indices;

verus! {

broadcast use vstd::seq_lib::group_to_multiset_ensures;

/// Whether a block belongs to the grid of `calc`, with its layer.
pub open spec fn fits(calc: PathCalculator, b: GridBlock) -> bool {
    &&& b.grid_row < calc.grid_rows
    &&& b.grid_col < calc.grid_cols
    &&& b.priority_layer == layer_of(calc.grid_rows as int, calc.grid_cols as int, b.grid_row as int, b.grid_col as int)
}

/// The views of a list of groups of indices.
pub open spec fn group_views(groups: Seq<Vec<usize>>) -> Seq<Seq<usize>> {
    groups.map_values(|g: Vec<usize>| g@)
}

/// The layer of group `li`.
pub open spec fn group_layer(blocks: Seq<GridBlock>, groups: Seq<Seq<usize>>, li: int) -> int {
    blocks[groups[li][0] as int].priority_layer as int
}

/// `groups` lists every block index exactly once, in groups of one layer
/// each, the groups in ascending order of layer.
pub open spec fn is_layering(blocks: Seq<GridBlock>, groups: Seq<Seq<usize>>) -> bool {
    &&& forall|li: int| 0 <= li < groups.len() ==> #[trigger] groups[li].len() > 0
    &&& forall|li: int, bi: int|
        0 <= li < groups.len() && 0 <= bi < groups[li].len() ==> {
            &&& (#[trigger] groups[li][bi]) < blocks.len()
            &&& blocks[groups[li][bi] as int].priority_layer == group_layer(blocks, groups, li)
        }
    &&& forall|l1: int, l2: int|
        0 <= l1 < l2 < groups.len() ==> #[trigger] group_layer(blocks, groups, l1) < #[trigger] group_layer(
            blocks,
            groups,
            l2,
        )
    &&& forall|i: int| 0 <= i < blocks.len() ==> #[trigger] is_listed(groups, i)
    &&& forall|l1: int, b1: int, l2: int, b2: int|
        0 <= l1 < groups.len() && 0 <= b1 < groups[l1].len() && 0 <= l2 < groups.len() && 0 <= b2
            < groups[l2].len() && #[trigger] groups[l1][b1] == #[trigger] groups[l2][b2] ==> l1 == l2 && b1 == b2
}

/// Whether index `i` stands in one of the groups.
pub open spec fn is_listed(groups: Seq<Seq<usize>>, i: int) -> bool {
    exists|li: int, bi: int| 0 <= li < groups.len() && 0 <= bi < groups[li].len() && #[trigger] groups[li][bi] == i
}

/// Whether position `(l, b)` of the schedule comes before `(li, bi)`.
pub open spec fn lex_before(l: int, b: int, li: int, bi: int) -> bool {
    l < li || (l == li && b < bi)
}

/// The cells of the blocks scheduled before position `(li, bi)`.
pub open spec fn arrived_before(blocks: Seq<GridBlock>, groups: Seq<Seq<usize>>, li: int, bi: int) -> Set<(usize, usize)> {
    Set::new(
        |p: (usize, usize)|
            exists|l: int, b: int|
                0 <= l < groups.len() && 0 <= b < groups[l].len() && lex_before(l, b, li, bi) && p == (
                    blocks[#[trigger] groups[l][b] as int].grid_row,
                    blocks[groups[l][b] as int].grid_col,
                ),
    )
}

/// The delay of the block at position `bi` of layer number `li`, in
/// milliseconds, held at `u64::MAX`.
pub open spec fn stagger(li: int, bi: int, layer_interval_ms: int, block_interval_ms: int) -> int {
    if li * layer_interval_ms + bi * block_interval_ms <= u64::MAX {
        li * layer_interval_ms + bi * block_interval_ms
    } else {
        u64::MAX as int
    }
}

/// `d` is a direction that the conflict policy allows for `(row, col)`
/// against `arrived`.
pub open spec fn direction_ok(calc: PathCalculator, row: usize, col: usize, arrived: Set<(usize, usize)>, d: Direction) -> bool {
    &&& calc.conflict_free_directions(row, col, arrived).len() > 0 ==> {
        &&& calc.conflict_free_directions(row, col, arrived).contains(d)
        &&& !calc.is_blocked(row, col, d, arrived)
    }
    &&& calc.conflict_free_directions(row, col, arrived).len() == 0 ==> calc.is_first_fewest(row, col, arrived, d)
}

/// Block `groups[li][bi]` got its delay from its position and its direction
/// from the cells scheduled before it.
pub open spec fn slot_ok(
    blocks: Seq<GridBlock>,
    groups: Seq<Seq<usize>>,
    calc: PathCalculator,
    layer_interval_ms: u64,
    block_interval_ms: u64,
    dirs: Seq<Direction>,
    delays: Seq<u64>,
    li: int,
    bi: int,
) -> bool {
    let i = groups[li][bi] as int;
    &&& delays[i] == stagger(li, bi, layer_interval_ms as int, block_interval_ms as int)
    &&& direction_ok(calc, blocks[i].grid_row, blocks[i].grid_col, arrived_before(blocks, groups, li, bi), dirs[i])
}

/// Every block got its delay and direction as the schedule `groups` asks.
pub open spec fn assignment_ok(
    blocks: Seq<GridBlock>,
    groups: Seq<Seq<usize>>,
    calc: PathCalculator,
    layer_interval_ms: u64,
    block_interval_ms: u64,
    dirs: Seq<Direction>,
    delays: Seq<u64>,
) -> bool {
    forall|li: int, bi: int|
        0 <= li < groups.len() && 0 <= bi < groups[li].len() ==> #[trigger] slot_ok(
            blocks,
            groups,
            calc,
            layer_interval_ms,
            block_interval_ms,
            dirs,
            delays,
            li,
            bi,
        )
}

/// The blocks with their directions and delays filled in.
pub open spec fn assigned_views(blocks: Seq<GridBlock>, dirs: Seq<Direction>, delays: Seq<u64>) -> Seq<BlockView> {
    Seq::new(
        blocks.len(),
        |i: int|
            BlockView {
                content: blocks[i].content@,
                block_id: blocks[i].block_id as int,
                grid_row: blocks[i].grid_row as int,
                grid_col: blocks[i].grid_col as int,
                priority_layer: blocks[i].priority_layer as int,
                from_edge: Some(dirs[i]),
                delay_ms: delays[i] as int,
            },
    )
}

/// Block ids never decrease along `s`.
pub open spec fn sorted_by_id(s: Seq<BlockView>) -> bool {
    forall|a: int, b: int| 0 <= a < b < s.len() ==> s[a].block_id <= s[b].block_id
}

pub fn stagger_ms(li: usize, bi: usize, layer_interval_ms: u64, block_interval_ms: u64) -> (r: u64)
    ensures
        r == stagger(li as int, bi as int, layer_interval_ms as int, block_interval_ms as int),
{
    assert(li * layer_interval_ms >= 0 && bi * block_interval_ms >= 0) by (nonlinear_arith);
    match (li as u64).checked_mul(layer_interval_ms) {
        Some(x) => match (bi as u64).checked_mul(block_interval_ms) {
            Some(y) => match x.checked_add(y) {
                Some(s) => s,
                None => u64::MAX,
            },
            None => u64::MAX,
        },
        None => u64::MAX,
    }
}

/// `groups` is a layering of the blocks whose layer is below `lv`, with
/// groups of layers below `lv` only.
pub open spec fn layering_below(blocks: Seq<GridBlock>, groups: Seq<Seq<usize>>, lv: int) -> bool {
    &&& forall|li: int| 0 <= li < groups.len() ==> #[trigger] groups[li].len() > 0
    &&& forall|li: int, bi: int|
        0 <= li < groups.len() && 0 <= bi < groups[li].len() ==> {
            &&& (#[trigger] groups[li][bi]) < blocks.len()
            &&& blocks[groups[li][bi] as int].priority_layer == group_layer(blocks, groups, li)
        }
    &&& forall|l1: int, l2: int|
        0 <= l1 < l2 < groups.len() ==> #[trigger] group_layer(blocks, groups, l1) < #[trigger] group_layer(
            blocks,
            groups,
            l2,
        )
    &&& forall|li: int| 0 <= li < groups.len() ==> #[trigger] group_layer(blocks, groups, li) < lv
    &&& forall|i: int| 0 <= i < blocks.len() && blocks[i].priority_layer < lv ==> #[trigger] is_listed(groups, i)
    &&& forall|l1: int, b1: int, l2: int, b2: int|
        0 <= l1 < groups.len() && 0 <= b1 < groups[l1].len() && 0 <= l2 < groups.len() && 0 <= b2
            < groups[l2].len() && #[trigger] groups[l1][b1] == #[trigger] groups[l2][b2] ==> l1 == l2 && b1 == b2
}

/// The largest layer of the blocks; 0 where there are none.
fn max_layer(blocks: &Vec<GridBlock>) -> (r: usize)
    ensures
        forall|k: int| 0 <= k < blocks@.len() ==> blocks@[k].priority_layer <= r,
        blocks@.len() == 0 ==> r == 0,
        blocks@.len() > 0 ==> exists|k: int| 0 <= k < blocks@.len() && blocks@[k].priority_layer == r,
{
    let mut top: usize = 0;
    let mut i: usize = 0;
    while i < blocks.len()
        invariant
            i <= blocks@.len(),
            forall|k: int| 0 <= k < i ==> blocks@[k].priority_layer <= top,
            i == 0 ==> top == 0,
            i > 0 ==> exists|k: int| 0 <= k < i && blocks@[k].priority_layer == top,
        decreases blocks@.len() - i,
    {
        if i == 0 || blocks[i].priority_layer > top {
            top = blocks[i].priority_layer;
        }
        i = i + 1;
    }
    top
}

/// The indices of the blocks of layer `lv`, in ascending order.
fn indices_of_layer(blocks: &Vec<GridBlock>, lv: usize) -> (group: Vec<usize>)
    ensures
        forall|b: int| 0 <= b < group@.len() ==> #[trigger] group@[b] < blocks@.len() && blocks@[group@[b] as int].priority_layer == lv,
        forall|b1: int, b2: int| 0 <= b1 < b2 < group@.len() ==> group@[b1] < group@[b2],
        forall|k: int| 0 <= k < blocks@.len() && blocks@[k].priority_layer == lv ==> group@.contains(k as usize),
{
    let mut group: Vec<usize> = Vec::new();
    for k in 0..blocks.len()
        invariant
            forall|b: int| 0 <= b < group@.len() ==> #[trigger] group@[b] < k && blocks@[group@[b] as int].priority_layer == lv,
            forall|b1: int, b2: int| 0 <= b1 < b2 < group@.len() ==> group@[b1] < group@[b2],
            forall|k2: int| 0 <= k2 < k && blocks@[k2].priority_layer == lv ==> group@.contains(k2 as usize),
    {
        if blocks[k].priority_layer == lv {
            let ghost before = group@;
            group.push(k);
            assert(group@[group@.len() - 1] == k);
            assert forall|k2: int| 0 <= k2 < k + 1 && blocks@[k2].priority_layer == lv implies group@.contains(k2 as usize) by {
                if k2 < k {
                    let b = choose|b: int| 0 <= b < before.len() && before[b] == k2 as usize;
                    assert(group@[b] == k2 as usize);
                }
            }
        }
    }
    group
}

/// Groups the block indices by layer, in ascending order of layer, and
/// shuffles the order inside each group.
pub fn layer_groups(blocks: &Vec<GridBlock>, calc: &PathCalculator, rng: &mut rand::rngs::StdRng) -> (groups: Vec<Vec<usize>>)
    requires
        forall|k: int| 0 <= k < blocks@.len() ==> fits(*calc, #[trigger] blocks@[k]),
    ensures
        is_layering(blocks@, group_views(groups@)),
{
    let top = max_layer(blocks);
    proof {
        if blocks@.len() > 0 {
            let k = choose|k: int| 0 <= k < blocks@.len() && blocks@[k].priority_layer == top;
            assert(fits(*calc, blocks@[k]));
        }
    }
    let mut groups: Vec<Vec<usize>> = Vec::new();
    assert(group_views(groups@) =~= Seq::<Seq<usize>>::empty());
    for lv in 0..top + 1
        invariant
            forall|k: int| 0 <= k < blocks@.len() ==> blocks@[k].priority_layer <= top,
            layering_below(blocks@, group_views(groups@), lv as int),
    {
        let ghost old_groups = group_views(groups@);
        let mut group = indices_of_layer(blocks, lv);
        if group.len() > 0 {
            let ghost g0 = group@;
            shuffle_indices(rng, &mut group);
            let ghost s = group@;
            proof {
                assert(g0.no_duplicates()) by {
                    assert forall|a: int, b: int| 0 <= a < g0.len() && 0 <= b < g0.len() && a != b implies g0[a] != g0[b] by {
                        if a < b {
                            assert(g0[a] < g0[b]);
                        } else {
                            assert(g0[b] < g0[a]);
                        }
                    }
                }
                g0.lemma_multiset_has_no_duplicates();
                s.lemma_multiset_has_no_duplicates_conv();
                assert(s.to_multiset().len() == g0.to_multiset().len());
                assert(s.len() == g0.len());
                assert forall|b: int| 0 <= b < s.len() implies #[trigger] s[b] < blocks@.len() && blocks@[s[b] as int].priority_layer == lv by {
                    assert(s.contains(s[b]));
                    assert(s.to_multiset().count(s[b]) > 0);
                    assert(g0.to_multiset().count(s[b]) > 0);
                    assert(g0.contains(s[b]));
                }
            }
            groups.push(group);
            proof {
                let ng = group_views(groups@);
                assert(ng =~= old_groups.push(s));
                let n = old_groups.len() as int;
                assert(ng[n] == s);
                assert(group_layer(blocks@, ng, n) == lv);
                assert forall|li: int| 0 <= li < n implies #[trigger] group_layer(blocks@, ng, li) == group_layer(blocks@, old_groups, li) by {
                    assert(ng[li] == old_groups[li]);
                }
                assert forall|li: int, bi: int| 0 <= li < ng.len() && 0 <= bi < ng[li].len() implies {
                    &&& (#[trigger] ng[li][bi]) < blocks@.len()
                    &&& blocks@[ng[li][bi] as int].priority_layer == group_layer(blocks@, ng, li)
                } by {
                    if li < n {
                        assert(ng[li] == old_groups[li]);
                    } else {
                        assert(s.len() > 0);
                    }
                }
                assert forall|i: int| 0 <= i < blocks@.len() && blocks@[i].priority_layer < lv + 1 implies #[trigger] is_listed(ng, i) by {
                    if blocks@[i].priority_layer < lv {
                        assert(is_listed(old_groups, i));
                        let (l, b) = choose|l: int, b: int| 0 <= l < old_groups.len() && 0 <= b < old_groups[l].len() && #[trigger] old_groups[l][b] == i;
                        assert(ng[l] == old_groups[l]);
                        assert(ng[l][b] == i);
                    } else {
                        assert(g0.contains(i as usize));
                        assert(g0.to_multiset().count(i as usize) > 0);
                        assert(s.to_multiset().count(i as usize) > 0);
                        assert(s.contains(i as usize));
                        let b = choose|b: int| 0 <= b < s.len() && s[b] == i as usize;
                        assert(ng[n][b] == s[b]);
                        assert(blocks@.len() == blocks.len());
                        assert(i as usize as int == i);
                        assert(ng[n][b] == i);
                        assert(0 <= n < ng.len() && 0 <= b < ng[n].len());
                    }
                }
                assert forall|l1: int, b1: int, l2: int, b2: int|
                    0 <= l1 < ng.len() && 0 <= b1 < ng[l1].len() && 0 <= l2 < ng.len() && 0 <= b2 < ng[l2].len()
                        && #[trigger] ng[l1][b1] == #[trigger] ng[l2][b2] implies l1 == l2 && b1 == b2 by {
                    if l1 < n && l2 < n {
                        assert(ng[l1] == old_groups[l1]);
                        assert(ng[l2] == old_groups[l2]);
                    } else if l1 < n {
                        assert(ng[l1] == old_groups[l1]);
                        assert(blocks@[ng[l1][b1] as int].priority_layer == group_layer(blocks@, old_groups, l1));
                    } else if l2 < n {
                        assert(ng[l2] == old_groups[l2]);
                        assert(blocks@[ng[l2][b2] as int].priority_layer == group_layer(blocks@, old_groups, l2));
                    }
                }
            }
        } else {
            proof {
                assert forall|i: int| 0 <= i < blocks@.len() && blocks@[i].priority_layer < lv + 1 implies #[trigger] is_listed(old_groups, i) by {
                    if blocks@[i].priority_layer == lv {
                        assert(group@.contains(i as usize));
                    }
                }
            }
        }
    }
    groups
}

/// One more scheduled block adds its cell to the arrived cells.
proof fn lemma_arrived_step(blocks: Seq<GridBlock>, groups: Seq<Seq<usize>>, li: int, bi: int)
    requires
        0 <= li < groups.len(),
        0 <= bi < groups[li].len(),
    ensures
        arrived_before(blocks, groups, li, bi + 1) == arrived_before(blocks, groups, li, bi).insert(
            (blocks[groups[li][bi] as int].grid_row, blocks[groups[li][bi] as int].grid_col),
        ),
{
    let cell = (blocks[groups[li][bi] as int].grid_row, blocks[groups[li][bi] as int].grid_col);
    let next = arrived_before(blocks, groups, li, bi + 1);
    let prev = arrived_before(blocks, groups, li, bi);
    assert forall|p: (usize, usize)| next.contains(p) implies #[trigger] prev.insert(cell).contains(p) by {
        let (l, b) = choose|l: int, b: int|
            0 <= l < groups.len() && 0 <= b < groups[l].len() && lex_before(l, b, li, bi + 1) && p == (
                blocks[#[trigger] groups[l][b] as int].grid_row,
                blocks[groups[l][b] as int].grid_col,
            );
        if !(l == li && b == bi) {
            assert(lex_before(l, b, li, bi));
            assert(prev.contains(p));
        }
    }
    assert forall|p: (usize, usize)| prev.insert(cell).contains(p) implies #[trigger] next.contains(p) by {
        if p == cell {
            assert(lex_before(li, bi, li, bi + 1));
            assert(groups[li][bi] == groups[li][bi]);
        } else {
            let (l, b) = choose|l: int, b: int|
                0 <= l < groups.len() && 0 <= b < groups[l].len() && lex_before(l, b, li, bi) && p == (
                    blocks[#[trigger] groups[l][b] as int].grid_row,
                    blocks[groups[l][b] as int].grid_col,
                );
            assert(lex_before(l, b, li, bi + 1));
        }
    }
    assert(next =~= prev.insert(cell));
}

/// The cells arrived after a whole group are those arrived before the next.
proof fn lemma_arrived_next_group(blocks: Seq<GridBlock>, groups: Seq<Seq<usize>>, li: int)
    requires
        0 <= li < groups.len(),
    ensures
        arrived_before(blocks, groups, li, groups[li].len() as int) == arrived_before(blocks, groups, li + 1, 0),
{
    let a = arrived_before(blocks, groups, li, groups[li].len() as int);
    let c = arrived_before(blocks, groups, li + 1, 0);
    assert forall|p: (usize, usize)| a.contains(p) implies #[trigger] c.contains(p) by {
        let (l, b) = choose|l: int, b: int|
            0 <= l < groups.len() && 0 <= b < groups[l].len() && lex_before(l, b, li, groups[li].len() as int) && p == (
                blocks[#[trigger] groups[l][b] as int].grid_row,
                blocks[groups[l][b] as int].grid_col,
            );
        assert(lex_before(l, b, li + 1, 0));
    }
    assert forall|p: (usize, usize)| c.contains(p) implies #[trigger] a.contains(p) by {
        let (l, b) = choose|l: int, b: int|
            0 <= l < groups.len() && 0 <= b < groups[l].len() && lex_before(l, b, li + 1, 0) && p == (
                blocks[#[trigger] groups[l][b] as int].grid_row,
                blocks[groups[l][b] as int].grid_col,
            );
        assert(lex_before(l, b, li, groups[li].len() as int));
    }
    assert(a =~= c);
}

/// Gives every block, in the order of `groups`, its delay and its entry
/// direction: the delay from its layer's position and its own position in
/// the layer; the direction by the conflict policy against the cells of the
/// blocks scheduled before it. The results are indexed like `blocks`.
pub fn assign_paths(
    blocks: &Vec<GridBlock>,
    groups: &Vec<Vec<usize>>,
    calc: &PathCalculator,
    layer_interval_ms: u64,
    block_interval_ms: u64,
    rng: &mut rand::rngs::StdRng,
) -> (r: (Vec<Direction>, Vec<u64>))
    requires
        is_layering(blocks@, group_views(groups@)),
        forall|k: int| 0 <= k < blocks@.len() ==> fits(*calc, #[trigger] blocks@[k]),
    ensures
        r.0@.len() == blocks@.len(),
        r.1@.len() == blocks@.len(),
        assignment_ok(blocks@, group_views(groups@), *calc, layer_interval_ms, block_interval_ms, r.0@, r.1@),
{
    let n = blocks.len();
    let mut dirs: Vec<Direction> = Vec::new();
    let mut delays: Vec<u64> = Vec::new();
    for i in 0..n
        invariant
            dirs@.len() == i,
            delays@.len() == i,
    {
        dirs.push(Direction::Top);
        delays.push(0);
    }
    let ghost gs = group_views(groups@);
    let ghost bs = blocks@;
    let mut arrived = ArrivedSet::new();
    assert(arrived@ =~= arrived_before(bs, gs, 0, 0));
    for li in 0..groups.len()
        invariant
            n == bs.len(),
            bs == blocks@,
            gs == group_views(groups@),
            gs.len() == groups@.len(),
            dirs@.len() == n,
            delays@.len() == n,
            is_layering(bs, gs),
            forall|k: int| 0 <= k < bs.len() ==> fits(*calc, #[trigger] bs[k]),
            arrived@ == arrived_before(bs, gs, li as int, 0),
            forall|l: int, b: int|
                0 <= l < li && 0 <= b < gs[l].len() ==> #[trigger] slot_ok(
                    bs,
                    gs,
                    *calc,
                    layer_interval_ms,
                    block_interval_ms,
                    dirs@,
                    delays@,
                    l,
                    b,
                ),
    {
        let group = &groups[li];
        assert(gs[li as int] == group@);
        for bi in 0..group.len()
            invariant
                n == bs.len(),
                bs == blocks@,
                gs == group_views(groups@),
                gs.len() == groups@.len(),
                0 <= li < gs.len(),
                gs[li as int] == group@,
                dirs@.len() == n,
                delays@.len() == n,
                is_layering(bs, gs),
                forall|k: int| 0 <= k < bs.len() ==> fits(*calc, #[trigger] bs[k]),
                arrived@ == arrived_before(bs, gs, li as int, bi as int),
                forall|l: int, b: int|
                    0 <= l < gs.len() && 0 <= b < gs[l].len() && lex_before(l, b, li as int, bi as int) ==> #[trigger] slot_ok(
                        bs,
                        gs,
                        *calc,
                        layer_interval_ms,
                        block_interval_ms,
                        dirs@,
                        delays@,
                        l,
                        b,
                    ),
        {
            let idx = group[bi];
            assert(idx == gs[li as int][bi as int]);
            assert(idx < n);
            let row = blocks[idx].grid_row;
            let col = blocks[idx].grid_col;
            assert(fits(*calc, bs[idx as int]));
            let d = calc.choose_best_direction(row, col, &arrived, rng);
            let delay = stagger_ms(li, bi, layer_interval_ms, block_interval_ms);
            let ghost old_dirs = dirs@;
            let ghost old_delays = delays@;
            dirs[idx] = d;
            delays[idx] = delay;
            proof {
                assert forall|l: int, b: int|
                    0 <= l < gs.len() && 0 <= b < gs[l].len() && lex_before(l, b, li as int, bi + 1) implies #[trigger] slot_ok(
                        bs,
                        gs,
                        *calc,
                        layer_interval_ms,
                        block_interval_ms,
                        dirs@,
                        delays@,
                        l,
                        b,
                    ) by {
                    if l == li && b == bi {
                    } else {
                        assert(lex_before(l, b, li as int, bi as int));
                        assert(slot_ok(bs, gs, *calc, layer_interval_ms, block_interval_ms, old_dirs, old_delays, l, b));
                        assert(gs[l][b] != gs[li as int][bi as int]);
                        assert(dirs@[gs[l][b] as int] == old_dirs[gs[l][b] as int]);
                        assert(delays@[gs[l][b] as int] == old_delays[gs[l][b] as int]);
                    }
                }
                lemma_arrived_step(bs, gs, li as int, bi as int);
            }
            arrived.insert(row, col);
        }
        proof {
            lemma_arrived_next_group(bs, gs, li as int);
        }
    }
    (dirs, delays)
}

/// Sorts the blocks by block id, keeping the blocks themselves.
pub fn sort_by_block_id(v: &mut Vec<GridBlock>)
    ensures
        views(final(v)@).to_multiset() == views(old(v)@).to_multiset(),
        sorted_by_id(views(final(v)@)),
{
    let ghost orig = views(v@);
    let mut i: usize = 1;
    while i < v.len()
        invariant
            1 <= i,
            views(v@).to_multiset() == orig.to_multiset(),
            forall|a: int, b: int| 0 <= a < b < i && b < v@.len() ==> v@[a].block_id <= v@[b].block_id,
        decreases v@.len() - i,
    {
        let ghost before = v@;
        let x = v.remove(i);
        proof {
            assert(views(v@) =~= views(before).remove(i as int));
        }
        let mut j: usize = i;
        while j > 0 && v[j - 1].block_id > x.block_id
            invariant
                j <= i,
                i <= v@.len(),
                v@ == before.remove(i as int),
                forall|k: int| j <= k < i ==> v@[k].block_id > x.block_id,
            decreases j,
        {
            j = j - 1;
        }
        let ghost mid = v@;
        v.insert(j, x);
        proof {
            assert(views(v@) =~= views(mid).insert(j as int, x@));
            mid.insert_ensures(j as int, x);
            assert forall|a: int, b: int| 0 <= a < b < i + 1 && b < v@.len() implies v@[a].block_id <= v@[b].block_id by {
                if b < j {
                } else if b == j {
                    if a < j {
                        assert(v@[a] == mid[a]);
                        assert(mid[a] == before[a]);
                        assert(mid[j - 1] == before[j - 1]);
                    }
                } else if a < j {
                    assert(v@[a] == mid[a]);
                    assert(v@[b] == mid[b - 1]);
                } else if a == j {
                    assert(v@[b] == mid[b - 1]);
                } else {
                    assert(v@[a] == mid[a - 1]);
                    assert(v@[b] == mid[b - 1]);
                    assert(mid[a - 1] == before[a - 1]);
                    assert(mid[b - 1] == before[b - 1]);
                }
            }
        }
        i = i + 1;
    }
}

/// `result` is a schedule of `blocks`: `groups` is a layering of them, the
/// blocks got their delays and directions as it asks, and `result` holds
/// those blocks.
pub open spec fn is_schedule_of(
    blocks: Seq<GridBlock>,
    calc: PathCalculator,
    layer_interval_ms: u64,
    block_interval_ms: u64,
    result: Seq<BlockView>,
    groups: Seq<Seq<usize>>,
    dirs: Seq<Direction>,
    delays: Seq<u64>,
) -> bool {
    &&& is_layering(blocks, groups)
    &&& dirs.len() == blocks.len()
    &&& delays.len() == blocks.len()
    &&& assignment_ok(blocks, groups, calc, layer_interval_ms, block_interval_ms, dirs, delays)
    &&& result.to_multiset() == assigned_views(blocks, dirs, delays).to_multiset()
}

/// Schedules the blocks: groups them by layer from the centre out, shuffles
/// each layer, gives each block its delay and its entry direction in that
/// order, and returns them sorted by block id.
pub fn schedule_blocks(
    blocks: &Vec<GridBlock>,
    calc: &PathCalculator,
    layer_interval_ms: u64,
    block_interval_ms: u64,
    rng: &mut rand::rngs::StdRng,
) -> (r: Vec<GridBlock>)
    requires
        forall|k: int| 0 <= k < blocks@.len() ==> fits(*calc, #[trigger] blocks@[k]),
    ensures
        exists|groups: Seq<Seq<usize>>, dirs: Seq<Direction>, delays: Seq<u64>|
            #[trigger] is_schedule_of(blocks@, *calc, layer_interval_ms, block_interval_ms, views(r@), groups, dirs, delays),
        sorted_by_id(views(r@)),
{
    let groups = layer_groups(blocks, calc, rng);
    let (dirs, delays) = assign_paths(blocks, &groups, calc, layer_interval_ms, block_interval_ms, rng);
    let ghost target = assigned_views(blocks@, dirs@, delays@);
    let mut out: Vec<GridBlock> = Vec::new();
    assert(views(out@) =~= target.take(0));
    for i in 0..blocks.len()
        invariant
            dirs@.len() == blocks@.len(),
            delays@.len() == blocks@.len(),
            target == assigned_views(blocks@, dirs@, delays@),
            views(out@) == target.take(i as int),
    {
        let b = &blocks[i];
        let block = GridBlock {
            content: b.content.clone(),
            block_id: b.block_id,
            grid_row: b.grid_row,
            grid_col: b.grid_col,
            delay_ms: delays[i],
            from_edge: Some(dirs[i]),
            priority_layer: b.priority_layer,
        };
        assert(block.content@ == blocks@[i as int].content@);
        assert(block@ == target[i as int]);
        assert(views(out@.push(block)) =~= views(out@).push(block@));
        assert(target.take(i + 1) =~= target.take(i as int).push(target[i as int]));
        out.push(block);
    }
    assert(target.take(blocks@.len() as int) =~= target);
    sort_by_block_id(&mut out);
    assert(is_schedule_of(blocks@, *calc, layer_interval_ms, block_interval_ms, views(out@), group_views(groups@), dirs@, delays@));
    out
}

/// Delays follow the schedule. Every delay is at least zero; within a layer
/// a later block starts strictly later when the block interval is positive;
/// and a block of an earlier layer starts no later than any block of a later
/// one, where the earlier layer's blocks all start within one layer interval
/// of its first. Positions whose delay would pass `u64::MAX` are left out.
pub proof fn lemma_schedule_monotone(
    blocks: Seq<GridBlock>,
    groups: Seq<Seq<usize>>,
    calc: PathCalculator,
    layer_interval_ms: u64,
    block_interval_ms: u64,
    dirs: Seq<Direction>,
    delays: Seq<u64>,
    l1: int,
    b1: int,
    l2: int,
    b2: int,
)
    requires
        is_layering(blocks, groups),
        assignment_ok(blocks, groups, calc, layer_interval_ms, block_interval_ms, dirs, delays),
        0 <= l1 < groups.len(),
        0 <= b1 < groups[l1].len(),
        0 <= l2 < groups.len(),
        0 <= b2 < groups[l2].len(),
        l2 * layer_interval_ms + b2 * block_interval_ms <= u64::MAX,
    ensures
        delays[groups[l1][b1] as int] >= 0,
        l1 == l2 && b1 < b2 && block_interval_ms > 0 ==> delays[groups[l1][b1] as int] < delays[groups[l2][b2] as int],
        l1 < l2 && (groups[l1].len() - 1) * block_interval_ms <= layer_interval_ms ==> delays[groups[l1][b1] as int]
            <= delays[groups[l2][b2] as int],
{
    assert(slot_ok(blocks, groups, calc, layer_interval_ms, block_interval_ms, dirs, delays, l1, b1));
    assert(slot_ok(blocks, groups, calc, layer_interval_ms, block_interval_ms, dirs, delays, l2, b2));
    let li = layer_interval_ms as int;
    let bi = block_interval_ms as int;
    let len1 = groups[l1].len() as int;
    if l1 == l2 && b1 < b2 && bi > 0 {
        assert(l1 * li + b1 * bi < l2 * li + b2 * bi) by (nonlinear_arith)
            requires l1 == l2, b1 < b2, bi > 0;
    }
    if l1 < l2 && (len1 - 1) * bi <= li {
        assert(l1 * li + b1 * bi <= l2 * li + b2 * bi) by (nonlinear_arith)
            requires l1 < l2, 0 <= b1 < len1, (len1 - 1) * bi <= li, li >= 0, bi >= 0, b2 >= 0;
    }
    assert(l1 * li + b1 * bi >= 0 && l2 * li + b2 * bi >= 0) by (nonlinear_arith)
        requires l1 >= 0, l2 >= 0, b1 >= 0, b2 >= 0, li >= 0, bi >= 0;
}

} // verus!
