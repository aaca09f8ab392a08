//! Entry directions and the detection of path conflicts between blocks.
use vstd::prelude::*;
use crate::random::random_below;

verus! {

/// A side of the viewport from which a block flies in.
#[derive(Clone, Copy, PartialEq, Eq, Debug, Structural)]
pub enum Direction {
    Top,
    Right,
    Bottom,
    Left,
}

/// The four directions in enumeration order, which also breaks ties.
pub open spec fn all_directions() -> Seq<Direction> {
    seq![Direction::Top, Direction::Right, Direction::Bottom, Direction::Left]
}

/// The position of a direction in the enumeration order.
pub open spec fn rank(d: Direction) -> int {
    match d {
        Direction::Top => 0,
        Direction::Right => 1,
        Direction::Bottom => 2,
        Direction::Left => 3,
    }
}

/// The name under which a direction is rendered.
pub open spec fn direction_name(d: Direction) -> Seq<char> {
    match d {
        Direction::Top => "top"@,
        Direction::Right => "right"@,
        Direction::Bottom => "bottom"@,
        Direction::Left => "left"@,
    }
}

impl Direction {
    pub fn all() -> (r: [Direction; 4])
        ensures
            r@ == all_directions(),
    {
        let r = [Direction::Top, Direction::Right, Direction::Bottom, Direction::Left];
        assert(r@ =~= all_directions());
        r
    }

    pub fn to_string(&self) -> (r: &'static str)
        ensures
            r@ == direction_name(*self),
    {
        match self {
            Direction::Top => "top",
            Direction::Right => "right",
            Direction::Bottom => "bottom",
            Direction::Left => "left",
        }
    }
}

/// The grid cells whose blocks have already been given a direction.
pub struct ArrivedSet {
    cells: Vec<(usize, usize)>,
}

impl View for ArrivedSet {
    type V = Set<(usize, usize)>;

    closed spec fn view(&self) -> Set<(usize, usize)> {
        self.cells@.to_set()
    }
}

impl ArrivedSet {
    pub fn new() -> (r: ArrivedSet)
        ensures
            r@ == Set::<(usize, usize)>::empty(),
    {
        let r = ArrivedSet { cells: Vec::new() };
        assert(r@ =~= Set::<(usize, usize)>::empty());
        r
    }

    pub fn contains(&self, row: usize, col: usize) -> (r: bool)
        ensures
            r == self@.contains((row, col)),
    {
        let mut i: usize = 0;
        while i < self.cells.len()
            invariant
                i <= self.cells@.len(),
                forall|k: int| 0 <= k < i ==> self.cells@[k] != (row, col),
            decreases self.cells@.len() - i,
        {
            let c = self.cells[i];
            if c.0 == row && c.1 == col {
                assert(self.cells@.contains((row, col)));
                return true;
            }
            i = i + 1;
        }
        false
    }

    pub fn insert(&mut self, row: usize, col: usize)
        ensures
            final(self)@ == old(self)@.insert((row, col)),
    {
        proof {
            old(self).cells@.lemma_push_to_set_commute((row, col));
        }
        self.cells.push((row, col));
    }
}

/// The cells strictly between the grid edge on side `d` and the cell
/// `(row, col)`, from the edge inwards for `Top` and `Left`, outwards from
/// the cell for `Bottom` and `Right`.
pub open spec fn path_cells(rows: usize, cols: usize, row: usize, col: usize, d: Direction) -> Seq<(usize, usize)> {
    match d {
        Direction::Top => Seq::new(row as nat, |k: int| (k as usize, col)),
        Direction::Bottom => Seq::new((rows - row - 1) as nat, |k: int| ((row + 1 + k) as usize, col)),
        Direction::Left => Seq::new(col as nat, |k: int| (row, k as usize)),
        Direction::Right => Seq::new((cols - col - 1) as nat, |k: int| (row, (col + 1 + k) as usize)),
    }
}

/// How many cells of `path` are in `arrived`.
pub open spec fn count_arrived(path: Seq<(usize, usize)>, arrived: Set<(usize, usize)>) -> nat
    decreases path.len(),
{
    if path.len() == 0 {
        0
    } else {
        count_arrived(path.drop_last(), arrived) + if arrived.contains(path.last()) {
            1nat
        } else {
            0nat
        }
    }
}

/// Whether some cell of `path` is in `arrived`.
pub open spec fn blocked(path: Seq<(usize, usize)>, arrived: Set<(usize, usize)>) -> bool {
    exists|k: int| 0 <= k < path.len() && arrived.contains(#[trigger] path[k])
}

/// The priority layer of a cell: its Manhattan distance to the centre cell
/// `(rows / 2, cols / 2)`, with integer division.
pub open spec fn layer_of(rows: int, cols: int, row: int, col: int) -> int {
    let dr = row - rows / 2;
    let dc = col - cols / 2;
    (if dr >= 0 { dr } else { -dr }) + (if dc >= 0 { dc } else { -dc })
}

/// Every direction in the list of conflict-free directions has a path free of
/// arrived cells.
pub proof fn lemma_free_not_blocked(pc: &PathCalculator, row: usize, col: usize, arrived: Set<(usize, usize)>, i: int)
    requires
        0 <= i < pc.conflict_free_directions(row, col, arrived).len(),
    ensures
        !pc.is_blocked(row, col, pc.conflict_free_directions(row, col, arrived)[i], arrived),
{
    let one = |d: Direction|
        if pc.is_blocked(row, col, d, arrived) {
            Seq::<Direction>::empty()
        } else {
            seq![d]
        };
    let s = pc.conflict_free_directions(row, col, arrived);
    assert(s == one(Direction::Top) + one(Direction::Right) + one(Direction::Bottom) + one(Direction::Left));
    assert(forall|j: int| 0 <= j < s.len() ==> !pc.is_blocked(row, col, #[trigger] s[j], arrived));
}

/// Computes paths on a grid of `grid_rows` by `grid_cols` cells.
pub struct PathCalculator {
    pub grid_rows: usize,
    pub grid_cols: usize,
}

impl PathCalculator {
    /// The cells that a block bound for `(row, col)` crosses when it comes from `d`.
    pub open spec fn path(&self, row: usize, col: usize, d: Direction) -> Seq<(usize, usize)> {
        path_cells(self.grid_rows, self.grid_cols, row, col, d)
    }

    /// The number of arrived cells on the path from `d`.
    pub open spec fn conflicts(&self, row: usize, col: usize, d: Direction, arrived: Set<(usize, usize)>) -> nat {
        count_arrived(self.path(row, col, d), arrived)
    }

    /// Whether the path from `d` crosses an arrived cell.
    pub open spec fn is_blocked(&self, row: usize, col: usize, d: Direction, arrived: Set<(usize, usize)>) -> bool {
        blocked(self.path(row, col, d), arrived)
    }

    /// The conflict-free directions, in enumeration order.
    pub open spec fn conflict_free_directions(&self, row: usize, col: usize, arrived: Set<(usize, usize)>) -> Seq<Direction> {
        let one = |d: Direction|
            if self.is_blocked(row, col, d, arrived) {
                Seq::<Direction>::empty()
            } else {
                seq![d]
            };
        one(Direction::Top) + one(Direction::Right) + one(Direction::Bottom) + one(Direction::Left)
    }

    /// `d` has the fewest conflicts of all four directions, and strictly fewer
    /// than every direction before it in enumeration order.
    pub open spec fn is_first_fewest(&self, row: usize, col: usize, arrived: Set<(usize, usize)>, d: Direction) -> bool {
        forall|e: Direction|
            #![trigger self.conflicts(row, col, e, arrived)]
            {
                &&& self.conflicts(row, col, d, arrived) <= self.conflicts(row, col, e, arrived)
                &&& rank(e) < rank(d) ==> self.conflicts(row, col, d, arrived) < self.conflicts(row, col, e, arrived)
            }
    }

    /// Whether `(row, col)` is a cell of this grid.
    pub open spec fn in_grid(&self, row: usize, col: usize) -> bool {
        row < self.grid_rows && col < self.grid_cols
    }

    pub fn new(grid_rows: usize, grid_cols: usize) -> (r: PathCalculator)
        ensures
            r.grid_rows == grid_rows,
            r.grid_cols == grid_cols,
    {
        PathCalculator { grid_rows, grid_cols }
    }

    /// Manhattan distance from `(row, col)` to the centre cell `(rows / 2, cols / 2)`.
    pub fn manhattan_distance_to_center(&self, row: usize, col: usize) -> (r: usize)
        requires
            self.in_grid(row, col),
        ensures
            r == layer_of(self.grid_rows as int, self.grid_cols as int, row as int, col as int),
    {
        let center_row = self.grid_rows / 2;
        let center_col = self.grid_cols / 2;
        let dr = if row >= center_row { row - center_row } else { center_row - row };
        let dc = if col >= center_col { col - center_col } else { center_col - col };
        dr + dc
    }

    pub fn calculate_path(&self, row: usize, col: usize, direction: Direction) -> (r: Vec<(usize, usize)>)
        requires
            self.in_grid(row, col),
        ensures
            r@ == self.path(row, col, direction),
    {
        let mut path: Vec<(usize, usize)> = Vec::new();
        match direction {
            Direction::Top => {
                for r in 0..row
                    invariant
                        path@ =~= Seq::new(r as nat, |k: int| (k as usize, col)),
                {
                    path.push((r, col));
                }
            },
            Direction::Bottom => {
                for r in (row + 1)..self.grid_rows
                    invariant
                        row + 1 <= r <= self.grid_rows,
                        path@ =~= Seq::new((r - row - 1) as nat, |k: int| ((row + 1 + k) as usize, col)),
                {
                    path.push((r, col));
                }
            },
            Direction::Left => {
                for c in 0..col
                    invariant
                        path@ =~= Seq::new(c as nat, |k: int| (row, k as usize)),
                {
                    path.push((row, c));
                }
            },
            Direction::Right => {
                for c in (col + 1)..self.grid_cols
                    invariant
                        col + 1 <= c <= self.grid_cols,
                        path@ =~= Seq::new((c - col - 1) as nat, |k: int| (row, (col + 1 + k) as usize)),
                {
                    path.push((row, c));
                }
            },
        }
        path
    }

    pub fn has_path_conflict(&self, row: usize, col: usize, direction: Direction, arrived_blocks: &ArrivedSet) -> (r: bool)
        requires
            self.in_grid(row, col),
        ensures
            r == self.is_blocked(row, col, direction, arrived_blocks@),
    {
        let path = self.calculate_path(row, col, direction);
        let mut i: usize = 0;
        while i < path.len()
            invariant
                i <= path@.len(),
                path@ == self.path(row, col, direction),
                forall|k: int| 0 <= k < i ==> !arrived_blocks@.contains(#[trigger] path@[k]),
            decreases path@.len() - i,
        {
            if arrived_blocks.contains(path[i].0, path[i].1) {
                return true;
            }
            i = i + 1;
        }
        false
    }

    /// The number of arrived cells on the path into `(row, col)` from `direction`.
    pub fn count_conflicts(&self, row: usize, col: usize, direction: Direction, arrived_blocks: &ArrivedSet) -> (r: usize)
        requires
            self.in_grid(row, col),
        ensures
            r == self.conflicts(row, col, direction, arrived_blocks@),
    {
        let path = self.calculate_path(row, col, direction);
        let mut count: usize = 0;
        let mut i: usize = 0;
        while i < path.len()
            invariant
                i <= path@.len(),
                count <= i,
                count == count_arrived(path@.take(i as int), arrived_blocks@),
            decreases path@.len() - i,
        {
            assert(path@.take(i + 1).drop_last() =~= path@.take(i as int));
            if arrived_blocks.contains(path[i].0, path[i].1) {
                count = count + 1;
            }
            i = i + 1;
        }
        assert(path@.take(i as int) =~= path@);
        count
    }

    /// The conflict-free directions for `(row, col)`, in enumeration order.
    pub fn free_directions(&self, row: usize, col: usize, arrived_blocks: &ArrivedSet) -> (r: Vec<Direction>)
        requires
            self.in_grid(row, col),
        ensures
            r@ == self.conflict_free_directions(row, col, arrived_blocks@),
    {
        let ghost a = arrived_blocks@;
        let mut available: Vec<Direction> = Vec::new();
        if !self.has_path_conflict(row, col, Direction::Top, arrived_blocks) {
            available.push(Direction::Top);
        }
        if !self.has_path_conflict(row, col, Direction::Right, arrived_blocks) {
            available.push(Direction::Right);
        }
        if !self.has_path_conflict(row, col, Direction::Bottom, arrived_blocks) {
            available.push(Direction::Bottom);
        }
        if !self.has_path_conflict(row, col, Direction::Left, arrived_blocks) {
            available.push(Direction::Left);
        }
        assert(available@ =~= self.conflict_free_directions(row, col, a));
        available
    }

    /// The direction with the fewest arrived cells on its path; the first in
    /// enumeration order among equals.
    pub fn fewest_conflicts(&self, row: usize, col: usize, arrived_blocks: &ArrivedSet) -> (r: Direction)
        requires
            self.in_grid(row, col),
        ensures
            self.is_first_fewest(row, col, arrived_blocks@, r),
    {
        let ghost a = arrived_blocks@;
        let directions = Direction::all();
        let mut min_conflicts: usize = usize::MAX;
        let mut best_direction = Direction::Top;
        let mut i: usize = 0;
        while i < 4
            invariant
                i <= 4,
                self.in_grid(row, col),
                a == arrived_blocks@,
                directions@ == all_directions(),
                i == 0 ==> min_conflicts == usize::MAX && best_direction == Direction::Top,
                i > 0 ==> rank(best_direction) < i && min_conflicts == self.conflicts(row, col, best_direction, a),
                forall|k: int| 0 <= k < i ==> min_conflicts <= self.conflicts(row, col, #[trigger] all_directions()[k], a),
                forall|k: int| 0 <= k < i && k < rank(best_direction) ==> min_conflicts < self.conflicts(row, col, #[trigger] all_directions()[k], a),
            decreases 4 - i,
        {
            let direction = directions[i];
            assert(direction == all_directions()[i as int]);
            let conflicts = self.count_conflicts(row, col, direction, arrived_blocks);
            if conflicts < min_conflicts {
                min_conflicts = conflicts;
                best_direction = direction;
            }
            i = i + 1;
        }
        assert forall|e: Direction| #![trigger self.conflicts(row, col, e, a)]
            {
                &&& self.conflicts(row, col, best_direction, a) <= self.conflicts(row, col, e, a)
                &&& rank(e) < rank(best_direction) ==> self.conflicts(row, col, best_direction, a) < self.conflicts(row, col, e, a)
            } by {
            assert(all_directions()[rank(e)] == e);
        }
        best_direction
    }

    /// The choice of direction once a random draw `pick` has been made: the
    /// `pick`-th conflict-free direction where there is one, else the first
    /// direction with the fewest conflicts.
    pub fn choose_direction_with(&self, row: usize, col: usize, arrived_blocks: &ArrivedSet, pick: usize) -> (r: Direction)
        requires
            self.in_grid(row, col),
            pick < self.conflict_free_directions(row, col, arrived_blocks@).len() || self.conflict_free_directions(row, col, arrived_blocks@).len() == 0,
        ensures
            self.conflict_free_directions(row, col, arrived_blocks@).len() > 0 ==> r == self.conflict_free_directions(row, col, arrived_blocks@)[pick as int],
            self.conflict_free_directions(row, col, arrived_blocks@).len() == 0 ==> self.is_first_fewest(row, col, arrived_blocks@, r),
    {
        let available = self.free_directions(row, col, arrived_blocks);
        if available.len() > 0 {
            available[pick]
        } else {
            self.fewest_conflicts(row, col, arrived_blocks)
        }
    }

    /// Chooses the entry direction for the block bound for `(row, col)`: one
    /// of the conflict-free directions, drawn uniformly, where there is one;
    /// else the first direction with the fewest conflicts.
    pub fn choose_best_direction(&self, row: usize, col: usize, arrived_blocks: &ArrivedSet, rng: &mut rand::rngs::StdRng) -> (r: Direction)
        requires
            self.in_grid(row, col),
        ensures
            self.conflict_free_directions(row, col, arrived_blocks@).len() > 0 ==> self.conflict_free_directions(row, col, arrived_blocks@).contains(r),
            self.conflict_free_directions(row, col, arrived_blocks@).len() > 0 ==> !self.is_blocked(row, col, r, arrived_blocks@),
            self.conflict_free_directions(row, col, arrived_blocks@).len() == 0 ==> self.is_first_fewest(row, col, arrived_blocks@, r),
            self.conflict_free_directions(row, col, arrived_blocks@).len() == 0 ==> *final(rng) == *old(rng),
    {
        let available = self.free_directions(row, col, arrived_blocks);
        let pick = if available.len() > 0 {
            random_below(rng, available.len())
        } else {
            0
        };
        let r = self.choose_direction_with(row, col, arrived_blocks, pick);
        proof {
            if available@.len() > 0 {
                assert(available@[pick as int] == r);
                lemma_free_not_blocked(self, row, col, arrived_blocks@, pick as int);
            }
        }
        r
    }
}

} // verus!
