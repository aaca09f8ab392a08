//! The partition of an ASCII-art picture into a grid of text blocks.
use vstd::prelude::*;
use crate::path::{Direction, PathCalculator, layer_of};
use crate::text::{chars_of, string_of};
use vstd::arithmetic::div_mod::lemma_fundamental_div_mod_converse;

verus! {

/// The text as a list of lines, split where `str::lines` splits it: at each
/// `'\n'`, dropping a `'\r'` just before it, and with no empty last line
/// after a final line ending.
pub open spec fn lines_of(s: Seq<char>) -> Seq<Seq<char>> {
    let (done, current) = scan_lines(s);
    if current.len() > 0 {
        done.push(current)
    } else {
        done
    }
}

/// The finished lines of `s` and the line still open at its end.
pub open spec fn scan_lines(s: Seq<char>) -> (Seq<Seq<char>>, Seq<char>)
    decreases s.len(),
{
    if s.len() == 0 {
        (Seq::empty(), Seq::empty())
    } else {
        let (done, current) = scan_lines(s.drop_last());
        if s.last() == '\n' {
            (done.push(strip_cr(current)), Seq::empty())
        } else {
            (done, current.push(s.last()))
        }
    }
}

pub open spec fn strip_cr(line: Seq<char>) -> Seq<char> {
    if line.len() > 0 && line.last() == '\r' {
        line.drop_last()
    } else {
        line
    }
}

/// The length of the longest line, in characters.
pub open spec fn max_len(lines: Seq<Seq<char>>) -> nat
    decreases lines.len(),
{
    if lines.len() == 0 {
        0
    } else if max_len(lines.drop_last()) >= lines.last().len() {
        max_len(lines.drop_last())
    } else {
        lines.last().len()
    }
}

pub open spec fn ceil_div(a: int, b: int) -> int {
    if a % b == 0 {
        a / b
    } else {
        a / b + 1
    }
}

pub open spec fn min(a: int, b: int) -> int {
    if a <= b {
        a
    } else {
        b
    }
}

/// The first line that grid row `r` covers.
pub open spec fn line_start(n_lines: int, rows: int, r: int) -> int {
    r * ceil_div(n_lines, rows)
}

/// One past the last line that grid row `r` covers: the last row reaches
/// the end of the text.
pub open spec fn line_end(n_lines: int, rows: int, r: int) -> int {
    if r == rows - 1 {
        n_lines
    } else {
        min((r + 1) * ceil_div(n_lines, rows), n_lines)
    }
}

/// The first character column that grid column `c` covers.
pub open spec fn char_start(width: int, cols: int, c: int) -> int {
    c * ceil_div(width, cols)
}

/// One past the last character column that grid column `c` covers: the last
/// column reaches the longest line's end.
pub open spec fn char_end(width: int, cols: int, c: int) -> int {
    if c == cols - 1 {
        width
    } else {
        (c + 1) * ceil_div(width, cols)
    }
}

/// The characters `start .. start + w` of `line`, padded with spaces past
/// its end.
pub open spec fn padded(line: Seq<char>, start: int, w: int) -> Seq<char> {
    Seq::new(w as nat, |j: int| if start + j < line.len() { line[start + j] } else { ' ' })
}

/// The lines joined with `'\n'` between them.
pub open spec fn join_lines(ls: Seq<Seq<char>>) -> Seq<char>
    decreases ls.len(),
{
    if ls.len() == 0 {
        Seq::empty()
    } else if ls.len() == 1 {
        ls[0]
    } else {
        join_lines(ls.drop_last()) + seq!['\n'] + ls.last()
    }
}

/// The text of grid cell `(r, c)`: the padded slices of the lines it covers,
/// joined with `'\n'`.
pub open spec fn cell_text(lines: Seq<Seq<char>>, rows: int, cols: int, r: int, c: int) -> Seq<char> {
    let lo = line_start(lines.len() as int, rows, r);
    let hi = line_end(lines.len() as int, rows, r);
    let a = char_start(max_len(lines) as int, cols, c);
    let e = char_end(max_len(lines) as int, cols, c);
    let w = if e > a { e - a } else { 0 };
    let n = if hi > lo { hi - lo } else { 0 };
    join_lines(Seq::new(n as nat, |t: int| padded(lines[lo + t], a, w)))
}

/// Whether a text holds nothing but spaces and newlines.
pub open spec fn is_blank(s: Seq<char>) -> bool {
    forall|k: int| 0 <= k < s.len() ==> #[trigger] s[k] == ' ' || s[k] == '\n'
}

/// What a block is, seen from the contracts.
pub ghost struct BlockView {
    pub content: Seq<char>,
    pub block_id: int,
    pub grid_row: int,
    pub grid_col: int,
    pub priority_layer: int,
    pub from_edge: Option<Direction>,
    pub delay_ms: int,
}

/// One block of the picture, bound for a fixed grid cell.
pub struct GridBlock {
    pub content: String,
    pub block_id: usize,
    pub grid_row: usize,
    pub grid_col: usize,
    pub delay_ms: u64,
    pub from_edge: Option<Direction>,
    pub priority_layer: usize,
}

impl View for GridBlock {
    type V = BlockView;

    open spec fn view(&self) -> BlockView {
        BlockView {
            content: self.content@,
            block_id: self.block_id as int,
            grid_row: self.grid_row as int,
            grid_col: self.grid_col as int,
            priority_layer: self.priority_layer as int,
            from_edge: self.from_edge,
            delay_ms: self.delay_ms as int,
        }
    }
}

/// The views of a list of blocks.
pub open spec fn views(blocks: Seq<GridBlock>) -> Seq<BlockView> {
    blocks.map_values(|b: GridBlock| b@)
}

/// The block of grid cell number `id`, in row-major order, before it is
/// scheduled.
pub open spec fn cell_block(lines: Seq<Seq<char>>, rows: int, cols: int, id: int) -> BlockView {
    let r = id / cols;
    let c = id % cols;
    BlockView {
        content: cell_text(lines, rows, cols, r, c),
        block_id: id,
        grid_row: r,
        grid_col: c,
        priority_layer: layer_of(rows, cols, r, c),
        from_edge: None,
        delay_ms: 0,
    }
}

/// Whether a block has something to show.
pub open spec fn shows_something(b: BlockView) -> bool {
    !is_blank(b.content)
}

/// The blocks of `s` that show something, in their order.
pub open spec fn shown(s: Seq<BlockView>) -> Seq<BlockView>
    decreases s.len(),
{
    if s.len() == 0 {
        s
    } else if shows_something(s.last()) {
        shown(s.drop_last()).push(s.last())
    } else {
        shown(s.drop_last())
    }
}

/// Every grid cell's block, in row-major order.
pub open spec fn all_cells(lines: Seq<Seq<char>>, rows: int, cols: int) -> Seq<BlockView> {
    Seq::new((rows * cols) as nat, |id: int| cell_block(lines, rows, cols, id))
}

/// The blocks of the picture: every grid cell in row-major order, but those
/// whose text is blank.
pub open spec fn partition_of(art: Seq<char>, rows: int, cols: int) -> Seq<BlockView> {
    shown(all_cells(lines_of(art), rows, cols))
}

/// The views of a list of lines.
pub open spec fn line_views(lines: Seq<Vec<char>>) -> Seq<Seq<char>> {
    lines.map_values(|l: Vec<char>| l@)
}

/// A join of blank lines is blank.
pub proof fn lemma_join_blank(ls: Seq<Seq<char>>)
    requires
        forall|t: int| 0 <= t < ls.len() ==> is_blank(#[trigger] ls[t]),
    ensures
        is_blank(join_lines(ls)),
    decreases ls.len(),
{
    if ls.len() > 1 {
        lemma_join_blank(ls.drop_last());
        let j = join_lines(ls);
        assert(is_blank(ls.last()));
        assert forall|k: int| 0 <= k < j.len() implies #[trigger] j[k] == ' ' || j[k] == '\n' by {
            let p = join_lines(ls.drop_last());
            if k < p.len() {
                assert(j[k] == p[k]);
            } else if k > p.len() {
                assert(j[k] == ls.last()[k - p.len() - 1]);
            }
        }
    } else if ls.len() == 1 {
        assert(is_blank(ls[0]));
    }
}

/// Splits text into lines where `str::lines` does.
pub fn split_lines(text: &Vec<char>) -> (r: Vec<Vec<char>>)
    ensures
        line_views(r@) == lines_of(text@),
{
    let mut done: Vec<Vec<char>> = Vec::new();
    let mut current: Vec<char> = Vec::new();
    let mut i: usize = 0;
    while i < text.len()
        invariant
            i <= text@.len(),
            (line_views(done@), current@) == scan_lines(text@.take(i as int)),
        decreases text@.len() - i,
    {
        assert(text@.take(i + 1).drop_last() =~= text@.take(i as int));
        let c = text[i];
        if c == '\n' {
            if current.len() > 0 && current[current.len() - 1] == '\r' {
                current.pop();
            }
            assert(line_views(done@.push(current)) =~= line_views(done@).push(current@));
            done.push(current);
            current = Vec::new();
            assert(current@ =~= Seq::<char>::empty());
        } else {
            current.push(c);
        }
        i = i + 1;
    }
    assert(text@.take(i as int) =~= text@);
    if current.len() > 0 {
        assert(line_views(done@.push(current)) =~= line_views(done@).push(current@));
        done.push(current);
    }
    done
}

/// The length of the longest line, in characters.
pub fn max_line_length(lines: &Vec<Vec<char>>) -> (r: usize)
    ensures
        r == max_len(line_views(lines@)),
{
    let mut m: usize = 0;
    let mut i: usize = 0;
    while i < lines.len()
        invariant
            i <= lines@.len(),
            m == max_len(line_views(lines@).take(i as int)),
        decreases lines@.len() - i,
    {
        assert(line_views(lines@).take(i + 1).drop_last() =~= line_views(lines@).take(i as int));
        if lines[i].len() > m {
            m = lines[i].len();
        }
        i = i + 1;
    }
    assert(line_views(lines@).take(i as int) =~= line_views(lines@));
    m
}

/// The characters `start .. start + w` of `line`, padded with spaces.
pub fn region_line(line: &Vec<char>, start: usize, w: usize) -> (r: Vec<char>)
    ensures
        r@ == padded(line@, start as int, w as int),
{
    let mut out: Vec<char> = Vec::new();
    let mut j: usize = 0;
    while j < w
        invariant
            j <= w,
            out@ =~= padded(line@, start as int, j as int),
        decreases w - j,
    {
        if start < line.len() && j < line.len() - start {
            out.push(line[start + j]);
        } else {
            out.push(' ');
        }
        j = j + 1;
    }
    out
}

/// `a / b` rounded up.
pub fn ceil_div_exec(a: usize, b: usize) -> (r: usize)
    requires
        b >= 1,
    ensures
        r == ceil_div(a as int, b as int),
{
    let q = a / b;
    if a % b == 0 {
        q
    } else {
        proof {
            vstd::arithmetic::div_mod::lemma_div_is_ordered_by_denominator(a as int, 2, b as int);
        }
        q + 1
    }
}

/// No line is longer than the longest.
pub proof fn lemma_max_len_ge(ls: Seq<Seq<char>>, t: int)
    requires
        0 <= t < ls.len(),
    ensures
        ls[t].len() <= max_len(ls),
    decreases ls.len(),
{
    if t < ls.len() - 1 {
        lemma_max_len_ge(ls.drop_last(), t);
        assert(ls.drop_last()[t] == ls[t]);
    }
}

/// The text of grid cell `(r, c)` where it may show something; `None` only
/// where that text is blank.
fn cell_content(
    lines: &Vec<Vec<char>>,
    rows: usize,
    cols: usize,
    r: usize,
    c: usize,
    lines_per_block: usize,
    chars_per_block: usize,
    width: usize,
) -> (res: Option<Vec<char>>)
    requires
        r < rows,
        c < cols,
        width == max_len(line_views(lines@)),
        lines_per_block == ceil_div(lines@.len() as int, rows as int),
        chars_per_block == ceil_div(width as int, cols as int),
    ensures
        match res {
            Some(v) => v@ == cell_text(line_views(lines@), rows as int, cols as int, r as int, c as int),
            None => is_blank(cell_text(line_views(lines@), rows as int, cols as int, r as int, c as int)),
        },
{
    let ghost ls = line_views(lines@);
    let ghost text = cell_text(ls, rows as int, cols as int, r as int, c as int);
    let ghost s_lo = line_start(ls.len() as int, rows as int, r as int);
    let ghost s_hi = line_end(ls.len() as int, rows as int, r as int);
    let ghost s_a = char_start(width as int, cols as int, c as int);
    let ghost s_e = char_end(width as int, cols as int, c as int);
    let ghost s_w = if s_e > s_a { s_e - s_a } else { 0 };
    let ghost s_n = if s_hi > s_lo { s_hi - s_lo } else { 0 };
    let ghost pieces = Seq::new(s_n as nat, |t: int| padded(ls[s_lo + t], s_a, s_w));
    assert(text == join_lines(pieces));
    assert(s_hi <= ls.len());
    let n_lines = lines.len();
    let lo = match r.checked_mul(lines_per_block) {
        Some(x) => x,
        None => {
            assert(pieces =~= Seq::<Seq<char>>::empty());
            return None;
        },
    };
    let hi = if r == rows - 1 {
        n_lines
    } else {
        match (r + 1).checked_mul(lines_per_block) {
            Some(x) => if x < n_lines {
                x
            } else {
                n_lines
            },
            None => n_lines,
        }
    };
    if lo >= hi {
        assert(pieces =~= Seq::<Seq<char>>::empty());
        return None;
    }
    let a = match c.checked_mul(chars_per_block) {
        Some(x) => x,
        None => {
            proof {
                assert forall|t: int| 0 <= t < pieces.len() implies is_blank(#[trigger] pieces[t]) by {
                    lemma_max_len_ge(ls, s_lo + t);
                }
                lemma_join_blank(pieces);
            }
            return None;
        },
    };
    if a >= width {
        assert forall|t: int| 0 <= t < pieces.len() implies is_blank(#[trigger] pieces[t]) by {
            lemma_max_len_ge(ls, s_lo + t);
        }
        proof {
            lemma_join_blank(pieces);
        }
        return None;
    }
    let w = if c == cols - 1 {
        width - a
    } else {
        chars_per_block
    };
    proof {
        if c != cols - 1 {
            assert((c + 1) * chars_per_block == c * chars_per_block + chars_per_block) by (nonlinear_arith);
        }
    }
    assert(w == s_w);
    let mut content: Vec<char> = Vec::new();
    let n = hi - lo;
    for t in 0..n
        invariant
            n == s_n,
            lo == s_lo,
            lo + n == hi,
            hi <= lines@.len(),
            ls == line_views(lines@),
            pieces.len() == n,
            forall|k: int| 0 <= k < n ==> #[trigger] pieces[k] == padded(ls[s_lo + k], s_a, s_w),
            a == s_a,
            w == s_w,
            content@ == join_lines(pieces.take(t as int)),
    {
        assert(pieces.take(t + 1).drop_last() =~= pieces.take(t as int));
        if t > 0 {
            content.push('\n');
        }
        let mut piece = region_line(&lines[lo + t], a, w);
        assert(piece@ == pieces[t as int]);
        content.append(&mut piece);
        proof {
            if t == 0 {
                assert(content@ =~= join_lines(pieces.take(1)));
            } else {
                assert(content@ =~= join_lines(pieces.take(t as int)) + seq!['\n'] + pieces[t as int]);
            }
        }
    }
    assert(pieces.take(n as int) =~= pieces);
    Some(content)
}

/// Whether the text holds nothing but spaces and newlines.
pub fn is_blank_text(v: &Vec<char>) -> (r: bool)
    ensures
        r == is_blank(v@),
{
    let mut i: usize = 0;
    while i < v.len()
        invariant
            i <= v@.len(),
            forall|k: int| 0 <= k < i ==> #[trigger] v@[k] == ' ' || v@[k] == '\n',
        decreases v@.len() - i,
    {
        if v[i] != ' ' && v[i] != '\n' {
            return false;
        }
        i = i + 1;
    }
    true
}

/// Splits the picture `art` into a grid of `rows` by `cols` blocks, in
/// row-major order, leaving out the cells whose text is blank.
pub fn partition(art: &str, rows: usize, cols: usize) -> (r: Vec<GridBlock>)
    requires
        rows >= 1,
        cols >= 1,
        rows * cols <= usize::MAX,
    ensures
        views(r@) == partition_of(art@, rows as int, cols as int),
{
    let chars = chars_of(art);
    let lines = split_lines(&chars);
    let width = max_line_length(&lines);
    let n_lines = lines.len();
    let lines_per_block = ceil_div_exec(n_lines, rows);
    let chars_per_block = ceil_div_exec(width, cols);
    let calc = PathCalculator::new(rows, cols);
    let ghost ls = line_views(lines@);
    let ghost cells = all_cells(ls, rows as int, cols as int);
    let mut blocks: Vec<GridBlock> = Vec::new();
    assert(cells.take(0) =~= Seq::<BlockView>::empty());
    assert(views(blocks@) =~= Seq::<BlockView>::empty());
    assert(0 * cols == 0);
    assert(shown(cells.take(0)) == Seq::<BlockView>::empty());
    for grid_y in 0..rows
        invariant
            rows * cols <= usize::MAX,
            cols >= 1,
            calc.grid_rows == rows && calc.grid_cols == cols,
            ls == line_views(lines@),
            ls == lines_of(art@),
            width == max_len(ls),
            lines_per_block == ceil_div(lines@.len() as int, rows as int),
            chars_per_block == ceil_div(width as int, cols as int),
            cells == all_cells(ls, rows as int, cols as int),
            views(blocks@) == shown(cells.take(grid_y * cols)),
    {
        assert((grid_y + 1) * cols <= rows * cols) by (nonlinear_arith)
            requires grid_y < rows, cols >= 1;
        assert((grid_y + 1) * cols == grid_y * cols + cols) by (nonlinear_arith);
        for grid_x in 0..cols
            invariant
                grid_y < rows,
                rows * cols <= usize::MAX,
                (grid_y + 1) * cols <= rows * cols,
                (grid_y + 1) * cols == grid_y * cols + cols,
                cols >= 1,
                calc.grid_rows == rows && calc.grid_cols == cols,
                ls == line_views(lines@),
                width == max_len(ls),
                lines_per_block == ceil_div(lines@.len() as int, rows as int),
                chars_per_block == ceil_div(width as int, cols as int),
                cells == all_cells(ls, rows as int, cols as int),
                views(blocks@) == shown(cells.take(grid_y * cols + grid_x)),
        {
            let block_id = grid_y * cols + grid_x;
            proof {
                lemma_fundamental_div_mod_converse(block_id as int, cols as int, grid_y as int, grid_x as int);
                assert(cells.take(block_id + 1).drop_last() =~= cells.take(block_id as int));
                assert(cells.take(block_id + 1).last() == cells[block_id as int]);
            }
            let ghost cell = cells[block_id as int];
            match cell_content(&lines, rows, cols, grid_y, grid_x, lines_per_block, chars_per_block, width) {
                Some(content) => {
                    if !is_blank_text(&content) {
                        let priority_layer = calc.manhattan_distance_to_center(grid_y, grid_x);
                        let block = GridBlock {
                            content: string_of(&content),
                            block_id,
                            grid_row: grid_y,
                            grid_col: grid_x,
                            delay_ms: 0,
                            from_edge: None,
                            priority_layer,
                        };
                        assert(block@ == cell);
                        assert(views(blocks@.push(block)) =~= views(blocks@).push(block@));
                        blocks.push(block);
                    }
                },
                None => {},
            }
        }
    }
    assert(cells.take(rows * cols) =~= cells);
    blocks
}

/// Every block that `shown` keeps is one of its input and shows something.
pub proof fn lemma_shown_from(s: Seq<BlockView>, k: int)
    requires
        0 <= k < shown(s).len(),
    ensures
        exists|m: int| 0 <= m < s.len() && s[m] == #[trigger] shown(s)[k],
        shows_something(shown(s)[k]),
    decreases s.len(),
{
    let rest = shown(s.drop_last());
    if shows_something(s.last()) && k == rest.len() {
        assert(s[s.len() - 1] == shown(s)[k]);
    } else {
        lemma_shown_from(s.drop_last(), k);
        let m = choose|m: int| 0 <= m < s.drop_last().len() && s.drop_last()[m] == shown(s.drop_last())[k];
        assert(s[m] == shown(s)[k]);
    }
}

/// `shown` keeps every block that shows something.
pub proof fn lemma_shown_keeps(s: Seq<BlockView>, m: int)
    requires
        0 <= m < s.len(),
        shows_something(s[m]),
    ensures
        shown(s).contains(s[m]),
    decreases s.len(),
{
    if m < s.len() - 1 {
        lemma_shown_keeps(s.drop_last(), m);
        assert(s.drop_last()[m] == s[m]);
        let k = choose|k: int| 0 <= k < shown(s.drop_last()).len() && shown(s.drop_last())[k] == s[m];
        assert(shown(s)[k] == s[m]);
    } else {
        assert(shown(s)[shown(s).len() - 1] == s[m]);
    }
}

/// `shown` keeps the order of its input: block ids that increase along the
/// input increase along the output.
pub proof fn lemma_shown_sorted(s: Seq<BlockView>)
    requires
        forall|a: int, b: int| 0 <= a < b < s.len() ==> s[a].block_id < s[b].block_id,
    ensures
        forall|a: int, b: int| 0 <= a < b < shown(s).len() ==> shown(s)[a].block_id < shown(s)[b].block_id,
    decreases s.len(),
{
    if s.len() > 0 {
        let d = s.drop_last();
        lemma_shown_sorted(d);
        if shows_something(s.last()) {
            assert forall|a: int, b: int| 0 <= a < b < shown(s).len() implies shown(s)[a].block_id < shown(s)[b].block_id by {
                if b == shown(s).len() - 1 {
                    lemma_shown_from(d, a);
                    let m = choose|m: int| 0 <= m < d.len() && d[m] == #[trigger] shown(d)[a];
                    assert(s[m] == shown(s)[a]);
                } else {
                    assert(shown(s)[a] == shown(d)[a]);
                    assert(shown(s)[b] == shown(d)[b]);
                }
            }
        }
    }
}

/// Block ids strictly increase along the partition, so no two blocks share
/// an id, and the blocks come in row-major order of their cells.
pub proof fn lemma_partition_ids_increase(art: Seq<char>, rows: int, cols: int)
    requires
        rows >= 1,
        cols >= 1,
    ensures
        forall|a: int, b: int|
            0 <= a < b < partition_of(art, rows, cols).len() ==> partition_of(art, rows, cols)[a].block_id
                < partition_of(art, rows, cols)[b].block_id,
{
    let cells = all_cells(lines_of(art), rows, cols);
    assert forall|a: int, b: int| 0 <= a < b < cells.len() implies cells[a].block_id < cells[b].block_id by {}
    lemma_shown_sorted(cells);
}

/// The partition depends on the picture and the grid size alone: two runs on
/// the same input give the same blocks, with the same ids, texts, cells and
/// layers.
pub proof fn lemma_partition_deterministic(art: Seq<char>, rows: int, cols: int, first: Seq<GridBlock>, second: Seq<GridBlock>)
    requires
        views(first) == partition_of(art, rows, cols),
        views(second) == partition_of(art, rows, cols),
    ensures
        views(first) == views(second),
        first.len() == second.len(),
        forall|k: int|
            0 <= k < first.len() ==> {
                &&& #[trigger] first[k].block_id == second[k].block_id
                &&& first[k].content@ == second[k].content@
                &&& first[k].grid_row == second[k].grid_row
                &&& first[k].grid_col == second[k].grid_col
                &&& first[k].priority_layer == second[k].priority_layer
            },
{
    assert(views(first).len() == first.len());
    assert(views(second).len() == second.len());
    assert forall|k: int| 0 <= k < first.len() implies {
        &&& #[trigger] first[k].block_id == second[k].block_id
        &&& first[k].content@ == second[k].content@
        &&& first[k].grid_row == second[k].grid_row
        &&& first[k].grid_col == second[k].grid_col
        &&& first[k].priority_layer == second[k].priority_layer
    } by {
        assert(views(first)[k] == first[k]@);
        assert(views(second)[k] == second[k]@);
    }
}

/// No line of a text holds a line feed.
pub proof fn lemma_lines_no_newline(s: Seq<char>)
    ensures
        forall|i: int, j: int|
            0 <= i < lines_of(s).len() && 0 <= j < lines_of(s)[i].len() ==> #[trigger] lines_of(s)[i][j] != '\n',
        forall|i: int, j: int|
            0 <= i < scan_lines(s).0.len() && 0 <= j < scan_lines(s).0[i].len() ==> #[trigger] scan_lines(s).0[i][j] != '\n',
        forall|j: int| 0 <= j < scan_lines(s).1.len() ==> #[trigger] scan_lines(s).1[j] != '\n',
    decreases s.len(),
{
    if s.len() > 0 {
        lemma_lines_no_newline(s.drop_last());
        let (done, current) = scan_lines(s.drop_last());
        if s.last() == '\n' {
            let st = strip_cr(current);
            assert forall|j: int| 0 <= j < st.len() implies st[j] != '\n' by {
                assert(st[j] == current[j]);
            }
        }
    }
}

/// `a <= b * ceil(a / b)`, with equality below `b` more.
pub proof fn lemma_ceil_div_bounds(a: int, b: int)
    requires
        a >= 0,
        b >= 1,
    ensures
        ceil_div(a, b) >= 0,
        a <= b * ceil_div(a, b),
        a >= 1 ==> ceil_div(a, b) >= 1,
{
    vstd::arithmetic::div_mod::lemma_fundamental_div_mod(a, b);
    let q = a / b;
    assert(q >= 0) by {
        vstd::arithmetic::div_mod::lemma_div_pos_is_pos(a, b);
    }
    if a % b != 0 {
        assert(b * (q + 1) == b * q + b) by (nonlinear_arith);
    }
    if a >= 1 && q == 0 {
        assert(b * q == 0) by (nonlinear_arith) requires q == 0;
    }
}

/// A position `i` with `r * q <= i < (r + 1) * q` lies in block `r` of size `q`.
pub proof fn lemma_locate(i: int, q: int, r: int)
    requires
        q >= 1,
        r * q <= i < (r + 1) * q,
    ensures
        r == i / q,
{
    assert((r + 1) * q == r * q + q) by (nonlinear_arith);
    assert(i == r * q + (i - r * q));
    assert(r * q == q * r) by (nonlinear_arith);
    lemma_fundamental_div_mod_converse(i, q, r, i - r * q);
}

/// In a join of lines of equal width `w`, character `x` of line `t` stands at
/// `t * (w + 1) + x`.
pub proof fn lemma_join_index(ps: Seq<Seq<char>>, w: int, t: int, x: int)
    requires
        w >= 0,
        forall|k: int| 0 <= k < ps.len() ==> (#[trigger] ps[k]).len() == w,
        0 <= t < ps.len(),
        0 <= x < w,
    ensures
        join_lines(ps).len() == ps.len() * (w + 1) - 1,
        join_lines(ps)[t * (w + 1) + x] == ps[t][x],
    decreases ps.len(),
{
    if ps.len() == 1 {
        assert(t == 0);
        assert(0 * (w + 1) == 0);
        assert(1 * (w + 1) == w + 1);
    } else {
        let d = ps.drop_last();
        let n = ps.len();
        assert((n - 1) * (w + 1) + (w + 1) == n * (w + 1)) by (nonlinear_arith);
        if t < n - 1 {
            lemma_join_index(d, w, t, x);
            assert(t * (w + 1) + x < (n - 1) * (w + 1) - 1) by (nonlinear_arith)
                requires t <= n - 2, x < w, w >= 0;
            assert(d[t] == ps[t]);
        } else {
            lemma_join_index(d, w, 0, 0);
            assert(t * (w + 1) == (n - 1) * (w + 1));
        }
    }
}

/// Whether block `b` covers character `j` of line `i`.
pub open spec fn covers(lines: Seq<Seq<char>>, rows: int, cols: int, b: BlockView, i: int, j: int) -> bool {
    &&& line_start(lines.len() as int, rows, b.grid_row) <= i < line_end(lines.len() as int, rows, b.grid_row)
    &&& char_start(max_len(lines) as int, cols, b.grid_col) <= j < char_end(max_len(lines) as int, cols, b.grid_col)
}

/// Where character `j` of line `i` stands in the text of block `b`.
pub open spec fn offset_in(lines: Seq<Seq<char>>, rows: int, cols: int, b: BlockView, i: int, j: int) -> int {
    let a = char_start(max_len(lines) as int, cols, b.grid_col);
    let w = char_end(max_len(lines) as int, cols, b.grid_col) - a;
    (i - line_start(lines.len() as int, rows, b.grid_row)) * (w + 1) + (j - a)
}

/// The row and column of the grid cell that covers character `j` of line `i`.
proof fn lemma_covering_cell(lines: Seq<Seq<char>>, rows: int, cols: int, b: BlockView, i: int, j: int)
    requires
        rows >= 1,
        cols >= 1,
        0 <= i < lines.len(),
        0 <= j < lines[i].len(),
        0 <= b.grid_row < rows,
        0 <= b.grid_col < cols,
        covers(lines, rows, cols, b, i, j),
    ensures
        b.grid_row == i / ceil_div(lines.len() as int, rows),
        b.grid_col == j / ceil_div(max_len(lines) as int, cols),
{
    let n = lines.len() as int;
    let m = max_len(lines) as int;
    lemma_max_len_ge(lines, i);
    lemma_ceil_div_bounds(n, rows);
    lemma_ceil_div_bounds(m, cols);
    let q = ceil_div(n, rows);
    let p = ceil_div(m, cols);
    let r = b.grid_row;
    let c = b.grid_col;
    assert(n <= rows * q);
    if r == rows - 1 {
        assert((r + 1) * q == rows * q);
    }
    lemma_locate(i, q, r);
    assert(m <= cols * p);
    if c == cols - 1 {
        assert((c + 1) * p == cols * p);
    }
    lemma_locate(j, p, c);
}

/// Every character of the picture other than a space is shown by exactly one
/// block: the block of the grid cell that covers it, at the place in its
/// text that the cell gives it.
pub proof fn lemma_partition_covers(art: Seq<char>, rows: int, cols: int, i: int, j: int)
    requires
        rows >= 1,
        cols >= 1,
        0 <= i < lines_of(art).len(),
        0 <= j < lines_of(art)[i].len(),
        lines_of(art)[i][j] != ' ',
    ensures
        exists|k: int|
            0 <= k < partition_of(art, rows, cols).len() && covers(lines_of(art), rows, cols, #[trigger] partition_of(art, rows, cols)[k], i, j)
                && partition_of(art, rows, cols)[k].content[offset_in(lines_of(art), rows, cols, partition_of(art, rows, cols)[k], i, j)]
                == lines_of(art)[i][j],
        forall|k1: int, k2: int|
            0 <= k1 < partition_of(art, rows, cols).len() && 0 <= k2 < partition_of(art, rows, cols).len()
                && covers(lines_of(art), rows, cols, #[trigger] partition_of(art, rows, cols)[k1], i, j)
                && covers(lines_of(art), rows, cols, #[trigger] partition_of(art, rows, cols)[k2], i, j) ==> k1 == k2,
{
    let lines = lines_of(art);
    let cells = all_cells(lines, rows, cols);
    let p = partition_of(art, rows, cols);
    let n = lines.len() as int;
    let m = max_len(lines) as int;
    lemma_max_len_ge(lines, i);
    lemma_lines_no_newline(art);
    lemma_ceil_div_bounds(n, rows);
    lemma_ceil_div_bounds(m, cols);
    let q = ceil_div(n, rows);
    let pw = ceil_div(m, cols);
    let r = i / q;
    let c = j / pw;
    vstd::arithmetic::div_mod::lemma_fundamental_div_mod(i, q);
    vstd::arithmetic::div_mod::lemma_fundamental_div_mod(j, pw);
    assert(0 <= r < rows) by (nonlinear_arith)
        requires i == q * r + i % q, 0 <= i % q, i >= 0, i < n, n <= rows * q, q >= 1;
    assert(0 <= c < cols) by (nonlinear_arith)
        requires j == pw * c + j % pw, 0 <= j % pw, j >= 0, j < m, m <= cols * pw, pw >= 1;
    let id = r * cols + c;
    assert(0 <= id < rows * cols) by (nonlinear_arith)
        requires id == r * cols + c, 0 <= r < rows, 0 <= c < cols;
    lemma_fundamental_div_mod_converse(id, cols, r, c);
    let cell = cells[id];
    assert(cell == cell_block(lines, rows, cols, id));
    // The cell covers the character.
    let lo = line_start(n, rows, r);
    let hi = line_end(n, rows, r);
    let a = char_start(m, cols, c);
    let e = char_end(m, cols, c);
    assert(q * r == r * q && pw * c == c * pw) by (nonlinear_arith);
    assert((r + 1) * q == r * q + q && (c + 1) * pw == c * pw + pw) by (nonlinear_arith);
    assert(lo <= i < hi);
    assert(a <= j < e);
    assert(covers(lines, rows, cols, cell, i, j));
    // The character stands at its place in the cell's text.
    let w = e - a;
    let pieces = Seq::new((hi - lo) as nat, |t: int| padded(lines[lo + t], a, w));
    assert(cell.content == join_lines(pieces));
    lemma_join_index(pieces, w, i - lo, j - a);
    let off = offset_in(lines, rows, cols, cell, i, j);
    assert(off == (i - lo) * (w + 1) + (j - a));
    assert(pieces[i - lo][j - a] == lines[i][j]);
    assert(0 <= off < cell.content.len()) by (nonlinear_arith)
        requires off == (i - lo) * (w + 1) + (j - a), 0 <= i - lo < hi - lo, 0 <= j - a < w,
            cell.content.len() == (hi - lo) * (w + 1) - 1;
    assert(cell.content[off] == lines[i][j]);
    assert(shows_something(cell));
    lemma_shown_keeps(cells, id);
    let k = choose|k: int| 0 <= k < p.len() && p[k] == cell;
    assert(covers(lines, rows, cols, p[k], i, j));
    // No other block covers it.
    lemma_partition_ids_increase(art, rows, cols);
    assert forall|k1: int, k2: int|
        0 <= k1 < p.len() && 0 <= k2 < p.len() && covers(lines, rows, cols, #[trigger] p[k1], i, j)
            && covers(lines, rows, cols, #[trigger] p[k2], i, j) implies k1 == k2 by {
        lemma_shown_from(cells, k1);
        lemma_shown_from(cells, k2);
        let m1 = choose|m1: int| 0 <= m1 < cells.len() && cells[m1] == p[k1];
        let m2 = choose|m2: int| 0 <= m2 < cells.len() && cells[m2] == p[k2];
        vstd::arithmetic::div_mod::lemma_fundamental_div_mod(m1, cols);
        vstd::arithmetic::div_mod::lemma_fundamental_div_mod(m2, cols);
        assert(0 <= m1 / cols < rows && 0 <= m2 / cols < rows) by (nonlinear_arith)
            requires m1 == cols * (m1 / cols) + m1 % cols, m2 == cols * (m2 / cols) + m2 % cols,
                0 <= m1 % cols, 0 <= m2 % cols, 0 <= m1 < rows * cols, 0 <= m2 < rows * cols, cols >= 1;
        lemma_covering_cell(lines, rows, cols, p[k1], i, j);
        lemma_covering_cell(lines, rows, cols, p[k2], i, j);
        assert(m1 == m2);
        if k1 < k2 {
            assert(p[k1].block_id < p[k2].block_id);
        } else if k2 < k1 {
            assert(p[k2].block_id < p[k1].block_id);
        }
    }
}

} // verus!
