//! The configuration of the animation, the grid's class names, the visual
//! state of a block, and the whole pipeline from picture to schedule.
use vstd::prelude::*;
use vstd::string::StringExecFns;
use crate::grid::{GridBlock, partition, partition_of, views, lemma_shown_from, all_cells, lines_of, cell_block};
use crate::path::{Direction, PathCalculator};
use crate::schedule::{fits, is_schedule_of, schedule_blocks, sorted_by_id};
use crate::text::push_char;
use crate::timeline::{AnimationState, OpacityState};

verus! {

/// The tunables of the animation, chosen per device class. Times are in
/// milliseconds but for the opacity fade; opacities are in percent.
pub struct AnimationConfig {
    pub grid_rows: usize,
    pub grid_cols: usize,
    pub initial_delay_ms: u32,
    pub layer_interval_ms: u64,
    pub block_interval_ms: u64,
    pub movement_duration_ms: u64,
    pub opacity_transition_seconds: u32,
    pub arrived_dwell_ms: u64,
    pub opacity_moving_percent: u32,
    pub opacity_arrived_percent: u32,
    pub opacity_settled_percent: u32,
    pub scale_class: &'static str,
    pub position_classes: &'static str,
    pub text_classes: &'static str,
}

impl AnimationConfig {
    /// The timing that both presets share.
    pub open spec fn shared_timing(&self) -> bool {
        &&& self.grid_rows == 12
        &&& self.grid_cols == 12
        &&& self.initial_delay_ms == 500
        &&& self.layer_interval_ms == 4000
        &&& self.block_interval_ms == 2000
        &&& self.movement_duration_ms == 6000
        &&& self.opacity_transition_seconds == 3
        &&& self.arrived_dwell_ms == 0
        &&& self.opacity_moving_percent == 20
        &&& self.text_classes@ == "font-mono text-xs text-muted-foreground"@
    }

    /// A grid that the partition accepts.
    pub open spec fn wf(&self) -> bool {
        &&& self.grid_rows >= 1
        &&& self.grid_cols >= 1
        &&& self.grid_rows * self.grid_cols <= usize::MAX
    }

    pub fn desktop() -> (r: AnimationConfig)
        ensures
            r.shared_timing(),
            r.wf(),
            r.opacity_arrived_percent == 100,
            r.opacity_settled_percent == 40,
            r.scale_class@ == "scale-[70%]"@,
            r.position_classes@ == "-bottom-[30%] right-[5%]"@,
    {
        AnimationConfig {
            grid_rows: 12,
            grid_cols: 12,
            initial_delay_ms: 500,
            layer_interval_ms: 4000,
            block_interval_ms: 2000,
            movement_duration_ms: 6000,
            opacity_transition_seconds: 3,
            arrived_dwell_ms: 0,
            opacity_moving_percent: 20,
            opacity_arrived_percent: 100,
            opacity_settled_percent: 40,
            scale_class: "scale-[70%]",
            position_classes: "-bottom-[30%] right-[5%]",
            text_classes: "font-mono text-xs text-muted-foreground",
        }
    }

    pub fn mobile() -> (r: AnimationConfig)
        ensures
            r.shared_timing(),
            r.wf(),
            r.opacity_arrived_percent == 50,
            r.opacity_settled_percent == 25,
            r.scale_class@ == "scale-[55%] w-[130%]"@,
            r.position_classes@ == "-right-[18%] -bottom-[45%]"@,
    {
        AnimationConfig {
            grid_rows: 12,
            grid_cols: 12,
            initial_delay_ms: 500,
            layer_interval_ms: 4000,
            block_interval_ms: 2000,
            movement_duration_ms: 6000,
            opacity_transition_seconds: 3,
            arrived_dwell_ms: 0,
            opacity_moving_percent: 20,
            opacity_arrived_percent: 50,
            opacity_settled_percent: 25,
            scale_class: "scale-[55%] w-[130%]",
            position_classes: "-right-[18%] -bottom-[45%]",
            text_classes: "font-mono text-xs text-muted-foreground",
        }
    }

    /// The preset for a compact layout or for a wide one.
    pub fn for_device(is_mobile: bool) -> (r: AnimationConfig)
        ensures
            r.shared_timing(),
            r.wf(),
            r.opacity_arrived_percent == if is_mobile { 50u32 } else { 100u32 },
            r.opacity_settled_percent == if is_mobile { 25u32 } else { 40u32 },
            r.scale_class@ == if is_mobile { "scale-[55%] w-[130%]"@ } else { "scale-[70%]"@ },
            r.position_classes@ == if is_mobile {
                "-right-[18%] -bottom-[45%]"@
            } else {
                "-bottom-[30%] right-[5%]"@
            },
    {
        if is_mobile {
            AnimationConfig::mobile()
        } else {
            AnimationConfig::desktop()
        }
    }
}

/// The decimal digits of `n`.
pub open spec fn decimal(n: nat) -> Seq<char>
    decreases n,
{
    if n < 10 {
        seq![digit_char(n)]
    } else {
        decimal(n / 10) + seq![digit_char(n % 10)]
    }
}

pub open spec fn digit_char(d: nat) -> char {
    ((d + 48) as u8) as char
}

/// Appends the decimal digits of a number from 1 to 12.
fn push_small_number(s: &mut String, n: usize)
    requires
        1 <= n <= 12,
    ensures
        final(s)@ == old(s)@ + decimal(n as nat),
{
    if n < 10 {
        push_char(s, ((n as u8) + 48) as char);
        assert(final(s)@ =~= old(s)@ + decimal(n as nat));
    } else {
        push_char(s, '1');
        push_char(s, (((n - 10) as u8) + 48) as char);
        assert(decimal((n / 10) as nat) == seq!['1']);
        assert(final(s)@ =~= old(s)@ + decimal(n as nat));
    }
}

/// The column and row counts that the grid class names give a grid of
/// `rows` by `cols`: the size itself up to 12 by 12, any width up to 11 in
/// 12 rows, else 12 by 12.
pub open spec fn class_grid_size(rows: usize, cols: usize) -> (usize, usize) {
    if 1 <= rows <= 12 && rows == cols {
        (cols, rows)
    } else if rows == 12 && 1 <= cols <= 11 {
        (cols, 12)
    } else {
        (12, 12)
    }
}

/// The class names that lay out a grid of `rows` by `cols`.
pub fn get_grid_classes(rows: usize, cols: usize) -> (r: String)
    ensures
        r@ == "grid-cols-"@ + decimal(class_grid_size(rows, cols).0 as nat) + " grid-rows-"@ + decimal(
            class_grid_size(rows, cols).1 as nat,
        ),
{
    let (c, n) = if 1 <= rows && rows <= 12 && rows == cols {
        (cols, rows)
    } else if rows == 12 && 1 <= cols && cols <= 11 {
        (cols, 12)
    } else {
        (12, 12)
    };
    let mut s = String::from_str("grid-cols-");
    push_small_number(&mut s, c);
    s.append(" grid-rows-");
    push_small_number(&mut s, n);
    s
}

/// The grid line at which a block of row or column `i` starts: `i + 1` in
/// a grid of up to 12, else 1.
pub open spec fn start_line(i: usize) -> nat {
    if i < 12 {
        (i + 1) as nat
    } else {
        1
    }
}

/// The class names that place a block in cell `(row, col)`.
pub fn get_grid_position_classes(row: usize, col: usize) -> (r: String)
    ensures
        r@ == "row-start-"@ + decimal(start_line(row)) + " col-start-"@ + decimal(start_line(col)),
{
    let mut s = String::from_str("row-start-");
    push_small_number(&mut s, if row < 12 { row + 1 } else { 1 });
    s.append(" col-start-");
    push_small_number(&mut s, if col < 12 { col + 1 } else { 1 });
    s
}

/// Where a block is drawn.
#[derive(Clone, Copy, PartialEq, Eq, Debug, Structural)]
pub enum Placement {
    /// Far outside the viewport on the given side.
    Offscreen(Direction),
    /// In its grid cell.
    AtRest,
}

/// How one block is drawn at a moment of the animation.
pub struct BlockStyle {
    pub placement: Placement,
    pub opacity_percent: u32,
    /// The movement transition, with its delay in milliseconds, while the
    /// animation runs.
    pub movement_delay_ms: Option<u64>,
    /// The length of the opacity fade in seconds, once the block settles.
    pub fade_seconds: Option<u32>,
}

/// The opacity level of an opacity state under `config`.
pub open spec fn opacity_level(config: AnimationConfig, s: OpacityState) -> u32 {
    match s {
        OpacityState::Moving => config.opacity_moving_percent,
        OpacityState::Arrived => config.opacity_arrived_percent,
        OpacityState::Settled => config.opacity_settled_percent,
    }
}

/// How `block` is drawn while the animation is in `state` and the block in
/// `opacity`: before the start, off screen on its entry side at the settled
/// opacity; while it runs, moving to its cell after its delay; once complete,
/// at rest. A settled block fades to its level.
pub fn block_style(block: &GridBlock, state: AnimationState, opacity: OpacityState, config: &AnimationConfig) -> (r: BlockStyle)
    ensures
        state == AnimationState::Initial ==> {
            &&& r.placement == Placement::Offscreen(
                match block.from_edge {
                    Some(d) => d,
                    None => Direction::Left,
                },
            )
            &&& r.opacity_percent == config.opacity_settled_percent
            &&& r.movement_delay_ms is None
            &&& r.fade_seconds is None
        },
        state != AnimationState::Initial ==> {
            &&& r.placement == Placement::AtRest
            &&& r.opacity_percent == opacity_level(*config, opacity)
            &&& r.fade_seconds == if opacity == OpacityState::Settled {
                Some(config.opacity_transition_seconds)
            } else {
                None
            }
            &&& r.movement_delay_ms == if state == AnimationState::Animating {
                Some(block.delay_ms)
            } else {
                None
            }
        },
{
    let level = match opacity {
        OpacityState::Moving => config.opacity_moving_percent,
        OpacityState::Arrived => config.opacity_arrived_percent,
        OpacityState::Settled => config.opacity_settled_percent,
    };
    let fade = match opacity {
        OpacityState::Settled => Some(config.opacity_transition_seconds),
        _ => None,
    };
    match state {
        AnimationState::Initial => {
            let side = match block.from_edge {
                Some(d) => d,
                None => Direction::Left,
            };
            BlockStyle {
                placement: Placement::Offscreen(side),
                opacity_percent: config.opacity_settled_percent,
                movement_delay_ms: None,
                fade_seconds: None,
            }
        },
        AnimationState::Animating => BlockStyle {
            placement: Placement::AtRest,
            opacity_percent: level,
            movement_delay_ms: Some(block.delay_ms),
            fade_seconds: fade,
        },
        AnimationState::Complete => BlockStyle {
            placement: Placement::AtRest,
            opacity_percent: level,
            movement_delay_ms: None,
            fade_seconds: fade,
        },
    }
}

/// The blocks of a partition belong to its grid.
pub proof fn lemma_partition_fits(art: Seq<char>, blocks: Seq<GridBlock>, calc: PathCalculator)
    requires
        calc.grid_rows >= 1,
        calc.grid_cols >= 1,
        views(blocks) == partition_of(art, calc.grid_rows as int, calc.grid_cols as int),
    ensures
        forall|k: int| 0 <= k < blocks.len() ==> fits(calc, #[trigger] blocks[k]),
{
    let rows = calc.grid_rows as int;
    let cols = calc.grid_cols as int;
    let cells = all_cells(lines_of(art), rows, cols);
    assert forall|k: int| 0 <= k < blocks.len() implies fits(calc, #[trigger] blocks[k]) by {
        assert(views(blocks)[k] == blocks[k]@);
        lemma_shown_from(cells, k);
        let m = choose|m: int| 0 <= m < cells.len() && cells[m] == partition_of(art, rows, cols)[k];
        assert(cells[m] == cell_block(lines_of(art), rows, cols, m));
        vstd::arithmetic::div_mod::lemma_fundamental_div_mod(m, cols);
        assert(0 <= m / cols < rows) by (nonlinear_arith)
            requires m == cols * (m / cols) + m % cols, 0 <= m % cols, 0 <= m < rows * cols, cols >= 1;
    }
}

/// The whole pipeline: splits the picture into the configured grid and
/// schedules its blocks. The result is sorted by block id.
pub fn build_blocks(art: &str, config: &AnimationConfig, rng: &mut rand::rngs::StdRng) -> (r: Vec<GridBlock>)
    requires
        config.wf(),
    ensures
        exists|parts: Seq<GridBlock>, groups: Seq<Seq<usize>>, dirs: Seq<Direction>, delays: Seq<u64>|
            views(parts) == partition_of(art@, config.grid_rows as int, config.grid_cols as int) && #[trigger] is_schedule_of(
                parts,
                PathCalculator { grid_rows: config.grid_rows, grid_cols: config.grid_cols },
                config.layer_interval_ms,
                config.block_interval_ms,
                views(r@),
                groups,
                dirs,
                delays,
            ),
        sorted_by_id(views(r@)),
{
    let parts = partition(art, config.grid_rows, config.grid_cols);
    let calc = PathCalculator::new(config.grid_rows, config.grid_cols);
    proof {
        lemma_partition_fits(art@, parts@, calc);
    }
    schedule_blocks(&parts, &calc, config.layer_interval_ms, config.block_interval_ms, rng)
}

} // verus!
