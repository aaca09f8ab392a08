use bird_blog::animation::{
    block_style, build_blocks, get_grid_classes, get_grid_position_classes, AnimationConfig, Placement,
};
use bird_blog::grid::{partition, GridBlock};
use bird_blog::path::{ArrivedSet, Direction, PathCalculator};
use bird_blog::schedule::{layer_groups, schedule_blocks, sort_by_block_id};
use bird_blog::timeline::{AnimationState, OpacityState, Timeline};
use rand::rngs::StdRng;
use rand::SeedableRng;

fn line_config(rows: usize, cols: usize) -> AnimationConfig {
    AnimationConfig {
        grid_rows: rows,
        grid_cols: cols,
        initial_delay_ms: 500,
        layer_interval_ms: 4000,
        block_interval_ms: 2000,
        movement_duration_ms: 6000,
        opacity_transition_seconds: 3,
        arrived_dwell_ms: 0,
        opacity_moving_percent: 20,
        opacity_arrived_percent: 100,
        opacity_settled_percent: 40,
        scale_class: "scale-[70%]",
        position_classes: "",
        text_classes: "",
    }
}

fn arrived(cells: &[(usize, usize)]) -> ArrivedSet {
    let mut a = ArrivedSet::new();
    for &(r, c) in cells {
        a.insert(r, c);
    }
    a
}

#[test]
fn partition_drops_blank_cells() {
    let blocks = partition(" a b", 1, 4);
    assert_eq!(blocks.len(), 2);
    assert_eq!(blocks[0].block_id, 1);
    assert_eq!(blocks[0].content, "a");
    assert_eq!(blocks[0].priority_layer, 1);
    assert_eq!(blocks[1].block_id, 3);
    assert_eq!(blocks[1].content, "b");
    assert_eq!(blocks[1].grid_col, 3);
    assert_eq!(blocks[1].priority_layer, 1);
    assert!(blocks.iter().all(|b| b.from_edge.is_none() && b.delay_ms == 0));
}

#[test]
fn partition_of_empty_art_is_empty() {
    assert!(partition("", 12, 12).is_empty());
    assert!(partition("   \n  \n", 2, 2).is_empty());
}

#[test]
fn partition_joins_and_pads_lines() {
    let blocks = partition("ab\ncd\nef", 2, 1);
    assert_eq!(blocks.len(), 2);
    assert_eq!(blocks[0].content, "ab\ncd");
    assert_eq!(blocks[1].content, "ef");
    let blocks = partition("abc\nd", 1, 1);
    assert_eq!(blocks[0].content, "abc\nd  ");
    let blocks = partition("abcde\nx\r\n", 1, 2);
    assert_eq!(blocks[0].content, "abc\nx  ");
    assert_eq!(blocks[1].content, "de\n  ");
}

#[test]
fn partition_keeps_sparse_cells_with_tabs() {
    let blocks = partition("\t \n  ", 1, 1);
    assert_eq!(blocks.len(), 1);
    assert_eq!(blocks[0].content, "\t \n  ");
}

#[test]
fn partition_covers_every_character_once() {
    let art = "  /\\_/\\\n ( o.o )\n  > ^ <\n /     \\";
    let rows = 3;
    let cols = 4;
    let blocks = partition(art, rows, cols);
    let non_space: usize = art.chars().filter(|c| *c != ' ' && *c != '\n').count();
    let shown: usize = blocks
        .iter()
        .map(|b| b.content.chars().filter(|c| *c != ' ' && *c != '\n').count())
        .sum();
    assert_eq!(non_space, shown);
    for w in blocks.windows(2) {
        assert!(w[0].block_id < w[1].block_id);
    }
    for b in &blocks {
        assert_eq!(b.block_id, b.grid_row * cols + b.grid_col);
        assert!(b.grid_row < rows && b.grid_col < cols);
    }
}

#[test]
fn partition_is_deterministic() {
    let art = "ab cd\n  ef\ngh   i";
    let a = partition(art, 2, 3);
    let b = partition(art, 2, 3);
    assert_eq!(a.len(), b.len());
    for (x, y) in a.iter().zip(b.iter()) {
        assert_eq!(x.block_id, y.block_id);
        assert_eq!(x.content, y.content);
        assert_eq!((x.grid_row, x.grid_col, x.priority_layer), (y.grid_row, y.grid_col, y.priority_layer));
    }
}

#[test]
fn manhattan_distance_to_center_of_grid() {
    let calc = PathCalculator::new(12, 12);
    assert_eq!(calc.manhattan_distance_to_center(0, 0), 12);
    assert_eq!(calc.manhattan_distance_to_center(6, 6), 0);
    assert_eq!(calc.manhattan_distance_to_center(11, 3), 8);
    let line = PathCalculator::new(1, 4);
    assert_eq!(line.manhattan_distance_to_center(0, 0), 2);
    assert_eq!(line.manhattan_distance_to_center(0, 3), 1);
}

#[test]
fn paths_in_each_direction() {
    let calc = PathCalculator::new(3, 4);
    assert_eq!(calc.calculate_path(2, 1, Direction::Top), vec![(0, 1), (1, 1)]);
    assert_eq!(calc.calculate_path(0, 1, Direction::Bottom), vec![(1, 1), (2, 1)]);
    assert_eq!(calc.calculate_path(1, 2, Direction::Left), vec![(1, 0), (1, 1)]);
    assert_eq!(calc.calculate_path(1, 2, Direction::Right), vec![(1, 3)]);
    assert!(calc.calculate_path(0, 0, Direction::Top).is_empty());
}

#[test]
fn conflicts_are_detected_and_counted() {
    let calc = PathCalculator::new(5, 5);
    let a = arrived(&[(0, 2), (1, 2), (2, 4)]);
    assert!(calc.has_path_conflict(2, 2, Direction::Top, &a));
    assert!(calc.has_path_conflict(2, 2, Direction::Right, &a));
    assert!(!calc.has_path_conflict(2, 2, Direction::Bottom, &a));
    assert_eq!(calc.count_conflicts(2, 2, Direction::Top, &a), 2);
    assert_eq!(calc.count_conflicts(2, 2, Direction::Right, &a), 1);
    assert_eq!(calc.free_directions(2, 2, &a), vec![Direction::Bottom, Direction::Left]);
}

#[test]
fn all_blocked_center_falls_back_to_top() {
    let calc = PathCalculator::new(3, 3);
    let a = arrived(&[(0, 1), (1, 0), (1, 2), (2, 1)]);
    assert!(calc.free_directions(1, 1, &a).is_empty());
    assert_eq!(calc.fewest_conflicts(1, 1, &a), Direction::Top);
    let mut rng = StdRng::seed_from_u64(3);
    assert_eq!(calc.choose_best_direction(1, 1, &a, &mut rng), Direction::Top);
}

#[test]
fn fallback_prefers_fewest_conflicts() {
    let calc = PathCalculator::new(5, 5);
    let a = arrived(&[(0, 2), (1, 2), (2, 0), (2, 1), (3, 2), (2, 4)]);
    assert_eq!(calc.fewest_conflicts(2, 2, &a), Direction::Right);
    assert_eq!(calc.choose_direction_with(2, 2, &a, 0), Direction::Right);
}

#[test]
fn random_choice_is_conflict_free() {
    let calc = PathCalculator::new(3, 3);
    let a = arrived(&[(0, 1), (1, 0)]);
    for seed in 0..20 {
        let mut rng = StdRng::seed_from_u64(seed);
        let d = calc.choose_best_direction(1, 1, &a, &mut rng);
        assert!(d == Direction::Right || d == Direction::Bottom);
    }
    assert_eq!(calc.choose_direction_with(1, 1, &a, 1), Direction::Bottom);
}

#[test]
fn direction_names_and_order() {
    assert_eq!(Direction::all(), [Direction::Top, Direction::Right, Direction::Bottom, Direction::Left]);
    assert_eq!(Direction::Top.to_string(), "top");
    assert_eq!(Direction::Left.to_string(), "left");
}

#[test]
fn layered_delays_in_a_line() {
    let config = line_config(1, 4);
    for seed in 0..5 {
        let mut rng = StdRng::seed_from_u64(seed);
        let blocks = build_blocks("abcd", &config, &mut rng);
        let ids: Vec<usize> = blocks.iter().map(|b| b.block_id).collect();
        assert_eq!(ids, vec![0, 1, 2, 3]);
        assert_eq!(blocks[2].delay_ms, 0);
        assert_eq!(blocks[0].delay_ms, 8000);
        let mut middle = vec![blocks[1].delay_ms, blocks[3].delay_ms];
        middle.sort();
        assert_eq!(middle, vec![4000, 6000]);
        assert!(blocks.iter().all(|b| b.from_edge.is_some()));
    }
}

#[test]
fn schedule_is_sorted_whatever_the_shuffle() {
    let mut parts = partition("ab\ncd\nef\ngh", 4, 2);
    parts.reverse();
    let calc = PathCalculator::new(4, 2);
    for seed in 0..10 {
        let mut rng = StdRng::seed_from_u64(seed);
        let out = schedule_blocks(&parts, &calc, 4000, 2000, &mut rng);
        assert_eq!(out.len(), 8);
        for w in out.windows(2) {
            assert!(w[0].block_id < w[1].block_id);
        }
    }
}

#[test]
fn same_layer_delays_strictly_increase() {
    let parts = partition("abc\ndef\nghi", 3, 3);
    let calc = PathCalculator::new(3, 3);
    let mut rng = StdRng::seed_from_u64(11);
    let groups = layer_groups(&parts, &calc, &mut rng);
    let sizes: Vec<usize> = groups.iter().map(|g| g.len()).collect();
    assert_eq!(sizes, vec![1, 4, 4]);
    let mut rng = StdRng::seed_from_u64(11);
    let out = schedule_blocks(&parts, &calc, 4000, 2000, &mut rng);
    let mut ring: Vec<u64> = out.iter().filter(|b| b.priority_layer == 1).map(|b| b.delay_ms).collect();
    ring.sort();
    assert_eq!(ring, vec![4000, 6000, 8000, 10000]);
    assert_eq!(out[4].delay_ms, 0);
    assert_eq!(out[4].from_edge.is_some(), true);
}

#[test]
fn sorting_restores_block_order() {
    let mut blocks = partition("abc", 1, 3);
    blocks.reverse();
    sort_by_block_id(&mut blocks);
    let ids: Vec<usize> = blocks.iter().map(|b| b.block_id).collect();
    assert_eq!(ids, vec![0, 1, 2]);
}

#[test]
fn timeline_completes_after_last_arrival() {
    let config = line_config(1, 4);
    let mut rng = StdRng::seed_from_u64(5);
    let blocks = build_blocks(" a b", &config, &mut rng);
    let mut delays: Vec<u64> = blocks.iter().map(|b| b.delay_ms).collect();
    delays.sort();
    assert_eq!(delays, vec![0, 2000]);
    let timeline = Timeline::new(&blocks, 500, 6000, 0);
    assert_eq!(timeline.complete_ms, 8500);
    assert_eq!(timeline.start_ms, 500);
}

fn two_blocks() -> Vec<GridBlock> {
    let mut blocks = partition(" a b", 1, 4);
    blocks[0].delay_ms = 0;
    blocks[1].delay_ms = 2000;
    blocks
}

#[test]
fn timeline_states_move_forward() {
    let blocks = two_blocks();
    let mut t = Timeline::new(&blocks, 500, 6000, 0);
    assert_eq!(t.state, AnimationState::Initial);
    t.advance(100);
    assert_eq!(t.state, AnimationState::Initial);
    t.advance(500);
    assert_eq!(t.state, AnimationState::Animating);
    assert_eq!(t.opacity, vec![OpacityState::Moving, OpacityState::Moving]);
    t.advance(6500);
    assert_eq!(t.opacity, vec![OpacityState::Settled, OpacityState::Moving]);
    t.advance(8500);
    assert_eq!(t.state, AnimationState::Complete);
    assert_eq!(t.opacity, vec![OpacityState::Settled, OpacityState::Settled]);
    t.advance(0);
    assert_eq!(t.state, AnimationState::Complete);
    assert_eq!(t.opacity, vec![OpacityState::Settled, OpacityState::Settled]);
}

#[test]
fn timeline_with_dwell_shows_arrived() {
    let blocks = two_blocks();
    let mut t = Timeline::new(&blocks, 500, 6000, 1000);
    t.advance(6600);
    assert_eq!(t.opacity[0], OpacityState::Arrived);
    t.advance(7500);
    assert_eq!(t.opacity[0], OpacityState::Settled);
}

#[test]
fn wake_times_in_order() {
    let blocks = two_blocks();
    let t = Timeline::new(&blocks, 500, 6000, 0);
    assert_eq!(t.next_wake_ms(0), Some(500));
    assert_eq!(t.next_wake_ms(500), Some(6500));
    assert_eq!(t.next_wake_ms(6500), Some(8500));
    assert_eq!(t.next_wake_ms(8500), None);
}

#[test]
fn empty_timeline_completes_at_start() {
    let t = Timeline::new(&Vec::new(), 500, 6000, 0);
    assert_eq!(t.complete_ms, 500);
}

#[test]
fn styles_follow_the_states() {
    let config = AnimationConfig::desktop();
    let mut block = partition("x", 1, 1).remove(0);
    block.from_edge = Some(Direction::Bottom);
    block.delay_ms = 4000;
    let s = block_style(&block, AnimationState::Initial, OpacityState::Moving, &config);
    assert_eq!(s.placement, Placement::Offscreen(Direction::Bottom));
    assert_eq!(s.opacity_percent, 40);
    let s = block_style(&block, AnimationState::Animating, OpacityState::Moving, &config);
    assert_eq!(s.placement, Placement::AtRest);
    assert_eq!(s.opacity_percent, 20);
    assert_eq!(s.movement_delay_ms, Some(4000));
    assert_eq!(s.fade_seconds, None);
    let s = block_style(&block, AnimationState::Complete, OpacityState::Settled, &config);
    assert_eq!(s.opacity_percent, 40);
    assert_eq!(s.movement_delay_ms, None);
    assert_eq!(s.fade_seconds, Some(3));
    block.from_edge = None;
    let s = block_style(&block, AnimationState::Initial, OpacityState::Moving, &config);
    assert_eq!(s.placement, Placement::Offscreen(Direction::Left));
}

#[test]
fn presets_differ_in_opacity() {
    let d = AnimationConfig::desktop();
    let m = AnimationConfig::mobile();
    assert_eq!((d.grid_rows, d.grid_cols, d.initial_delay_ms), (12, 12, 500));
    assert_eq!((d.opacity_arrived_percent, d.opacity_settled_percent), (100, 40));
    assert_eq!((m.opacity_arrived_percent, m.opacity_settled_percent), (50, 25));
    assert_eq!(m.scale_class, "scale-[55%] w-[130%]");
    assert_eq!(AnimationConfig::for_device(true).opacity_settled_percent, 25);
    assert_eq!(AnimationConfig::for_device(false).opacity_settled_percent, 40);
    assert_eq!(AnimationConfig::for_device(true).scale_class, "scale-[55%] w-[130%]");
    assert_eq!(AnimationConfig::for_device(true).position_classes, "-right-[18%] -bottom-[45%]");
    assert_eq!(AnimationConfig::for_device(false).scale_class, "scale-[70%]");
    assert_eq!(AnimationConfig::for_device(false).position_classes, "-bottom-[30%] right-[5%]");
}

#[test]
fn grid_class_names() {
    assert_eq!(get_grid_classes(12, 12), "grid-cols-12 grid-rows-12");
    assert_eq!(get_grid_classes(3, 3), "grid-cols-3 grid-rows-3");
    assert_eq!(get_grid_classes(12, 5), "grid-cols-5 grid-rows-12");
    assert_eq!(get_grid_classes(5, 7), "grid-cols-12 grid-rows-12");
    assert_eq!(get_grid_position_classes(0, 11), "row-start-1 col-start-12");
    assert_eq!(get_grid_position_classes(20, 3), "row-start-1 col-start-4");
    assert_eq!(get_grid_position_classes(9, 9), "row-start-10 col-start-10");
}
