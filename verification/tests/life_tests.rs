use game_of_life::life::{partition, tick_interval, BoardState, Life, Shape, DEAD, LIVE};

fn live_indices(b: &BoardState) -> Vec<usize> {
    let mut out = Vec::new();
    for (i, c) in b.cells.iter().enumerate() {
        if *c == LIVE {
            out.push(i);
        }
    }
    out
}

#[test]
fn empty_board_is_all_dead() {
    let b = BoardState::new(4, 3, Shape::Empty);
    assert_eq!(b.width, 4);
    assert_eq!(b.height, 3);
    assert_eq!(b.cells, vec![DEAD; 12]);
}

#[test]
fn glider_board_has_the_five_offsets() {
    let b = BoardState::new(10, 10, Shape::Glider);
    assert_eq!(b.width, 10);
    assert_eq!(b.height, 10);
    assert_eq!(b.cells.len(), 100);
    assert_eq!(live_indices(&b), vec![1, 12, 20, 21, 22]);
}

#[test]
fn blinker_board_ignores_requested_dimensions() {
    let b = BoardState::new(9, 7, Shape::Blinker);
    assert_eq!(b.width, 5);
    assert_eq!(b.height, 5);
    assert_eq!(live_indices(&b), vec![7, 12, 17]);
}

#[test]
fn random_board_holds_only_cell_states() {
    let b = BoardState::new(10, 10, Shape::Random);
    assert_eq!(b.width, 10);
    assert_eq!(b.height, 10);
    assert_eq!(b.cells.len(), 100);
    for c in &b.cells {
        assert!(*c == DEAD || *c == LIVE);
    }
}

#[test]
fn get_index_reads_in_range_cells() {
    let b = BoardState::new(5, 5, Shape::Blinker);
    assert_eq!(b.get_index(2, 1), LIVE);
    assert_eq!(b.get_index(2, 2), LIVE);
    assert_eq!(b.get_index(2, 3), LIVE);
    assert_eq!(b.get_index(1, 1), DEAD);
}

#[test]
fn get_index_treats_out_of_range_as_dead() {
    let mut cells = vec![LIVE; 9];
    cells[4] = LIVE;
    let b = BoardState { width: 3, height: 3, cells };
    assert_eq!(b.get_index(-1, 0), DEAD);
    assert_eq!(b.get_index(0, -1), DEAD);
    assert_eq!(b.get_index(3, 0), DEAD);
    assert_eq!(b.get_index(0, 3), DEAD);
    assert_eq!(b.get_index(-1, -1), DEAD);
    assert_eq!(b.get_index(3, 3), DEAD);
}

#[test]
fn neighbor_count_at_corners_and_edges_sees_only_the_grid() {
    // On a fully live 3x3 board the neighbor counts show exactly how many
    // in-range neighbors each coordinate has: the dead fringe adds nothing.
    let b = BoardState {
        width: 3,
        height: 3,
        cells: vec![LIVE; 9],
    };
    assert_eq!(b.get_neighbors(0, 0), 3);
    assert_eq!(b.get_neighbors(2, 0), 3);
    assert_eq!(b.get_neighbors(0, 2), 3);
    assert_eq!(b.get_neighbors(2, 2), 3);
    assert_eq!(b.get_neighbors(1, 0), 5);
    assert_eq!(b.get_neighbors(0, 1), 5);
    assert_eq!(b.get_neighbors(2, 1), 5);
    assert_eq!(b.get_neighbors(1, 2), 5);
    assert_eq!(b.get_neighbors(1, 1), 8);
}

#[test]
fn neighbor_count_of_blinker_center_column() {
    let b = BoardState::new(5, 5, Shape::Blinker);
    assert_eq!(b.get_neighbors(2, 2), 2);
    assert_eq!(b.get_neighbors(2, 1), 1);
    assert_eq!(b.get_neighbors(1, 2), 3);
    assert_eq!(b.get_neighbors(3, 2), 3);
}

#[test]
fn partition_splits_evenly_with_remainder_to_the_last() {
    assert_eq!(partition(10, 3), vec![(0, 3), (3, 6), (6, 10)]);
    assert_eq!(partition(9, 1), vec![(0, 9)]);
    assert_eq!(partition(8, 4), vec![(0, 2), (2, 4), (4, 6), (6, 8)]);
}

#[test]
fn partition_clamps_excess_workers() {
    assert_eq!(partition(5, 8), vec![(0, 1), (1, 2), (2, 3), (3, 4), (4, 5)]);
    assert_eq!(partition(1, 16), vec![(0, 1)]);
    assert_eq!(partition(0, 4), vec![]);
}

#[test]
fn partition_covers_every_index_exactly_once() {
    for &(total, workers) in &[(25usize, 4usize), (7, 7), (100, 16), (3, 5), (1, 1)] {
        let intervals = partition(total, workers);
        assert_eq!(intervals.len(), workers.min(total));
        let mut seen = vec![0u32; total];
        for (from, to) in intervals {
            assert!(from <= to && to <= total);
            for k in from..to {
                seen[k] += 1;
            }
        }
        assert!(seen.iter().all(|&n| n == 1));
    }
}

#[test]
fn empty_grid_stays_empty() {
    // No live cell can appear from nothing.
    let mut game = Life::new(3, 3, Shape::Empty, 1);
    game.tick();
    assert_eq!(game.state.width, 3);
    assert_eq!(game.state.height, 3);
    assert_eq!(game.state.cells, vec![DEAD; 9]);
}

#[test]
fn isolated_live_cell_dies() {
    let mut cells = vec![DEAD; 25];
    cells[12] = LIVE;
    let mut game = Life::new(5, 5, Shape::Empty, 2);
    game.state = BoardState {
        width: 5,
        height: 5,
        cells,
    };
    game.tick();
    assert_eq!(game.state.cells, vec![DEAD; 25]);
}

#[test]
fn blinker_turns_horizontal_after_one_tick() {
    let mut game = Life::new(5, 5, Shape::Blinker, 2);
    game.tick();
    assert_eq!(game.state.width, 5);
    assert_eq!(game.state.height, 5);
    assert_eq!(live_indices(&game.state), vec![11, 12, 13]);
}

#[test]
fn blinker_oscillates_with_period_two() {
    let mut game = Life::new(5, 5, Shape::Blinker, 1);
    let start = game.state.cells.clone();
    game.tick();
    assert_ne!(game.state.cells, start);
    game.tick();
    assert_eq!(game.state.cells, start);
}

#[test]
fn glider_translates_one_step_diagonally_in_four_ticks() {
    let mut game = Life::new(10, 10, Shape::Glider, 3);
    let start = live_indices(&game.state);
    for _ in 0..4 {
        game.tick();
    }
    // Every live cell moved by (+1, +1): one row down, one column right.
    let expected: Vec<usize> = start.iter().map(|i| i + 10 + 1).collect();
    let mut moved = live_indices(&game.state);
    moved.sort();
    assert_eq!(moved, expected);
}

#[test]
fn same_request_gives_identical_generation_sequences() {
    for shape in [Shape::Empty, Shape::Glider, Shape::Blinker] {
        let mut a = Life::new(8, 8, shape, 2);
        let mut b = Life::new(8, 8, shape, 2);
        assert_eq!(a.state.cells, b.state.cells);
        for _ in 0..5 {
            a.tick();
            b.tick();
            assert_eq!(a.state.cells, b.state.cells);
        }
    }
}

#[test]
fn worker_count_does_not_change_the_output() {
    let mut one = Life::new(8, 8, Shape::Glider, 1);
    let mut four = Life::new(8, 8, Shape::Glider, 4);
    let mut sixteen = Life::new(8, 8, Shape::Glider, 16);
    for _ in 0..3 {
        one.tick();
        four.tick();
        sixteen.tick();
        assert_eq!(one.state.cells, four.state.cells);
        assert_eq!(one.state.cells, sixteen.state.cells);
    }
}

#[test]
fn excess_workers_still_advance_the_board() {
    let mut game = Life::new(2, 2, Shape::Empty, 16);
    game.tick();
    assert_eq!(game.state.cells, vec![DEAD; 4]);
}

#[test]
fn tick_interval_writes_only_its_range() {
    let state = BoardState::new(5, 5, Shape::Blinker);
    let mut buf = vec![DEAD; 25];
    // The middle row becomes the horizontal bar; outside [10, 15) nothing
    // may be written.
    tick_interval(&state, 10, 15, &mut buf);
    let mut expected = vec![DEAD; 25];
    expected[11] = LIVE;
    expected[12] = LIVE;
    expected[13] = LIVE;
    assert_eq!(buf, expected);
}

#[test]
fn render_text_draws_glyph_pairs_and_rows() {
    let b = BoardState {
        width: 2,
        height: 2,
        cells: vec![LIVE, DEAD, DEAD, LIVE],
    };
    let text = game_of_life::life::render_text(&b);
    let expected = format!(
        "{}{}\n{}{}\n",
        "\u{2588}\u{2588}", "\u{2591}\u{2591}", "\u{2591}\u{2591}", "\u{2588}\u{2588}"
    );
    assert_eq!(text, expected);
}

#[test]
fn render_text_of_blinker() {
    let b = BoardState::new(5, 5, Shape::Blinker);
    let text = game_of_life::life::render_text(&b);
    let dead_row = "\u{2591}\u{2591}".repeat(5);
    let bar_row = format!(
        "{}{}{}",
        "\u{2591}\u{2591}".repeat(2),
        "\u{2588}\u{2588}",
        "\u{2591}\u{2591}".repeat(2)
    );
    let expected = format!(
        "{}\n{}\n{}\n{}\n{}\n",
        dead_row, bar_row, bar_row, bar_row, dead_row
    );
    assert_eq!(text, expected);
}
