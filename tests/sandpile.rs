use sandpile::engine::Sandpile;
use sandpile::grid::{scale_class_of, Board};
use sandpile::speed::SpeedControl;
use sandpile::stats::CascadeStats;

fn total(board: &Board) -> u64 {
    let mut sum: u64 = 0;
    for i in 0..board.len() {
        sum += board.cell_at(i) as u64;
    }
    sum
}

fn cells(board: &Board) -> Vec<u8> {
    (0..board.len()).map(|i| board.cell_at(i)).collect()
}

#[test]
fn center_topples_on_three_by_three() {
    let mut board = Board::new(3, 3);
    board.set_cell(1, 1, 4);
    assert_eq!(board.collapse_pass(), 1);
    assert_eq!(board.cell(1, 1), 0);
    assert_eq!(board.cell(0, 1), 1);
    assert_eq!(board.cell(2, 1), 1);
    assert_eq!(board.cell(1, 0), 1);
    assert_eq!(board.cell(1, 2), 1);
    assert_eq!(board.cell(0, 0), 0);
    assert_eq!(board.cell(2, 2), 0);
    assert_eq!(board.collapse_pass(), 0);
}

#[test]
fn single_cell_grid_discards_all_grains() {
    let mut board = Board::new(1, 1);
    board.set_cell(0, 0, 4);
    assert_eq!(board.collapse_pass(), 1);
    assert_eq!(board.cell(0, 0), 0);
    assert_eq!(board.collapse_pass(), 0);
}

#[test]
fn closing_a_cascade_of_seven() {
    let mut stats = CascadeStats::new();
    assert_eq!(stats.recent_window(), vec![0; 10]);
    assert_eq!(stats.top_window(), vec![0; 10]);
    stats.on_cascade_closed(7);
    assert_eq!(stats.recent_window(), vec![7, 0, 0, 0, 0, 0, 0, 0, 0, 0]);
    assert_eq!(stats.top_window(), vec![7, 0, 0, 0, 0, 0, 0, 0, 0, 0]);
}

#[test]
fn engine_closes_cascade_of_seven() {
    let mut pile = Sandpile::new(3, 3);
    for _ in 0..7 {
        // the grid stays quiescent, so every tick drops a grain on the center
        // until it holds four
        if pile.board().cell(1, 1) == 4 {
            break;
        }
        assert_eq!(pile.tick_at(4), 0);
    }
    assert_eq!(pile.board().cell(1, 1), 4);
    assert_eq!(pile.tick_at(4), 1);
    assert_eq!(pile.cascade_total(), 1);
    assert_eq!(pile.tick_at(0), 0);
    assert_eq!(pile.cascade_total(), 0);
    assert_eq!(pile.stats().recent_window(), vec![1, 0, 0, 0, 0, 0, 0, 0, 0, 0]);
    assert_eq!(pile.stats().top_window(), vec![1, 0, 0, 0, 0, 0, 0, 0, 0, 0]);
    assert_eq!(pile.board().cell(0, 0), 1);
}

#[test]
fn pass_is_synchronous() {
    let mut board = Board::new(3, 1);
    board.set_cell(0, 0, 4);
    board.set_cell(1, 0, 3);
    assert_eq!(board.collapse_pass(), 1);
    assert_eq!(cells(&board), vec![0, 4, 0]);
    assert_eq!(board.collapse_pass(), 1);
    assert_eq!(cells(&board), vec![1, 0, 1]);
    assert_eq!(board.collapse_pass(), 0);
}

#[test]
fn two_neighbours_topple_together() {
    let mut board = Board::new(3, 1);
    board.set_cell(0, 0, 4);
    board.set_cell(1, 0, 4);
    assert_eq!(board.collapse_pass(), 2);
    assert_eq!(cells(&board), vec![1, 1, 1]);
}

#[test]
fn interior_pass_conserves_grains() {
    let mut board = Board::new(5, 5);
    board.set_cell(2, 2, 6);
    board.set_cell(1, 1, 2);
    let before = total(&board);
    assert_eq!(board.collapse_pass(), 1);
    assert_eq!(total(&board), before);
    assert_eq!(board.cell(2, 2), 2);
}

#[test]
fn boundary_pass_loses_one_grain_per_missing_neighbour() {
    // a corner has two missing neighbours, an edge cell one
    let mut board = Board::new(3, 3);
    board.set_cell(0, 0, 4);
    board.set_cell(1, 2, 5);
    let before = total(&board);
    assert_eq!(board.collapse_pass(), 2);
    assert_eq!(total(&board), before - 3);
    assert_eq!(cells(&board), vec![0, 1, 0, 1, 1, 0, 1, 1, 1]);
}

#[test]
fn quiescent_grid_stays_quiescent() {
    let mut board = Board::new(4, 3);
    for x in 0..4 {
        for y in 0..3 {
            board.set_cell(x, y, ((x + y) % 4) as u8);
        }
    }
    let before = cells(&board);
    assert_eq!(board.collapse_pass(), 0);
    assert_eq!(cells(&board), before);
    assert_eq!(board.collapse_pass(), 0);
    assert_eq!(cells(&board), before);
}

#[test]
fn cascade_total_is_sum_of_passes() {
    let mut pile = Sandpile::new(5, 5);
    for _ in 0..4 {
        pile.tick_at(12);
    }
    assert_eq!(pile.board().cell(2, 2), 4);
    let mut sum = 0u64;
    loop {
        let toppled = pile.tick_at(0);
        if toppled == 0 {
            break;
        }
        sum += toppled as u64;
        assert_eq!(pile.cascade_total(), sum);
    }
    assert_eq!(sum, 1);
    assert_eq!(pile.cascade_total(), 0);
    assert_eq!(pile.stats().recent_window()[0], sum);
}

#[test]
fn random_run_keeps_windows_well_formed() {
    let mut pile = Sandpile::new(6, 6);
    let mut closed = 0;
    for _ in 0..20000 {
        let before = pile.cascade_total();
        let toppled = pile.tick();
        if toppled == 0 && before > 0 {
            closed += 1;
            assert_eq!(pile.stats().recent_window()[0], before);
        }
        let top = pile.stats().top_window();
        assert_eq!(top.len(), 10);
        assert_eq!(pile.stats().recent_window().len(), 10);
        for i in 1..10 {
            assert!(top[i - 1] >= top[i]);
        }
        for i in 0..pile.board().len() {
            assert!(pile.board().cell_at(i) <= 7);
        }
    }
    assert!(closed > 0);
}

#[test]
fn top_window_keeps_ten_largest() {
    let mut stats = CascadeStats::new();
    let totals = [5u64, 3, 9, 1, 12, 7, 7, 2, 15, 4, 8, 11, 6];
    for t in totals {
        stats.on_cascade_closed(t);
    }
    assert_eq!(stats.top_window(), vec![15, 12, 11, 9, 8, 7, 7, 6, 5, 4]);
    assert_eq!(stats.recent_window(), vec![6, 11, 8, 4, 15, 2, 7, 7, 12, 1]);
    stats.on_cascade_closed(1);
    assert_eq!(stats.top_window(), vec![15, 12, 11, 9, 8, 7, 7, 6, 5, 4]);
    stats.on_cascade_closed(20);
    assert_eq!(stats.top_window(), vec![20, 15, 12, 11, 9, 8, 7, 7, 6, 5]);
}

#[test]
fn injection_adds_one_grain() {
    let mut board = Board::new(4, 4);
    for k in 1..=50u64 {
        board.inject_grain();
        assert_eq!(total(&board), k);
    }
}

#[test]
fn injection_at_index() {
    let mut board = Board::new(3, 2);
    board.inject_at(4);
    assert_eq!(board.cell(1, 1), 1);
    assert_eq!(total(&board), 1);
}

#[test]
fn injection_is_uniform() {
    let mut board = Board::new(10, 1);
    let trials = 2000u32;
    for _ in 0..trials {
        board.inject_grain();
    }
    let expected = trials as f64 / 10.0;
    let mut chi2 = 0.0;
    for i in 0..10 {
        let d = board.cell_at(i) as f64 - expected;
        chi2 += d * d / expected;
    }
    // nine degrees of freedom: 0.001 quantile is about 27.9
    assert!(chi2 < 40.0, "chi-square {}", chi2);
}

#[test]
fn render_shows_digits_and_plus() {
    let mut board = Board::new(3, 2);
    board.set_cell(0, 0, 1);
    board.set_cell(1, 0, 4);
    board.set_cell(2, 0, 9);
    board.set_cell(1, 1, 3);
    assert_eq!(board.render(), "14+\n030\n");
}

#[test]
fn scale_classes() {
    assert_eq!(scale_class_of(0), 0);
    assert_eq!(scale_class_of(3), 3);
    assert_eq!(scale_class_of(4), 4);
    assert_eq!(scale_class_of(5), 5);
    assert_eq!(scale_class_of(200), 5);
}

#[test]
fn speed_steps_and_clamps() {
    let mut speed = SpeedControl::new(10);
    speed.slower(1000);
    assert_eq!(speed.period_ms(), 20);
    speed.slower(1200);
    assert_eq!(speed.period_ms(), 120);
    speed.faster(1300);
    assert_eq!(speed.period_ms(), 20);
    speed.faster(1400);
    assert_eq!(speed.period_ms(), 0);
    speed.faster(5000);
    assert_eq!(speed.period_ms(), 0);
    assert_eq!(speed.last_press_ms(), 5000);

    let mut slow = SpeedControl::new(9950);
    slow.slower(100);
    assert_eq!(slow.period_ms(), 10000);
    slow.slower(10000);
    assert_eq!(slow.period_ms(), 10000);
}
