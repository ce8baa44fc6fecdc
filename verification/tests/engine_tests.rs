use splitter::engine::SplitEngine;
use splitter::frame::Frame;
use splitter::records::{default_categories, Category, Run};

fn frame(stage: u32, game_loop: u32, total: u32) -> Frame {
    Frame {
        difficulty: 0,
        stage,
        game_loop,
        scores: vec![total, 0, 0, 0, 0, 0, 0, 0],
    }
}

fn menu_frame() -> Frame {
    Frame {
        difficulty: 0,
        stage: 0,
        game_loop: 0,
        scores: vec![0; 8],
    }
}

fn fresh_engine() -> SplitEngine {
    SplitEngine::new(default_categories())
}

#[test]
fn fresh_engine_starts_idle_with_zero_comparison() {
    let e = fresh_engine();
    assert_eq!(e.current_category, 0);
    assert_eq!(e.current_run.splits, vec![0; 8]);
    assert_eq!(e.current_run.score, 0);
    assert_eq!(e.current_split, None);
    assert_eq!(e.current_split_score_offset, 0);
    assert_eq!(e.comparison.name, "<null>");
    assert_eq!(e.comparison.personal_best.splits, vec![0; 8]);
    assert_eq!(e.comparison.personal_best.score, 0);
    assert_eq!(e.comparison.best_splits, vec![0; 8]);
    assert!(e.last_frame.is_menu());
    assert_eq!(e.last_frame.difficulty, 0);
    assert_eq!(e.last_frame.game_loop, 0);
    assert_eq!(e.last_frame.total_score(), 0);
}

#[test]
fn two_stage_run_yields_expected_splits_and_records() {
    let mut e = fresh_engine();
    e.update_frame(menu_frame());
    e.update_frame(frame(1, 0, 100));
    e.update_frame(frame(2, 0, 250));
    e.update_frame(menu_frame());
    assert_eq!(e.current_run.splits, vec![100, 150, 0, 0, 0, 0, 0, 0]);
    assert_eq!(e.current_run.score, 250);
    assert_eq!(e.categories[0].best_splits[0], 100);
    assert_eq!(e.categories[0].best_splits[1], 150);
    assert_eq!(e.categories[0].personal_best.score, 250);
    assert_eq!(e.categories[0].personal_best.splits, vec![100, 150, 0, 0, 0, 0, 0, 0]);
}

#[test]
fn continue_resyncs_offset_and_never_goes_negative() {
    let mut e = fresh_engine();
    e.update_frame(menu_frame());
    e.update_frame(frame(1, 0, 100));
    e.update_frame(frame(2, 0, 500));
    // A continue resets the cumulative score below the segment offset.
    e.update_frame(frame(2, 0, 50));
    assert_eq!(e.current_split_score_offset, 0);
    assert_eq!(e.current_run.splits[1], 50);
    assert_eq!(e.current_run.score, 50);
}

#[test]
fn unsupported_difficulty_frames_change_nothing() {
    let mut e = fresh_engine();
    e.update_frame(menu_frame());
    e.update_frame(frame(1, 0, 100));
    let splits_before = e.current_run.splits.clone();
    let score_before = e.current_run.score;
    let stage_before = e.last_frame.stage;
    for stage in [0u32, 1, 2, 3] {
        let persist = e.update_frame(Frame {
            difficulty: 7,
            stage,
            game_loop: 0,
            scores: vec![999, 0, 0, 0, 0, 0, 0, 0],
        });
        assert!(!persist);
    }
    assert_eq!(e.current_run.splits, splits_before);
    assert_eq!(e.current_run.score, score_before);
    assert_eq!(e.last_frame.stage, stage_before);
    assert_eq!(e.categories[0].personal_best.score, 0);
}

#[test]
fn finalized_score_is_last_qualifying_total() {
    let mut e = fresh_engine();
    e.update_frame(menu_frame());
    e.update_frame(frame(1, 0, 123));
    e.update_frame(frame(2, 0, 456));
    e.update_frame(menu_frame());
    assert_eq!(e.categories[0].personal_best.score, 456);
}

#[test]
fn out_of_range_segment_index_is_dropped() {
    let mut e = fresh_engine();
    e.update_frame(menu_frame());
    // stage 12, loop 0 would be segment 11: outside the 8 slots.
    let persist = e.update_frame(frame(12, 0, 100));
    assert!(!persist);
    assert_eq!(e.last_frame.stage, 0);
    assert_eq!(e.current_run.score, 0);
    // stage 1, loop 5 would be a negative segment index.
    let persist = e.update_frame(frame(1, 5, 100));
    assert!(!persist);
    assert_eq!(e.current_run.score, 0);
}

#[test]
fn second_loop_stages_fill_upper_slots() {
    let mut e = fresh_engine();
    e.update_frame(menu_frame());
    e.update_frame(frame(1, 0, 10));
    e.update_frame(frame(5, 1, 60));
    assert_eq!(e.current_split, Some(3));
    assert_eq!(e.current_run.splits[3], 50);
}

#[test]
fn restart_on_first_stage_finalizes_prior_run() {
    let mut e = fresh_engine();
    e.update_frame(menu_frame());
    e.update_frame(frame(1, 0, 100));
    e.update_frame(frame(2, 0, 300));
    // Back to the first stage without a menu visit: a fresh run begins.
    e.update_frame(frame(1, 0, 50));
    // The prior run's records were absorbed when the reset fired.
    assert_eq!(e.categories[0].personal_best.score, 300);
    // The fresh run starts over, with the offset resynced to zero.
    assert_eq!(e.current_run.splits, vec![50, 0, 0, 0, 0, 0, 0, 0]);
    assert_eq!(e.current_run.score, 50);
}

#[test]
fn best_splits_and_personal_best_may_come_from_different_runs() {
    let mut c = Category::new("solo".to_string());
    c.update_from_run(&Run {
        splits: vec![300, 0, 0, 0, 0, 0, 0, 0],
        score: 300,
    });
    c.update_from_run(&Run {
        splits: vec![0, 200, 0, 0, 0, 0, 0, 0],
        score: 200,
    });
    assert_eq!(c.personal_best.score, 300);
    assert_eq!(c.personal_best.splits[1], 0);
    assert_eq!(c.best_splits[0], 300);
    assert_eq!(c.best_splits[1], 200);
}

#[test]
fn records_are_monotone_across_runs() {
    let mut c = Category::new("solo".to_string());
    let runs = [
        (vec![100u32, 50, 0, 0, 0, 0, 0, 0], 150u32),
        (vec![80, 90, 0, 0, 0, 0, 0, 0], 170),
        (vec![10, 10, 10, 0, 0, 0, 0, 0], 30),
    ];
    let mut last_best = c.best_splits.clone();
    let mut last_pb = c.personal_best.score;
    for (splits, score) in runs {
        c.update_from_run(&Run { splits, score });
        for i in 0..8 {
            assert!(c.best_splits[i] >= last_best[i]);
        }
        assert!(c.personal_best.score >= last_pb);
        last_best = c.best_splits.clone();
        last_pb = c.personal_best.score;
    }
    assert_eq!(c.personal_best.score, 170);
    assert_eq!(c.best_splits, vec![100, 90, 10, 0, 0, 0, 0, 0]);
}

#[test]
fn add_category_selects_it_and_empty_name_is_rejected() {
    let mut e = fresh_engine();
    let persist = e.add_category("Custom".to_string());
    assert!(persist);
    assert_eq!(e.categories.len(), 3);
    assert_eq!(e.current_category, 2);
    assert_eq!(e.categories[2].name, "Custom");
    let persist = e.add_category(String::new());
    assert!(!persist);
    assert_eq!(e.categories.len(), 3);
}

#[test]
fn rename_category_keeps_records() {
    let mut e = fresh_engine();
    e.update_frame(menu_frame());
    e.update_frame(frame(1, 0, 100));
    e.update_frame(menu_frame());
    let persist = e.rename_category("Renamed".to_string());
    assert!(persist);
    assert_eq!(e.categories[0].name, "Renamed");
    assert_eq!(e.categories[0].personal_best.score, 100);
    assert!(!e.rename_category(String::new()));
    assert_eq!(e.categories[0].name, "Renamed");
}

#[test]
fn delete_category_clamps_selection_and_keeps_one() {
    let mut e = fresh_engine();
    e.current_category = 1;
    assert!(e.delete_category());
    assert_eq!(e.categories.len(), 1);
    assert_eq!(e.current_category, 0);
    assert_eq!(e.categories[0].name, "Type-C");
    assert!(!e.delete_category());
    assert_eq!(e.categories.len(), 1);
}

#[test]
fn menu_frames_persist_records_every_time() {
    let mut e = fresh_engine();
    assert!(e.update_frame(menu_frame()));
    assert!(e.update_frame(menu_frame()));
}

#[test]
fn comparison_snapshot_taken_at_run_start() {
    let mut e = fresh_engine();
    e.update_frame(menu_frame());
    e.update_frame(frame(1, 0, 100));
    e.update_frame(menu_frame());
    // The records now hold 100; a new run snapshots them.
    e.update_frame(frame(1, 0, 40));
    assert_eq!(e.comparison.personal_best.score, 100);
}
