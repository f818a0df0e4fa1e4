use fever::game::{
    advance_level, check_lost_level, check_won_level, ensure_levels, game_completed, is_in_level,
    level_spawn_finished, level_spawn_started, lost_level, score_verdict, spawn_level,
    start_skybox_setup, update_current_score, verdict_phase, won_level, AfterWin, CurrentScore,
    GameLevel, LevelIndex, LevelList, LevelPhase, ScoreDisplay, ScoreGoal, ScoreVerdict,
};
use fever::states::{GameplayState, OverlayState, PauseState, ProgramState};

fn level(id: &str, scene: u32) -> GameLevel<u32> {
    GameLevel { id: id.to_string(), label: format!("Label {id}"), scene }
}

#[test]
fn ensure_levels_sorts_by_id_stably() {
    let mut list = LevelList(vec![level("level3", 3), level("level0", 0), level("level1", 1), level("level0", 9)]);
    ensure_levels(&mut list);
    let ids: Vec<&str> = list.0.iter().map(|l| l.id.as_str()).collect();
    assert_eq!(ids, vec!["level0", "level0", "level1", "level3"]);
    let scenes: Vec<u32> = list.0.iter().map(|l| l.scene).collect();
    assert_eq!(scenes, vec![0, 9, 1, 3]);
}

#[test]
fn ensure_levels_orders_like_str() {
    let words = ["b", "a", "ab", "", "ba", "Z", "é", "aa"];
    let mut list = LevelList(words.iter().enumerate().map(|(i, w)| level(w, i as u32)).collect());
    ensure_levels(&mut list);
    let mut expected: Vec<&str> = words.to_vec();
    expected.sort();
    let ids: Vec<&str> = list.0.iter().map(|l| l.id.as_str()).collect();
    assert_eq!(ids, expected);
}

#[test]
fn in_level_checks_current_id() {
    let l = level("level0", 0);
    assert!(is_in_level(Some(&l), "level0"));
    assert!(!is_in_level(Some(&l), "level3"));
    assert!(!is_in_level::<u32>(None, "level0"));
}

#[test]
fn spawn_level_in_and_out_of_range() {
    let list = LevelList(vec![level("a", 1), level("b", 2)]);
    assert_eq!(spawn_level(&list, LevelIndex(1)).unwrap().scene, 2);
    assert!(spawn_level(&list, LevelIndex(2)).is_none());
    let empty: LevelList<u32> = LevelList(vec![]);
    assert!(spawn_level(&empty, LevelIndex(0)).is_none());
}

#[test]
fn spawn_start_and_finish_hold_menu_pause() {
    let mut pause = PauseState::new(true);
    assert_eq!(level_spawn_started(&mut pause), (LevelPhase::Initializing, OverlayState::Loading));
    assert!(pause.menu_paused && pause.user_paused);
    assert_eq!(level_spawn_finished(&mut pause), (OverlayState::Hidden, LevelPhase::LevelLoaded));
    assert!(!pause.menu_paused && pause.user_paused);
}

#[test]
fn skybox_selection_decides_next_phase() {
    assert_eq!(start_skybox_setup(true), LevelPhase::LoadingSkybox);
    assert_eq!(start_skybox_setup(false), LevelPhase::Playing);
}

#[test]
fn score_verdicts() {
    let g = ScoreGoal { goal: 10, lose: -5 };
    assert_eq!(score_verdict(10, g), ScoreVerdict::Won);
    assert_eq!(score_verdict(11, g), ScoreVerdict::Won);
    assert_eq!(score_verdict(9, g), ScoreVerdict::Ongoing);
    assert_eq!(score_verdict(-4, g), ScoreVerdict::Ongoing);
    assert_eq!(score_verdict(-5, g), ScoreVerdict::Lost);
    // Win is checked first.
    assert_eq!(score_verdict(3, ScoreGoal { goal: 2, lose: 5 }), ScoreVerdict::Won);
    // The goal is cast as the original does (`goal as i32`).
    assert_eq!(score_verdict(0, ScoreGoal { goal: u32::MAX, lose: -100 }), ScoreVerdict::Won);
    assert_eq!(verdict_phase(ScoreVerdict::Won), Some(LevelPhase::Won));
    assert_eq!(verdict_phase(ScoreVerdict::Lost), Some(LevelPhase::Lost));
    assert_eq!(verdict_phase(ScoreVerdict::Ongoing), None);
}

#[test]
fn score_display_cases() {
    let g = ScoreGoal { goal: 10, lose: -5 };
    let s = CurrentScore { score: 4 };
    assert_eq!(update_current_score(LevelPhase::Playing, Some(s), None), ScoreDisplay::Keep);
    assert_eq!(update_current_score(LevelPhase::Playing, None, Some(g)), ScoreDisplay::Clear);
    assert_eq!(update_current_score(LevelPhase::Won, Some(s), Some(g)), ScoreDisplay::Keep);
    assert_eq!(
        update_current_score(LevelPhase::Playing, Some(s), Some(g)),
        ScoreDisplay::Show { score: 4, goal: 10, verdict: ScoreVerdict::Ongoing }
    );
}

#[test]
fn status_texts() {
    assert_eq!(won_level(), "Passed!");
    assert_eq!(lost_level(), "Failed...\nTry again!");
}

#[test]
fn after_win_advances_or_completes() {
    let list = LevelList(vec![level("a", 0), level("b", 1)]);
    assert_eq!(check_won_level(false, LevelIndex(0), &list), AfterWin::Wait);
    assert_eq!(check_won_level(true, LevelIndex(0), &list), AfterWin::Next(1));
    assert_eq!(check_won_level(true, LevelIndex(1), &list), AfterWin::Completed);
    assert_eq!(
        game_completed(),
        (ProgramState::Completed, LevelPhase::Initializing, GameplayState::Done, OverlayState::GameOverScreen)
    );
    assert_eq!(check_lost_level(false), None);
    assert_eq!(check_lost_level(true), Some(LevelPhase::Advance));
    assert_eq!(advance_level(), (OverlayState::Loading, GameplayState::Setup));
}
