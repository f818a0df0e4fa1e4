use fever::game::{LevelPhase, Scoreable};
use fever::logic::{
    check_fire, check_spawn_toggle, collision_sounds, find_owner, forced_outcome, in_hand_visible,
    is_base_mesh, may_catch, may_spawn_ball, other_collider, owner_name_is, score_gain, score_loss,
    score_catches, shake_clock_step, wants_trimesh_collider, Catch, FireInput, FireLatch, HandAction, Link, ShakeSound,
};
use fever::span::Span;

fn link(is_target: bool, is_scene_root: bool) -> Link {
    Link { is_target, is_scene_root }
}

#[test]
fn owner_is_first_target_before_scene_root() {
    assert_eq!(find_owner(&vec![link(false, false), link(true, false), link(true, false)]), Some(1));
    assert_eq!(find_owner(&vec![link(false, true), link(true, false)]), None);
    // A scene root that is itself a target is still found.
    assert_eq!(find_owner(&vec![link(false, false), link(true, true)]), Some(1));
    assert_eq!(find_owner(&vec![]), None);
    assert_eq!(find_owner(&vec![link(false, false), link(false, false)]), None);
}

#[test]
fn other_collider_of_contact() {
    assert_eq!(other_collider(5, 5, 7), Some(7));
    assert_eq!(other_collider(5, 7, 5), Some(7));
    assert_eq!(other_collider(5, 6, 7), None);
}

#[test]
fn spawn_toggle_flips_once_per_frame() {
    let players = vec![100u64];
    // The first player contact flips and stops the reading there; the later
    // one is left for the next frame.
    assert_eq!(check_spawn_toggle(false, 1, &vec![(1, 100), (100, 1)], &players), (true, Some(0)));
    assert_eq!(check_spawn_toggle(true, 1, &vec![(2, 100), (1, 100)], &players), (false, Some(1)));
    // Contacts that do not involve a player do nothing.
    assert_eq!(check_spawn_toggle(false, 1, &vec![(1, 55), (2, 100)], &players), (false, None));
}

#[test]
fn score_changes() {
    let s = Scoreable { gain: 3, lose: 2 };
    assert_eq!(score_gain(10, s), 13);
    assert_eq!(score_loss(10, s), 8);
    let even = Scoreable { gain: 4, lose: 4 };
    assert_eq!(score_loss(score_gain(-7, even), even), -7);
}

#[test]
fn fire_press_while_animating_is_held_for_next_frame() {
    let mut latch = FireLatch { pressed: false, released: false };
    let press = FireInput { just_pressed: true, just_released: false, released: false };
    let idle = FireInput { just_pressed: false, just_released: false, released: false };
    assert_eq!(check_fire(&mut latch, press, true), HandAction::Keep);
    assert!(latch.pressed);
    assert_eq!(check_fire(&mut latch, idle, true), HandAction::Show);
    assert!(!latch.pressed);
    assert_eq!(check_fire(&mut latch, idle, false), HandAction::Keep);
}

#[test]
fn fire_release_while_animating_is_held() {
    let mut latch = FireLatch { pressed: false, released: false };
    let release = FireInput { just_pressed: false, just_released: true, released: true };
    let up = FireInput { just_pressed: false, just_released: false, released: true };
    assert_eq!(check_fire(&mut latch, release, true), HandAction::Keep);
    assert!(latch.released);
    assert_eq!(check_fire(&mut latch, up, true), HandAction::Hide);
    assert!(!latch.released);
}

#[test]
fn fire_immediate_show_and_hide() {
    let mut latch = FireLatch { pressed: false, released: false };
    let press = FireInput { just_pressed: true, just_released: false, released: false };
    let release = FireInput { just_pressed: false, just_released: true, released: true };
    assert_eq!(check_fire(&mut latch, press, false), HandAction::Show);
    assert_eq!(check_fire(&mut latch, release, false), HandAction::Hide);
    // Pressed and released in one frame: showing wins.
    let both = FireInput { just_pressed: true, just_released: true, released: true };
    assert_eq!(check_fire(&mut latch, both, false), HandAction::Show);
}

#[test]
fn forced_outcomes() {
    assert_eq!(forced_outcome(false, false), None);
    assert_eq!(forced_outcome(true, false), Some(LevelPhase::Lost));
    assert_eq!(forced_outcome(false, true), Some(LevelPhase::Won));
    assert_eq!(forced_outcome(true, true), Some(LevelPhase::Won));
}

#[test]
fn shake_clock_grows_and_runs_down() {
    let mut clock = Span::zero();
    let frame = Span { secs: 0, nanos: 600_000_000 };
    assert_eq!(shake_clock_step(&mut clock, true, frame, false), ShakeSound::Start);
    assert_eq!(clock, Span { secs: 0, nanos: 600_000_000 });
    assert_eq!(shake_clock_step(&mut clock, true, frame, true), ShakeSound::Keep);
    assert_eq!(clock, Span { secs: 1, nanos: 200_000_000 });
    assert_eq!(shake_clock_step(&mut clock, false, frame, true), ShakeSound::Keep);
    assert_eq!(clock, Span { secs: 0, nanos: 600_000_000 });
    assert_eq!(shake_clock_step(&mut clock, false, Span::from_secs(5), true), ShakeSound::Stop);
    assert!(clock.is_zero());
    // Already at rest: nothing more happens.
    assert_eq!(shake_clock_step(&mut clock, false, frame, true), ShakeSound::Keep);
}

#[test]
fn spawn_gate_and_hand_visibility() {
    assert!(may_spawn_ball(true, 99));
    assert!(!may_spawn_ball(true, 100));
    assert!(!may_spawn_ball(false, 0));
    assert!(in_hand_visible(false));
    assert!(!in_hand_visible(true));
    assert!(may_catch(1, true));
    assert!(!may_catch(2, true));
    assert!(!may_catch(1, false));
}

#[test]
fn collision_sounds_are_capped() {
    let t = link(true, false);
    let n = link(false, false);
    let root = link(false, true);
    assert_eq!(collision_sounds(&vec![t, t, t, t], 0), 3);
    assert_eq!(collision_sounds(&vec![t, root, t], 0), 1);
    assert_eq!(collision_sounds(&vec![n, t], 2), 3);
    assert_eq!(collision_sounds(&vec![t, t], 5), 6);
    assert_eq!(collision_sounds(&vec![n, n], 5), 5);
}

#[test]
fn mesh_names() {
    let names = vec![None, Some("Part".to_string()), Some("base".to_string())];
    assert!(owner_name_is(&names, "Base"));
    assert!(!owner_name_is(&names, "Tube"));
    assert!(wants_trimesh_collider(&names));
    assert!(wants_trimesh_collider(&vec![Some("TUBE".to_string())]));
    assert!(!wants_trimesh_collider(&vec![Some("Tubes".to_string())]));
    assert!(is_base_mesh("basex"));
    assert!(!is_base_mesh("base"));
}

#[test]
fn catches_count_each_ball_once() {
    let catches = vec![
        Catch { ball: 1, gain: Some(3) },
        Catch { ball: 2, gain: None },
        Catch { ball: 1, gain: Some(3) },
        Catch { ball: 4, gain: Some(5) },
    ];
    assert_eq!(score_catches(10, &catches), Some((18, vec![1, 2, 4])));
    assert_eq!(score_catches(-2, &vec![]), Some((-2, vec![])));
}

#[test]
fn catches_that_overflow_the_score() {
    let catches = vec![Catch { ball: 1, gain: Some(2) }, Catch { ball: 1, gain: Some(2) }];
    assert_eq!(score_catches(i32::MAX - 2, &catches), Some((i32::MAX, vec![1])));
    assert_eq!(score_catches(i32::MAX - 1, &catches), None);
}
