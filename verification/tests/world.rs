use fever::animation::{clip_owner, plan_clips, ClipSource, NamedAnimationClips};
use fever::game::LevelPhase;
use fever::states::{
    check_windows_closed, is_game_active, is_in_menu, is_menu_paused, is_paused, is_user_paused,
    OverlayState, PauseState, ProgramState,
};
use fever::text::{eq_ignore_ascii_case, str_ends_with, str_eq, str_lt};
use fever::world::{
    apply_loaded_skybox, check_load_reflection_probe, check_load_skybox, check_skybox_setup,
    glass_transmission, side_resolution, start_grounding, uses_temporal_antialiasing, wants_collision,
    AreaContent, Antialiasing, BodyKind, GlassQuality, GroundStep, GroundWatch, ProbeStep,
    SkyImageStep, SkyboxModelStep, SkyboxSetup, TextureQuality, TransmissionQuality,
};

#[test]
fn overlay_kinds() {
    assert!(OverlayState::Hidden.is_hidden());
    assert!(OverlayState::EscapeMenu.is_menu());
    assert!(OverlayState::ControlsMenu.is_menu());
    assert!(!OverlayState::Loading.is_menu());
    assert!(!OverlayState::DebugGuiVisible.is_menu());
    assert!(OverlayState::DebugGuiVisible.is_debug());
    assert!(is_in_menu(OverlayState::MainMenu));
    assert!(is_game_active(ProgramState::InGame));
    assert!(!is_game_active(ProgramState::LaunchMenu));
    assert!(check_windows_closed(0));
    assert!(!check_windows_closed(1));
}

#[test]
fn pause_flags() {
    let mut p = PauseState::new(false);
    assert!(!is_paused(&p));
    p.set_menu_paused(true);
    assert!(is_paused(&p) && is_menu_paused(&p) && !is_user_paused(&p));
    p.set_user_paused(true);
    p.set_menu_paused(false);
    assert!(is_paused(&p) && is_user_paused(&p));
}

#[test]
fn text_helpers() {
    assert!(str_lt("abc", "abd"));
    assert!(str_lt("ab", "abc"));
    assert!(!str_lt("abc", "abc"));
    assert!(str_lt("Z", "a"));
    assert!(str_eq("x", "x"));
    assert!(!str_eq("x", "X"));
    assert!(eq_ignore_ascii_case("Hello", "hELLO"));
    assert!(!eq_ignore_ascii_case("Hello", "Hell"));
    assert!(!eq_ignore_ascii_case("é", "É"));
    assert!(str_ends_with("wall:nocol", ":nocol"));
    assert!(!str_ends_with("nocol", ":nocol"));
}

#[test]
fn area_and_tables() {
    assert!(AreaContent::Water.in_liquid());
    assert!(!AreaContent::Air.in_liquid());
    assert_eq!(side_resolution(TextureQuality::Low), 256);
    assert_eq!(side_resolution(TextureQuality::Medium), 512);
    assert_eq!(side_resolution(TextureQuality::High), 1024);
    assert_eq!(side_resolution(TextureQuality::Ultra), 1200);
    assert_eq!(glass_transmission(GlassQuality::Off), (0, TransmissionQuality::Low));
    assert_eq!(glass_transmission(GlassQuality::Medium), (1, TransmissionQuality::Medium));
    assert_eq!(glass_transmission(GlassQuality::Ultra), (3, TransmissionQuality::Ultra));
    assert!(uses_temporal_antialiasing(Antialiasing::TSAA));
    assert!(!uses_temporal_antialiasing(Antialiasing::Off));
    assert!(wants_collision(None));
    assert!(wants_collision(Some("wall")));
    assert!(!wants_collision(Some("wall:nocol")));
}

#[test]
fn sky_setup_flow() {
    let mut setup = SkyboxSetup::start();
    assert_eq!(check_skybox_setup(&setup), None);
    assert_eq!(check_load_skybox(&mut setup, Some(true)), SkyboxModelStep::Load);
    assert_eq!(apply_loaded_skybox(&mut setup, false, true), SkyImageStep::Wait);
    assert!(setup.waiting_skybox);
    assert_eq!(apply_loaded_skybox(&mut setup, true, true), SkyImageStep::Apply { with_probe: true });
    assert!(!setup.waiting_skybox && setup.waiting_reflections);
    assert_eq!(check_load_reflection_probe(&mut setup, true, true, true), ProbeStep::Wait);
    assert_eq!(check_load_reflection_probe(&mut setup, true, false, false), ProbeStep::Wait);
    assert_eq!(check_load_reflection_probe(&mut setup, true, false, true), ProbeStep::Build);
    assert_eq!(check_skybox_setup(&setup), Some(LevelPhase::Playing));

    let mut setup = SkyboxSetup::start();
    assert_eq!(check_load_skybox(&mut setup, None), SkyboxModelStep::Nothing);
    assert_eq!(check_load_reflection_probe(&mut setup, false, false, false), ProbeStep::Nothing);
    assert_eq!(check_skybox_setup(&setup), Some(LevelPhase::Playing));

    let mut setup = SkyboxSetup::start();
    assert_eq!(check_load_skybox(&mut setup, Some(false)), SkyboxModelStep::Remove);
    assert!(!setup.waiting_skybox);
}

#[test]
fn named_clips_later_wins() {
    let clips = NamedAnimationClips::new(vec![
        ("RESET".to_string(), 1),
        ("Walk".to_string(), 2),
        ("RESET".to_string(), 7),
    ]);
    assert_eq!(clips.clip_named("RESET"), Some(7));
    assert_eq!(clips.clip_named("Walk"), Some(2));
    assert_eq!(clips.clip_named("Run"), None);
    assert_eq!(NamedAnimationClips::default().clip_named("RESET"), None);
}

#[test]
fn clip_owner_resolution() {
    assert_eq!(clip_owner(&vec![vec![5], vec![5, 5]]), Some(5));
    assert_eq!(clip_owner(&vec![vec![5], vec![6]]), None);
    // Only the nearest player of each target counts.
    assert_eq!(clip_owner(&vec![vec![5, 6], vec![5, 7]]), Some(5));
    assert_eq!(clip_owner(&vec![vec![5, 6], vec![7]]), None);
    // Nearest players P1, P2, P2: the clip belongs to no one.
    assert_eq!(clip_owner(&vec![vec![1], vec![2], vec![2]]), None);
    // A target without an ancestor player gives no owner.
    assert_eq!(clip_owner(&vec![vec![5], vec![]]), None);
    assert_eq!(clip_owner(&vec![vec![], vec![]]), None);
    assert_eq!(clip_owner(&vec![]), None);
}

#[test]
fn ground_watch_runs_out() {
    assert!(start_grounding(Some(BodyKind::Dynamic)));
    assert!(start_grounding(Some(BodyKind::Kinematic)));
    assert!(!start_grounding(Some(BodyKind::Static)));
    assert!(!start_grounding(None));

    let mut w = GroundWatch::new();
    assert!(w.is_empty());
    w.watch(10);
    w.watch(20);
    assert_eq!(w.frames_of(10), Some(3));
    let mut ids = w.watched();
    ids.sort();
    assert_eq!(ids, vec![10, 20]);
    assert_eq!(w.step(10, false), GroundStep::Wait);
    assert_eq!(w.frames_of(10), Some(2));
    assert_eq!(w.step(10, false), GroundStep::Wait);
    assert_eq!(w.step(10, false), GroundStep::Finish { touched: false });
    assert_eq!(w.frames_of(10), None);
    assert_eq!(w.step(20, true), GroundStep::Finish { touched: true });
    assert!(w.is_empty());
}

fn clip(name: &str, targets: Vec<Vec<u64>>, loaded: bool) -> ClipSource {
    ClipSource { name: name.to_string(), targets, loaded }
}

#[test]
fn clips_planned_per_player() {
    let clips = vec![
        clip("walk", vec![vec![2], vec![2, 9]], true),
        clip("RESET", vec![vec![1]], true),
        clip("mixed", vec![vec![1], vec![2]], true),
        clip("RESET", vec![vec![2]], true),
        clip("late", vec![vec![1]], false),
        clip("RESET", vec![vec![2]], true),
        clip("jump", vec![vec![1]], true),
    ];
    let plan = plan_clips(&clips);
    assert!(!plan.retry);
    assert_eq!(plan.players.len(), 2);
    assert_eq!(plan.players[0].player, 2);
    assert_eq!(plan.players[0].clips, vec![0, 3, 5]);
    assert_eq!(plan.players[0].reset, Some(5));
    assert_eq!(plan.players[1].player, 1);
    assert_eq!(plan.players[1].clips, vec![1, 6]);
    assert_eq!(plan.players[1].reset, Some(1));
}

#[test]
fn clips_without_owner_retry() {
    let plan = plan_clips(&vec![clip("a", vec![vec![1], vec![2]], true), clip("b", vec![vec![3]], false)]);
    assert!(plan.retry);
    assert!(plan.players.is_empty());
    assert!(plan_clips(&vec![]).retry);
}
