use fever::level_state::{queue_next_level, LevelId, LevelInfo, LevelRegistry, LevelState, QueueLevelError};

fn info(id: &str, name: &str) -> LevelInfo {
    LevelInfo::new(id.to_string(), name.to_string(), None)
}

#[test]
fn register_returns_definition_index() {
    let mut regy = LevelRegistry::new();
    assert_eq!(regy.register_level(info("a", "Alpha")), 0);
    assert_eq!(regy.register_level(info("b", "Beta")), 1);
    assert_eq!(regy.register_level(info("c", "Gamma")), 2);
    assert_eq!(regy.level_count(), 3);
    assert_eq!(regy.get_level_ids(), vec!["a".to_string(), "b".to_string(), "c".to_string()]);
}

#[test]
fn reregistering_replaces_in_place() {
    let mut regy = LevelRegistry::new();
    regy.register_level(info("a", "Alpha"));
    regy.register_level(info("b", "Beta"));
    assert_eq!(regy.register_level(info("a", "Alpha 2")), 0);
    assert_eq!(regy.level_count(), 2);
    assert_eq!(regy.level_name("a"), "Alpha 2");
    assert_eq!(regy.find_level("a").unwrap().name, "Alpha 2");
}

#[test]
fn find_and_contains() {
    let mut regy = LevelRegistry::new();
    regy.register_level(LevelInfo::new("x".to_string(), "X".to_string(), Some("maps/x.bsp".to_string())).with_test(true));
    assert!(regy.contains_level("x"));
    assert!(!regy.contains_level("y"));
    let found = regy.find_level("x").unwrap();
    assert_eq!(found.get_level_id(), "x");
    assert_eq!(found.get_bsp_path(), Some("maps/x.bsp".to_string()));
    assert!(found.is_test);
    assert!(regy.find_level("y").is_none());
}

#[test]
fn level_name_falls_back_to_id() {
    let mut regy = LevelRegistry::new();
    regy.register_level(info("a", "Alpha"));
    assert_eq!(regy.level_name("a"), "Alpha");
    assert_eq!(regy.level_name("zzz"), "zzz");
}

#[test]
fn next_defined_level_wraps_to_start() {
    let mut regy = LevelRegistry::new();
    regy.register_level(info("a", "Alpha"));
    regy.register_level(info("b", "Beta"));
    regy.set_start_level("a");
    assert_eq!(regy.start_level(), "a");
    assert_eq!(regy.next_defined_level("a"), "b");
    assert_eq!(regy.next_defined_level("b"), "a");
    assert_eq!(regy.next_defined_level("unknown"), "a");
}

#[test]
fn index_round_trip() {
    let mut regy = LevelRegistry::new();
    regy.register_level(info("a", "Alpha"));
    regy.register_level(info("b", "Beta"));
    for i in 0..regy.level_count() {
        let id = regy.level_index_id(i);
        assert_eq!(regy.level_id_index(&id), Some(i));
    }
    assert_eq!(regy.level_id_index("nope"), None);
}

#[test]
fn level_info_display_and_defaults() {
    let l = info("id1", "Nice Level");
    assert_eq!(l.display_name(), "Nice Level");
    assert!(!l.is_test);
    assert_eq!(l.clone().name, "Nice Level");
}

#[test]
fn level_state_only_solving_is_active() {
    assert!(LevelState::Solving.is_active());
    for s in [
        LevelState::Outside,
        LevelState::Exploring,
        LevelState::PreSolve,
        LevelState::Passed,
        LevelState::Failed,
        LevelState::Solved,
        LevelState::Advance,
    ] {
        assert!(!s.is_active());
    }
}

#[test]
fn queue_next_level_errors_and_success() {
    let mut regy = LevelRegistry::new();
    regy.register_level(info("a", "Alpha"));
    match queue_next_level(&LevelId(String::new()), &regy) {
        Err(e @ QueueLevelError::NoLevelId) => assert_eq!(e.message(), "No level id defined!"),
        other => panic!("unexpected {other:?}"),
    }
    match queue_next_level(&LevelId("zz".to_string()), &regy) {
        Err(e @ QueueLevelError::UnknownLevel(_)) => {
            assert_eq!(e.message(), "No level info for level 'zz' defined!")
        }
        other => panic!("unexpected {other:?}"),
    }
    assert!(matches!(queue_next_level(&LevelId("a".to_string()), &regy), Ok(LevelState::Outside)));
}
