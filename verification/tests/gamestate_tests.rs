use intfic::game_state::GameState;

#[test]
fn test_gamestate() {
    let mut test_state: GameState = GameState::new("Test_Game");

    assert_eq!(test_state.progress, (String::default(), String::default()));

    assert_eq!(test_state.get_flag("not_set"), false);
    test_state.set_flag("test", true);
    assert_eq!(test_state.get_flag("test"), true);
    test_state.set_flag("test", false);
    assert_eq!(test_state.get_flag("test"), false);

    assert_eq!(test_state.get_counter("not_set"), 0);
    assert_eq!(test_state.get_counter("score"), 0);
    test_state.add_score(50);
    assert_eq!(test_state.get_counter("score"), 50);
}

#[test]
fn fresh_state_reads_defaults() {
    let game = GameState::new("Defaults");
    assert_eq!(game.name, String::from("Defaults"));
    assert_eq!(game.get_flag("anything"), false);
    assert_eq!(game.get_flag(""), false);
    assert_eq!(game.get_counter("anything"), 0);
    assert_eq!(game.get_counter("score"), 0);
}

#[test]
fn counter_updates_are_additive() {
    let mut game = GameState::new("Counters");
    game.update_counter("gold", 50);
    assert_eq!(game.get_counter("gold"), 50);
    game.update_counter("gold", -50);
    assert_eq!(game.get_counter("gold"), 0);
    game.update_counter("gold", -7);
    assert_eq!(game.get_counter("gold"), -7);
    game.update_counter("gold", 10);
    assert_eq!(game.get_counter("gold"), 3);
}

#[test]
fn flag_writes_are_last_write_wins() {
    let mut game = GameState::new("Flags");
    game.set_flag("door_open", true);
    game.set_flag("door_open", true);
    game.set_flag("door_open", false);
    assert_eq!(game.get_flag("door_open"), false);
    game.set_flag("door_open", true);
    assert_eq!(game.get_flag("door_open"), true);
}

#[test]
fn set_progress_moves_position() {
    let mut game = GameState::new("Progress");
    game.set_progress("example_1.txt", "start");
    assert_eq!(
        game.progress,
        (String::from("example_1.txt"), String::from("start"))
    );
}

#[test]
fn restore_from_persisted_fields_is_lossless() {
    let mut game = GameState::new("Round Trip");
    game.set_progress("chapter_2.txt", "cliffhanger");
    game.set_flag("met_stranger", true);
    game.set_flag("saved", false);
    game.update_counter("score", 42);
    game.update_counter("shame", 3);

    let flags = game.flags.entries_vec().clone();
    let counters = game.counters.entries_vec().clone();
    let restored = GameState::restore(
        &game.name,
        &game.progress.0,
        &game.progress.1,
        &flags,
        &counters,
    );

    assert_eq!(restored, game);
    assert_eq!(restored.get_flag("met_stranger"), true);
    assert_eq!(restored.get_counter("score"), 42);
    assert_eq!(restored.get_counter("shame"), 3);
    assert_eq!(restored.progress, game.progress);
}

#[test]
fn check_game_over_reads_flag() {
    let mut game = GameState::new("Over");
    assert!(!game.check_game_over());
    game.set_flag("game_over", true);
    assert!(game.check_game_over());
}
