use jump_cube::state::{AppState, MyApp};
use jump_cube::state::game::{
    setup_stage, stage_title, total_stages, update_apply_velocity, update_check_for_collisions, update_check_goal,
    update_player, update_reset_game, Contact, LandingSound,
};
use jump_cube::state::ending;

fn no_contact() -> Contact {
    Contact { is_ground: false, hit_top: false, hit_side: false, moving_up: false, pushed_vertically: false, pushed_up: false }
}

#[test]
fn default_state_starts_a_run() {
    let app = MyApp::default();
    assert_eq!(app.stage_count, 1);
    assert_eq!(app.jump_count, 0);
    assert!(!app.is_clear && !app.is_reset_game && !app.is_ground && !app.is_rising);
}

#[test]
fn stage_titles() {
    assert_eq!(stage_title(1), "Stage 1");
    assert_eq!(stage_title(2), "Stage 2");
    assert_eq!(stage_title(3), "Last Stage");
    assert_eq!(stage_title(12), "Stage 12");
    assert_eq!(total_stages(), "(Total 3 Stages)");
}

#[test]
fn run_ends_after_third_goal() {
    let mut app = MyApp::default();
    assert_eq!(update_check_goal(&mut app, true), None);
    assert_eq!(app.stage_count, 2);
    assert!(app.is_reset_game);
    app.is_reset_game = false;
    assert_eq!(update_check_goal(&mut app, true), None);
    assert_eq!(app.stage_count, 3);
    assert_eq!(update_check_goal(&mut app, true), Some(AppState::Ending));
    assert_eq!(app.stage_count, 4);
}

#[test]
fn no_goal_changes_nothing() {
    let mut app = MyApp::default();
    app.stage_count = 2;
    let before = app;
    assert_eq!(update_check_goal(&mut app, false), None);
    assert_eq!(app, before);
}

#[test]
fn setup_at_stage_one_starts_new_run() {
    let mut app = MyApp::default();
    app.jump_count = 42;
    app.is_clear = true;
    app.is_ground = true;
    let setup = setup_stage(&mut app);
    assert!(setup.new_run);
    assert_eq!(app.jump_count, 0);
    assert!(app.is_clear);
    assert!(!app.is_ground);
    assert_eq!(setup.title, "Stage 1");
    assert!(setup.layout.show_goal_number);
}

#[test]
fn setup_at_later_stage_keeps_run() {
    let mut app = MyApp::default();
    app.stage_count = 3;
    app.jump_count = 9;
    let setup = setup_stage(&mut app);
    assert!(!setup.new_run);
    assert_eq!(app.jump_count, 9);
    assert_eq!(setup.title, "Last Stage");
    assert_eq!(setup.layout.height, 60);
    assert_eq!(setup.layout.goal_label, "GOAL!");
}

#[test]
fn reset_lays_out_only_when_due() {
    let mut app = MyApp::default();
    assert!(update_reset_game(&mut app).is_none());
    app.is_reset_game = true;
    app.stage_count = 2;
    let layout = update_reset_game(&mut app).unwrap();
    assert!(!app.is_reset_game);
    assert_eq!(layout.height, 40);
    let before = app;
    assert!(update_reset_game(&mut app).is_none());
    assert_eq!(app, before);
}

#[test]
fn reset_not_due_at_any_stage_changes_nothing() {
    let mut app = MyApp::default();
    app.stage_count = u32::MAX;
    let before = app;
    assert!(update_reset_game(&mut app).is_none());
    assert_eq!(app, before);
}

#[test]
fn contact_never_lifts_a_grounded_player() {
    let mut app = MyApp::default();
    app.is_ground = true;
    let out = update_check_for_collisions(&mut app, no_contact());
    assert!(app.is_ground);
    assert_eq!(out.sound, None);
    app.is_rising = false;
    let head = Contact { hit_top: true, moving_up: true, ..no_contact() };
    update_check_for_collisions(&mut app, head);
    assert!(!app.is_rising && app.is_ground);
}

#[test]
fn jump_on_release_while_grounded() {
    let mut app = MyApp::default();
    app.is_ground = true;
    assert!(!update_player(&mut app, true, false));
    assert!(app.is_bend);
    assert!(update_player(&mut app, false, true));
    assert_eq!(app.jump_count, 1);
    assert!(app.is_jump && app.is_rising && !app.is_ground && !app.is_bend);
}

#[test]
fn no_double_jump() {
    let mut app = MyApp::default();
    app.is_ground = true;
    assert!(update_player(&mut app, false, true));
    assert!(!update_player(&mut app, false, true));
    assert_eq!(app.jump_count, 1);
    assert!(!app.is_jump);
}

#[test]
fn no_jump_in_the_air() {
    let mut app = MyApp::default();
    assert!(!update_player(&mut app, true, false));
    assert!(!app.is_bend);
    assert!(!update_player(&mut app, false, true));
    assert_eq!(app.jump_count, 0);
}

#[test]
fn landing_sounds_once() {
    let mut app = MyApp::default();
    let landing = Contact { is_ground: true, pushed_vertically: true, pushed_up: true, ..no_contact() };
    let out = update_check_for_collisions(&mut app, landing);
    assert_eq!(out.sound, Some(LandingSound::Landing));
    assert!(!out.stop_rising);
    assert!(app.is_ground && app.is_block_hit);
    let out = update_check_for_collisions(&mut app, landing);
    assert_eq!(out.sound, None);
    let out = update_check_for_collisions(&mut app, no_contact());
    assert_eq!(out.sound, None);
    assert!(!app.is_block_hit && app.is_ground);
}

#[test]
fn crouching_landing_is_silent() {
    let mut app = MyApp::default();
    app.is_bend = true;
    let landing = Contact { is_ground: true, pushed_vertically: true, pushed_up: true, ..no_contact() };
    assert_eq!(update_check_for_collisions(&mut app, landing).sound, None);
}

#[test]
fn side_and_head_hits_sound() {
    let mut app = MyApp::default();
    let side = Contact { hit_side: true, ..no_contact() };
    assert_eq!(update_check_for_collisions(&mut app, side).sound, Some(LandingSound::SideLanding));
    let mut app = MyApp::default();
    app.is_rising = true;
    let head = Contact { hit_top: true, moving_up: true, pushed_vertically: true, ..no_contact() };
    let out = update_check_for_collisions(&mut app, head);
    assert_eq!(out.sound, Some(LandingSound::SideLanding));
    assert!(out.stop_rising);
    assert!(!app.is_rising);
}

#[test]
fn apply_velocity_flags() {
    let mut app = MyApp::default();
    app.is_rising = true;
    assert!(!update_apply_velocity(&mut app, false));
    assert!(app.is_rising);
    assert!(!update_apply_velocity(&mut app, true));
    assert!(!app.is_rising);
    app.is_rising = true;
    app.is_ground = true;
    update_apply_velocity(&mut app, false);
    assert!(!app.is_rising);
    app.is_reset_game = true;
    assert!(update_apply_velocity(&mut app, false));
    assert!(!app.is_ground && !app.is_rising);
}

#[test]
fn ending_texts_and_next_run() {
    let mut app = MyApp::default();
    app.stage_count = 4;
    app.jump_count = 7;
    let texts = ending::spawn_system(&mut app, 125);
    assert_eq!(texts.time, "time: 2 minutes 5 seconds");
    assert_eq!(texts.jump, "jump: 7");
    assert_eq!(app.stage_count, 1);
    assert!(app.is_clear);
    let setup = setup_stage(&mut app);
    assert!(setup.new_run);
    assert!(app.is_clear);
    assert_eq!(app.jump_count, 0);
}

#[test]
fn ending_time_lines() {
    assert_eq!(ending::time_line(0), "time: 0 seconds");
    assert_eq!(ending::time_line(59), "time: 59 seconds");
    assert_eq!(ending::time_line(60), "time: 1 minutes 0 seconds");
    assert_eq!(ending::time_line(3601), "time: 60 minutes 1 seconds");
    assert_eq!(ending::jump_line(0), "jump: 0");
}

#[test]
fn ending_click_starts_next_game() {
    let mut app = MyApp::default();
    assert_eq!(ending::update_player(&app, true), None);
    app.is_ending_end = true;
    assert_eq!(ending::update_player(&app, false), None);
    assert_eq!(ending::update_player(&app, true), Some(AppState::Game));
}
