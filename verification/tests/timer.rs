use longrunner::timer::{
    decrease_session_length, format_time, get_session_display, get_tray_title,
    increase_session_length, is_expired, session_state_display, tick, TimerState,
    DEFAULT_SESSION_LENGTH, SESSION_STEP,
};

#[test]
fn format_time_pads_minutes_and_seconds() {
    assert_eq!(format_time(0), "00:00");
    assert_eq!(format_time(5), "00:05");
    assert_eq!(format_time(59), "00:59");
    assert_eq!(format_time(60), "01:00");
    assert_eq!(format_time(65), "01:05");
    assert_eq!(format_time(600), "10:00");
    assert_eq!(format_time(1_500), "25:00");
    assert_eq!(format_time(3_599), "59:59");
}

#[test]
fn format_time_keeps_every_digit_of_long_sessions() {
    assert_eq!(format_time(6_000), "100:00");
    assert_eq!(format_time(u32::MAX), "71582788:15");
}

#[test]
fn format_time_agrees_with_the_standard_formatter() {
    let mut seconds: u32 = 0;
    while seconds < 20_000 {
        assert_eq!(format_time(seconds), format!("{:02}:{:02}", seconds / 60, seconds % 60));
        seconds += 7;
    }
}

#[test]
fn tray_title_of_a_paused_timer() {
    assert_eq!(get_tray_title(TimerState::Paused, 0, 1_500), "Paused");
    assert_eq!(get_tray_title(TimerState::Paused, 2_000, 1_500), "Paused");
}

#[test]
fn tray_title_counts_down_during_a_session() {
    assert_eq!(get_tray_title(TimerState::Running, 0, 1_500), "In session: 25:00");
    assert_eq!(get_tray_title(TimerState::Running, 1_499, 1_500), "In session: 00:01");
}

#[test]
fn tray_title_counts_up_once_the_session_is_over() {
    assert_eq!(get_tray_title(TimerState::Running, 1_500, 1_500), "Finished session: 25:00");
    assert_eq!(get_tray_title(TimerState::Running, 1_565, 1_500), "Finished session: 26:05");
}

#[test]
fn tray_title_during_and_after_a_break() {
    assert_eq!(get_tray_title(TimerState::Break, 10, 300), "Break: 04:50");
    assert_eq!(get_tray_title(TimerState::Break, 300, 300), "Finished break: 05:00");
    assert_eq!(get_tray_title(TimerState::Break, 301, 300), "Finished break: 05:01");
}

#[test]
fn a_session_expires_only_after_its_length() {
    assert!(!is_expired(0, 1_500));
    assert!(!is_expired(1_500, 1_500));
    assert!(is_expired(1_501, 1_500));
}

#[test]
fn state_display_names_the_state() {
    assert_eq!(session_state_display(TimerState::Paused, 2_000, 1_500), "Paused");
    assert_eq!(session_state_display(TimerState::Running, 10, 1_500), "In session");
    assert_eq!(session_state_display(TimerState::Running, 1_500, 1_500), "In session");
    assert_eq!(session_state_display(TimerState::Running, 1_501, 1_500), "Finished session");
    assert_eq!(session_state_display(TimerState::Break, 10, 300), "On break");
    assert_eq!(session_state_display(TimerState::Break, 300, 300), "On break");
    assert_eq!(session_state_display(TimerState::Break, 301, 300), "Finished break");
}

#[test]
fn session_display_shows_time_left_then_time_run() {
    assert_eq!(get_session_display(0, 1_500), "25:00");
    assert_eq!(get_session_display(1_440, 1_500), "01:00");
    assert_eq!(get_session_display(1_500, 1_500), "00:00");
    assert_eq!(get_session_display(1_501, 1_500), "25:01");
}

#[test]
fn session_length_moves_in_steps_of_five_minutes() {
    assert_eq!(SESSION_STEP, 300);
    assert_eq!(DEFAULT_SESSION_LENGTH, 25 * 60);
    assert_eq!(increase_session_length(DEFAULT_SESSION_LENGTH), 1_800);
    assert_eq!(decrease_session_length(DEFAULT_SESSION_LENGTH), 1_200);
    assert_eq!(decrease_session_length(300), 0);
    assert_eq!(increase_session_length(u32::MAX - 300), u32::MAX);
}

#[test]
fn only_a_timer_that_is_not_paused_ticks() {
    assert_eq!(tick(TimerState::Paused, 7), 7);
    assert_eq!(tick(TimerState::Running, 7), 8);
    assert_eq!(tick(TimerState::Break, 7), 8);
    assert_eq!(tick(TimerState::Paused, u32::MAX), u32::MAX);
}
