use pcplayerpicker::online::{
    assistant_pull_status, recovery_pin_problem, sanitize_pin_input, token_pin_problem,
    token_pin_status,
};
use pcplayerpicker::setup::{
    apply_imported_names, check_player_count, decrement_player_count, fields_summary,
    increment_player_count, minimum_players, parse_match_duration, parse_schedule_frequency,
    player_count_for_team_size, players_benched, resize_player_names, team_size_label,
    MAX_PLAYERS,
};

fn names(list: &[&str]) -> Vec<String> {
    list.iter().map(|s| s.to_string()).collect()
}

#[test]
fn the_player_count_stays_between_the_minimum_and_the_cap() {
    assert_eq!(minimum_players(2), 8);
    assert_eq!(decrement_player_count(9, 2), 8);
    assert_eq!(decrement_player_count(8, 2), 8);
    assert_eq!(increment_player_count(43), 44);
    assert_eq!(increment_player_count(MAX_PLAYERS), MAX_PLAYERS);
    assert_eq!(player_count_for_team_size(8, 3), 12);
    assert_eq!(player_count_for_team_size(20, 3), 20);
    assert_eq!(players_benched(10, 2), 2);
    assert_eq!(players_benched(8, 2), 0);
}

#[test]
fn the_stepper_line_names_fields_and_bench() {
    assert_eq!(fields_summary(1, 0), "1 field · no bench");
    assert_eq!(fields_summary(2, 3), "2 fields · 3 on bench");
    assert_eq!(team_size_label(5), "5v5");
}

#[test]
fn player_names_follow_the_count() {
    let mut list = names(&["Alice", "Bob"]);
    resize_player_names(&mut list, 4);
    assert_eq!(list, names(&["Alice", "Bob", "Player 3", "Player 4"]));
    resize_player_names(&mut list, 1);
    assert_eq!(list, names(&["Alice"]));
}

#[test]
fn imported_names_fill_the_list() {
    let mut list = names(&["A", "B", "C", "D", "E"]);
    let count = apply_imported_names(&mut list, &names(&["x", "y"]), 4);
    assert_eq!(count, 4);
    assert_eq!(list, names(&["x", "y", "C", "D"]));
    let mut short = names(&["A"]);
    let count = apply_imported_names(&mut short, &names(&["x", "y"]), 3);
    assert_eq!(count, 3);
    assert_eq!(short, names(&["x", "y", ""]));
}

#[test]
fn sessions_need_two_full_matches() {
    assert_eq!(check_player_count(8, 2), Ok(()));
    assert_eq!(
        check_player_count(7, 2),
        Err("Need at least 8 players for 2v2 (two full teams).".to_string())
    );
}

#[test]
fn form_numbers_parse_like_std() {
    assert_eq!(parse_match_duration(""), None);
    assert_eq!(parse_match_duration("45"), Some(45));
    assert_eq!(parse_match_duration(" 45"), None);
    assert_eq!(parse_schedule_frequency("3"), Some(3));
    assert_eq!(parse_schedule_frequency("256"), None);
}

#[test]
fn pin_fields_keep_up_to_eight_digits() {
    assert_eq!(sanitize_pin_input("12a3-45678 9"), "12345678");
    assert_eq!(sanitize_pin_input("x"), "");
    assert_eq!(recovery_pin_problem("123"), Some("PIN must be at least 4 digits."));
    assert_eq!(recovery_pin_problem("1234"), None);
    assert_eq!(token_pin_problem(""), None);
    assert_eq!(
        token_pin_problem("12"),
        Some("PIN must be 4–8 digits, or leave blank to remove.")
    );
    assert_eq!(token_pin_status("", false), "Clearing…");
    assert_eq!(token_pin_status("1234", false), "Setting…");
    assert_eq!(token_pin_status("", true), "PIN removed.");
    assert_eq!(token_pin_status("1234", true), "PIN set.");
}

#[test]
fn pull_status_reports_what_came_back() {
    assert_eq!(assistant_pull_status(0, 0), "No new server updates.");
    assert_eq!(assistant_pull_status(0, 4), "No new assistant-entered scores found.");
    assert_eq!(assistant_pull_status(1, 4), "Pulled 1 assistant-entered score.");
    assert_eq!(assistant_pull_status(3, 4), "Pulled 3 assistant-entered scores.");
}
