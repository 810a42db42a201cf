use pcplayerpicker::coach::{
    check_recovery_request, known_player_names, match_count_label, match_status_label,
    round_image_share_status, session_matches_path, session_share_label,
};
use pcplayerpicker::follow::{
    picker_players, player_itinerary, pull_cursor, round_match_positions, share_link_access,
    valid_selection, LinkAccess, LinkRole,
};
use pcplayerpicker::models::{MatchStatus, Player, PlayerStatus, ScheduledMatch};
use pcplayerpicker::share::RoundScheduleImageShareOutcome;
use pcplayerpicker::sync::TokenInfo;

fn player(id: u32, name: &str, status: PlayerStatus) -> Player {
    Player { id, name: name.to_string(), status }
}

fn scheduled(id: u32, round: u32, field: u8, a: Vec<u32>, b: Vec<u32>, status: MatchStatus) -> ScheduledMatch {
    ScheduledMatch { id, round, field, team_a: a, team_b: b, status }
}

#[test]
fn share_links_open_only_for_their_role() {
    let info = TokenInfo { session_id: "s".to_string(), role: "player".to_string(), requires_pin: false };
    assert_eq!(
        share_link_access(&info, LinkRole::Player),
        LinkAccess::Granted { session_id: "s".to_string() }
    );
    assert_eq!(
        share_link_access(&info, LinkRole::Assistant),
        LinkAccess::WrongRole { message: "This link is for assistants only.".to_string() }
    );
    let locked = TokenInfo { session_id: String::new(), role: String::new(), requires_pin: true };
    assert_eq!(share_link_access(&locked, LinkRole::Player), LinkAccess::NeedsPin);
}

#[test]
fn pulls_continue_after_the_last_event_held() {
    assert_eq!(pull_cursor(&[]), 0);
    assert_eq!(pull_cursor(&[3, 9]), 9);
}

#[test]
fn the_picker_lists_active_players_by_name() {
    let players = vec![
        player(1, "Cara", PlayerStatus::Active),
        player(2, "Alice", PlayerStatus::Active),
        player(3, "Bob", PlayerStatus::Inactive),
    ];
    assert_eq!(picker_players(&players), vec![(2, "Alice".to_string()), (1, "Cara".to_string())]);
    assert_eq!(valid_selection(Some(3), &players), Some(3));
    assert_eq!(valid_selection(Some(9), &players), None);
    assert_eq!(valid_selection(None, &players), None);
}

#[test]
fn a_players_itinerary_covers_this_round_and_the_next() {
    let matches = vec![
        scheduled(1, 3, 2, vec![1], vec![2], MatchStatus::Scheduled),
        scheduled(2, 2, 1, vec![3], vec![1], MatchStatus::Completed),
        scheduled(3, 2, 2, vec![1], vec![4], MatchStatus::Voided),
        scheduled(4, 4, 1, vec![1], vec![2], MatchStatus::Scheduled),
        scheduled(5, 2, 3, vec![5], vec![6], MatchStatus::Scheduled),
        scheduled(6, 3, 1, vec![2], vec![1], MatchStatus::Scheduled),
    ];
    assert_eq!(player_itinerary(&matches, 2, 1), vec![1, 5, 0]);
    assert_eq!(round_match_positions(&matches, 2), vec![1, 4]);
}

#[test]
fn match_cards_show_status_names_and_counts() {
    assert_eq!(match_status_label(MatchStatus::Completed), "Done");
    assert_eq!(match_status_label(MatchStatus::InProgress), "In Progress");
    assert_eq!(match_status_label(MatchStatus::Scheduled), "Scheduled");
    assert_eq!(match_count_label(1), "1 match");
    assert_eq!(match_count_label(3), "3 matches");
    assert_eq!(session_share_label("Soccer", 2), "Soccer 2v2");
    let players = vec![player(1, "Alice", PlayerStatus::Active)];
    assert_eq!(known_player_names(&players, &vec![1, 7]), vec!["Alice".to_string()]);
    assert_eq!(
        round_image_share_status(RoundScheduleImageShareOutcome::DownloadedPngFallback),
        "Round image downloaded. Native share is unavailable here."
    );
}

#[test]
fn recovery_requests_need_an_id_and_a_pin() {
    assert_eq!(
        check_recovery_request(" abc ", " 1234 "),
        Ok(("abc".to_string(), "1234".to_string()))
    );
    assert_eq!(
        check_recovery_request("", "1234"),
        Err("Enter a session ID and at least 4-digit PIN.")
    );
    assert_eq!(session_matches_path("abc"), "/coach/session/abc/matches");
}
