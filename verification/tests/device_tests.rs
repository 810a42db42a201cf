use pcplayerpicker::score_entry::{participation_by_player, played_player_points};
use pcplayerpicker::models::ParticipationStatus;
use pcplayerpicker::score_entry::PlayerAvailabilityDraft;
use pcplayerpicker::browser::{
    is_android_browser, is_ios_browser, is_running_standalone, should_show_ios_nudge,
};
use pcplayerpicker::score_entry::{
    parse_non_negative_u16, parse_player_selection, player_selection_key, player_selection_value,
};

const IPHONE: &str = "Mozilla/5.0 (iPhone; CPU iPhone OS 17_0 like Mac OS X)";

#[test]
fn ios_and_android_are_told_by_the_user_agent() {
    assert!(is_ios_browser(IPHONE));
    assert!(is_ios_browser("Mozilla/5.0 (iPad; CPU OS 16_0)"));
    assert!(!is_ios_browser("Mozilla/5.0 (Linux; Android 14)"));
    assert!(is_android_browser("Mozilla/5.0 (Linux; Android 14)"));
    assert!(!is_android_browser(IPHONE));
    assert!(is_running_standalone(false, true));
    assert!(!is_running_standalone(false, false));
}

#[test]
fn the_install_nudge_shows_only_in_ios_browsers_not_yet_installed() {
    assert!(should_show_ios_nudge(false, IPHONE, false));
    assert!(!should_show_ios_nudge(true, IPHONE, false));
    assert!(!should_show_ios_nudge(false, IPHONE, true));
    assert!(!should_show_ios_nudge(false, "Mozilla/5.0 (X11; Linux x86_64)", false));
}

#[test]
fn points_fields_parse_as_small_numbers_or_zero() {
    assert_eq!(parse_non_negative_u16(" 12 "), 12);
    assert_eq!(parse_non_negative_u16("+7"), 7);
    assert_eq!(parse_non_negative_u16("65535"), 65535);
    assert_eq!(parse_non_negative_u16("65536"), 0);
    assert_eq!(parse_non_negative_u16("-3"), 0);
    assert_eq!(parse_non_negative_u16("1.5"), 0);
    assert_eq!(parse_non_negative_u16(""), 0);
    assert_eq!(parse_non_negative_u16("+"), 0);
}

#[test]
fn a_picked_player_reads_back() {
    assert_eq!(player_selection_key("tok"), "pcpp_player_tok");
    for id in [0u32, 7, 1234, u32::MAX] {
        assert_eq!(parse_player_selection(&player_selection_value(id)), Some(id));
    }
    assert_eq!(parse_player_selection("4294967296"), None);
    assert_eq!(parse_player_selection(" 5"), None);
}

#[test]
fn availability_marks_follow_the_saved_result() {
    assert_eq!(
        PlayerAvailabilityDraft::from_result(Some(ParticipationStatus::Played)),
        PlayerAvailabilityDraft::Played
    );
    assert_eq!(PlayerAvailabilityDraft::from_result(None), PlayerAvailabilityDraft::DidNotPlay);
    for mark in [PlayerAvailabilityDraft::Played, PlayerAvailabilityDraft::DidNotPlay] {
        assert_eq!(PlayerAvailabilityDraft::from_result(Some(mark.as_participation_status())), mark);
    }
    assert!(PlayerAvailabilityDraft::Played.played());
    assert!(!PlayerAvailabilityDraft::DidNotPlay.played());
}

#[test]
fn results_keep_points_only_for_players_who_played() {
    let ids = [1, 2, 3, 4];
    let marks = [
        (1, PlayerAvailabilityDraft::Played),
        (2, PlayerAvailabilityDraft::DidNotPlay),
        (4, PlayerAvailabilityDraft::Played),
    ];
    assert_eq!(
        participation_by_player(&ids, &marks),
        vec![
            (1, ParticipationStatus::Played),
            (2, ParticipationStatus::DidNotPlay),
            (3, ParticipationStatus::DidNotPlay),
            (4, ParticipationStatus::Played),
        ]
    );
    assert_eq!(played_player_points(&ids, &marks, &[(1, 5), (2, 9)]), vec![(1, 5), (4, 0)]);
}
