use pcplayerpicker::models::{MatchStatus, Player, PlayerStatus, ScheduledMatch};
use pcplayerpicker::share::{
    build_render_cards, build_round_schedule_share_snapshot, format_round_schedule_share_text,
    lookup_player_name, round_schedule_png_filename, sort_names_ignoring_ascii_case,
    wrap_text_to_line_width, RoundScheduleFieldShareCard, RoundScheduleShareSnapshot,
};

fn make_player(player_number: u32, player_name: &str) -> Player {
    Player {
        id: player_number,
        name: player_name.to_string(),
        status: PlayerStatus::Active,
    }
}

fn make_inactive_player(player_number: u32, player_name: &str) -> Player {
    Player {
        id: player_number,
        name: player_name.to_string(),
        status: PlayerStatus::Inactive,
    }
}

fn make_match(
    field_number: u8,
    match_number: u32,
    team_a_player_numbers: Vec<u32>,
    team_b_player_numbers: Vec<u32>,
) -> ScheduledMatch {
    ScheduledMatch {
        id: match_number,
        round: 1,
        field: field_number,
        team_a: team_a_player_numbers,
        team_b: team_b_player_numbers,
        status: MatchStatus::Scheduled,
    }
}

#[test]
fn share_snapshot_collects_bench_players_not_in_matches() {
    let players_by_id = vec![
        make_player(1, "Alice"),
        make_player(2, "Brooke"),
        make_player(3, "Cara"),
        make_player(4, "Dana"),
        make_player(5, "Eden"),
    ];
    let round_matches = [make_match(1, 1, vec![1, 2], vec![3, 4])];

    let snapshot =
        build_round_schedule_share_snapshot("Soccer 2v2".to_string(), 1, &players_by_id, &round_matches);

    assert_eq!(snapshot.scheduled_field_cards.len(), 1);
    assert_eq!(snapshot.benched_player_names, vec!["Eden".to_string()]);
}

#[test]
fn share_text_uses_group_chat_friendly_layout() {
    let players_by_id = vec![
        make_player(1, "Alice"),
        make_player(2, "Brooke"),
        make_player(3, "Cara"),
        make_player(4, "Dana"),
    ];
    let round_matches = [make_match(2, 3, vec![1, 2], vec![3, 4])];

    let snapshot =
        build_round_schedule_share_snapshot("Soccer 2v2".to_string(), 3, &players_by_id, &round_matches);
    let share_text = format_round_schedule_share_text(&snapshot);

    assert_eq!(
        share_text,
        "Soccer 2v2\nRound 3\n\nField 2\nAlice / Brooke\nvs\nCara / Dana"
    );
}

#[test]
fn share_snapshot_sorts_fields_and_skips_inactive_players_from_bench() {
    let players_by_id = vec![
        make_player(1, "Alice"),
        make_player(2, "Brooke"),
        make_player(3, "Cara"),
        make_player(4, "Dana"),
        make_player(5, "Eden"),
        make_inactive_player(6, "Former Player"),
    ];
    let round_matches = [
        make_match(3, 7, vec![1, 2], vec![3, 4]),
        make_match(1, 8, vec![2, 3], vec![4, 5]),
    ];

    let snapshot =
        build_round_schedule_share_snapshot("Soccer 2v2".to_string(), 2, &players_by_id, &round_matches);

    let ordered_field_labels: Vec<_> = snapshot
        .scheduled_field_cards
        .iter()
        .map(|field_card| field_card.field_label.as_str())
        .collect();
    assert_eq!(ordered_field_labels, vec!["Field 1", "Field 3"]);
    assert!(snapshot.benched_player_names.is_empty());
}

#[test]
fn render_cards_append_a_bench_card_when_someone_sits_out() {
    let render_cards = build_render_cards(&RoundScheduleShareSnapshot {
        session_label: "Soccer 2v2".to_string(),
        round_number: 4,
        scheduled_field_cards: vec![RoundScheduleFieldShareCard {
            field_label: "Field 1".to_string(),
            team_a_player_names: vec!["Alice".to_string(), "Brooke".to_string()],
            team_b_player_names: vec!["Cara".to_string(), "Dana".to_string()],
        }],
        benched_player_names: vec!["Eden".to_string(), "Fiona".to_string()],
    });

    assert_eq!(render_cards.len(), 2);
    assert_eq!(render_cards[1].card_title, "Bench");
    assert_eq!(render_cards[1].body_lines, vec!["Eden, Fiona".to_string()]);
}

#[test]
fn wrap_text_keeps_lines_within_requested_width() {
    let wrapped = wrap_text_to_line_width("Alice / Brooke / Catherine / Daniela", 18);
    assert_eq!(
        wrapped,
        vec![
            "Alice / Brooke /".to_string(),
            "Catherine /".to_string(),
            "Daniela".to_string()
        ]
    );
}

#[test]
fn wrapped_lines_never_exceed_the_width_unless_a_word_does() {
    let wrapped = wrap_text_to_line_width("one two three fourteen-letters x", 5);
    for line in &wrapped {
        assert!(line.chars().count() <= 5 || !line.contains(' '));
    }
    assert_eq!(wrapped.join(" "), "one two three fourteen-letters x");
}

#[test]
fn wrapping_blank_text_gives_one_empty_line() {
    assert_eq!(wrap_text_to_line_width("   ", 10), vec![String::new()]);
}

#[test]
fn render_cards_without_bench_have_one_card_per_field() {
    let render_cards = build_render_cards(&RoundScheduleShareSnapshot {
        session_label: "Soccer 2v2".to_string(),
        round_number: 1,
        scheduled_field_cards: vec![RoundScheduleFieldShareCard {
            field_label: "Field 2".to_string(),
            team_a_player_names: vec!["Alice".to_string()],
            team_b_player_names: vec!["Cara".to_string()],
        }],
        benched_player_names: vec![],
    });
    assert_eq!(render_cards.len(), 1);
    assert_eq!(render_cards[0].card_title, "Field 2");
}

#[test]
fn png_filename_names_the_round() {
    assert_eq!(round_schedule_png_filename(7), "pcplayerpicker-round-7.png");
}

#[test]
fn unknown_players_are_named_by_number() {
    let players = vec![make_player(1, "Alice")];
    assert_eq!(lookup_player_name(&players, 1), "Alice");
    assert_eq!(lookup_player_name(&players, 9), "Player 9");
}

#[test]
fn bench_names_sort_ignoring_case() {
    let sorted = sort_names_ignoring_ascii_case(vec![
        "dana".to_string(),
        "Brooke".to_string(),
        "alice".to_string(),
    ]);
    assert_eq!(sorted, vec!["alice".to_string(), "Brooke".to_string(), "dana".to_string()]);
}
