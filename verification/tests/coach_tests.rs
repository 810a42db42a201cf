use pcplayerpicker::coach::current_round_match_positions;
use pcplayerpicker::coach::{qr_svg, qr_svg_or_empty, QR_MAX_SIZE};
use pcplayerpicker::coach::{
    analysis_sub_tab_class, collect_completed_results_sorted_for_ranking_input,
    collect_players_sorted_for_ranking_input, overall_score_stat_label, score_entry_mode_help_text,
    score_entry_mode_tooltip_id, supports_adt_analysis, supports_synergy_analysis, tab_class,
    validate_new_player_name,
};
use pcplayerpicker::models::{MatchStatus, Player, PlayerStatus, ScheduledMatch, ScoreEntryMode};

fn player(id: u32, name: &str) -> Player {
    Player { id, name: name.to_string(), status: PlayerStatus::Active }
}

fn scheduled(id: u32, status: MatchStatus) -> ScheduledMatch {
    ScheduledMatch { id, round: 1, field: 1, team_a: vec![1], team_b: vec![2], status }
}

#[test]
fn new_player_names_are_trimmed_and_unique() {
    let players = vec![player(1, " Alice "), player(2, "Bob")];
    assert_eq!(validate_new_player_name("  Cara ", &players), Ok("Cara".to_string()));
    assert_eq!(
        validate_new_player_name("   ", &players),
        Err("Enter a player name.".to_string())
    );
    assert_eq!(
        validate_new_player_name("aLiCe", &players),
        Err("That player name is already in this session.".to_string())
    );
}

#[test]
fn analyses_follow_the_score_entry_mode() {
    assert!(supports_adt_analysis(ScoreEntryMode::PointsPerPlayer));
    assert!(!supports_adt_analysis(ScoreEntryMode::PointsPerTeam));
    assert!(supports_synergy_analysis(ScoreEntryMode::PointsPerTeam, 2));
    assert!(!supports_synergy_analysis(ScoreEntryMode::PointsPerTeam, 1));
    assert!(!supports_synergy_analysis(ScoreEntryMode::WinDrawLose, 5));
    assert_eq!(overall_score_stat_label(ScoreEntryMode::PointsPerPlayer), "Pts");
    assert_eq!(overall_score_stat_label(ScoreEntryMode::PointsPerTeam), "Team Pts");
    assert_eq!(overall_score_stat_label(ScoreEntryMode::WinDrawLose), "WDL Pts");
    assert_eq!(
        score_entry_mode_tooltip_id(ScoreEntryMode::WinDrawLose),
        "score-entry-mode-help-win-draw-lose"
    );
    assert!(score_entry_mode_help_text(ScoreEntryMode::PointsPerTeam).starts_with("Enter one total"));
}

#[test]
fn tab_classes_mark_the_active_tab() {
    assert!(tab_class(true).contains("border-blue-500"));
    assert!(tab_class(false).contains("border-transparent"));
    assert!(analysis_sub_tab_class(true).contains("bg-gray-800"));
    assert!(!analysis_sub_tab_class(false).contains("bg-gray-800"));
}

#[test]
fn ranking_input_is_ordered_by_id() {
    let sorted = collect_players_sorted_for_ranking_input(vec![
        player(3, "C"),
        player(1, "A"),
        player(2, "B"),
    ]);
    let ids: Vec<u32> = sorted.iter().map(|p| p.id).collect();
    assert_eq!(ids, vec![1, 2, 3]);

    let matches = vec![
        scheduled(10, MatchStatus::Completed),
        scheduled(11, MatchStatus::Scheduled),
        scheduled(12, MatchStatus::Completed),
    ];
    let results = vec![(12, "r12"), (11, "r11"), (10, "r10"), (99, "orphan")];
    let completed = collect_completed_results_sorted_for_ranking_input(results, &matches);
    assert_eq!(completed, vec![(10, "r10"), (12, "r12")]);
}

#[test]
fn share_links_render_as_qr_code_svg() {
    let svg = qr_svg("https://pcplayerpicker.com/p/abc", 200);
    assert!(svg.starts_with("<?xml"));
    assert!(svg.contains("#ffffff"));
    assert!(svg.contains("#111827"));
    assert_eq!(qr_svg(&"x".repeat(5000), 200), "");
    assert!(qr_svg("https://pcplayerpicker.com/p/abc", QR_MAX_SIZE).starts_with("<?xml"));
    assert_eq!(qr_svg_or_empty(None), "");
}

#[test]
fn the_current_round_shares_its_unvoided_matches() {
    let mut matches = vec![
        scheduled(1, MatchStatus::Scheduled),
        scheduled(2, MatchStatus::Voided),
        scheduled(3, MatchStatus::Completed),
        scheduled(4, MatchStatus::Scheduled),
    ];
    matches[3].round = 2;
    assert_eq!(current_round_match_positions(&matches, 1), vec![0, 2]);
    assert!(current_round_match_positions(&matches, 5).is_empty());
}
