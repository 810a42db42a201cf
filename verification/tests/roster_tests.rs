use std::collections::HashMap;

use pcplayerpicker::models::{MatchStatus, ScheduledMatch};
use pcplayerpicker::roster_edit::{
    assign_player_to_slot, build_affected_match_summaries, build_round_player_change_draft,
    build_selected_slot_label, build_updated_matches_from_draft, collect_locked_assignments_by_player,
    count_open_slots, find_slot_for_player, first_open_slot, EditablePlayerSlot, EditableTeamSide,
};

fn scheduled(id: u32, round: u32, field: u8, a: Vec<u32>, b: Vec<u32>, status: MatchStatus) -> ScheduledMatch {
    ScheduledMatch { id, round, field, team_a: a, team_b: b, status }
}

fn names() -> HashMap<u32, String> {
    [(1, "Alice"), (2, "Brooke"), (3, "Cara"), (4, "Dana"), (5, "Eden"), (6, "Fiona")]
        .into_iter()
        .map(|(id, name)| (id, name.to_string()))
        .collect()
}

fn round_matches() -> Vec<ScheduledMatch> {
    vec![
        scheduled(1, 2, 2, vec![1, 2], vec![3, 4], MatchStatus::Scheduled),
        scheduled(2, 2, 1, vec![5], vec![6], MatchStatus::Completed),
        scheduled(3, 1, 1, vec![1], vec![2], MatchStatus::Scheduled),
    ]
}

#[test]
fn drafts_start_only_from_open_matches() {
    let matches = round_matches();
    assert!(build_round_player_change_draft(&matches, 2).is_none());
    assert!(build_round_player_change_draft(&matches, 42).is_none());
    let draft = build_round_player_change_draft(&matches, 1).unwrap();
    assert_eq!(draft.round, 2);
    assert_eq!(draft.current_editable_matches.len(), 1);
    assert_eq!(count_open_slots(&draft), 0);
    assert!(first_open_slot(&draft).is_none());
}

#[test]
fn moving_a_player_empties_the_slot_they_left() {
    let matches = round_matches();
    let mut draft = build_round_player_change_draft(&matches, 1).unwrap();
    let locked = collect_locked_assignments_by_player(&matches, Some(2));
    let target = EditablePlayerSlot { match_id: 1, team_side: EditableTeamSide::TeamB, slot_index: 0 };
    draft.selected_slot = Some(target);
    assert_eq!(assign_player_to_slot(&mut draft, target, 1, &locked, &names()), Ok(()));
    assert_eq!(find_slot_for_player(&draft.current_editable_matches, 1), Some(target));
    assert_eq!(count_open_slots(&draft), 1);
    assert_eq!(
        first_open_slot(&draft),
        Some(EditablePlayerSlot { match_id: 1, team_side: EditableTeamSide::TeamA, slot_index: 0 })
    );
    assert!(build_updated_matches_from_draft(&draft).is_none());
    assert_eq!(
        build_selected_slot_label(&draft, &names()),
        "Field 2 is selected. The current slot contains Alice."
    );
    assert_eq!(
        build_affected_match_summaries(&draft, &names()),
        vec!["Field 2 now needs 1 more player.".to_string()]
    );
}

#[test]
fn players_of_completed_matches_are_locked() {
    let matches = round_matches();
    let mut draft = build_round_player_change_draft(&matches, 1).unwrap();
    let locked = collect_locked_assignments_by_player(&matches, Some(2));
    let target = EditablePlayerSlot { match_id: 1, team_side: EditableTeamSide::TeamA, slot_index: 0 };
    assert_eq!(
        assign_player_to_slot(&mut draft, target, 5, &locked, &names()),
        Err("Eden is locked on Field 1 because that match is already complete.".to_string())
    );
    assert_eq!(find_slot_for_player(&draft.current_editable_matches, 1), Some(target));
}

#[test]
fn a_full_draft_becomes_the_updated_matches() {
    let matches = round_matches();
    let mut draft = build_round_player_change_draft(&matches, 1).unwrap();
    let locked = collect_locked_assignments_by_player(&matches, Some(2));
    let slot = EditablePlayerSlot { match_id: 1, team_side: EditableTeamSide::TeamA, slot_index: 0 };
    assign_player_to_slot(&mut draft, slot, 3, &locked, &names()).unwrap();
    let other = EditablePlayerSlot { match_id: 1, team_side: EditableTeamSide::TeamB, slot_index: 0 };
    assign_player_to_slot(&mut draft, other, 1, &locked, &names()).unwrap();
    let updated = build_updated_matches_from_draft(&draft).unwrap();
    assert_eq!(updated.len(), 1);
    assert_eq!(updated[0].team_a, vec![3, 2]);
    assert_eq!(updated[0].team_b, vec![1, 4]);
    assert_eq!(
        build_affected_match_summaries(&draft, &names()),
        vec!["Field 2 will become Cara, Brooke, Alice, Dana.".to_string()]
    );
}
