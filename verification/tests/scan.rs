use falling_sand_contact::{
    next_candidate, ContactOutcome, ContactScan, GridPos, ResolvedContactReaction,
    ResolvedContactRule, ScanAction, TypeEntity,
};

fn rule(target: u64) -> ResolvedContactRule {
    ResolvedContactRule {
        target_type: TypeEntity { bits: target },
        source_outcome: ContactOutcome::Destroy,
        target_outcome: ContactOutcome::Unchanged,
        chance_bits: 0.5f64.to_bits(),
        radius_bits: 1.0f32.to_bits(),
        burst: None,
    }
}

fn rules() -> ResolvedContactReaction {
    ResolvedContactReaction { rules: vec![rule(1), rule(2), rule(1), rule(1)] }
}

const ORIGIN: GridPos = GridPos { x: 0, y: 0 };
const NEIGHBOR: GridPos = GridPos { x: 1, y: 0 };

#[test]
fn next_candidate_finds_first_matching_rule_in_range() {
    let r = rules();
    let t = TypeEntity { bits: 1 };
    assert_eq!(next_candidate(&r.rules, &vec![true; 4], t, 0), Some(0));
    assert_eq!(next_candidate(&r.rules, &vec![false, true, true, true], t, 0), Some(2));
    assert_eq!(next_candidate(&r.rules, &vec![true; 4], t, 1), Some(2));
    assert_eq!(next_candidate(&r.rules, &vec![true, true, true, false], t, 3), None);
    assert_eq!(next_candidate(&r.rules, &vec![true; 4], TypeEntity { bits: 9 }, 0), None);
    assert_eq!(next_candidate(&r.rules, &vec![true; 4], t, 4), None);
}

#[test]
fn own_cell_and_untyped_neighbors_are_skipped() {
    let r = rules();
    let mut scan = ContactScan::new(ORIGIN);
    assert_eq!(scan.visit(&r, ORIGIN, Some(TypeEntity { bits: 1 }), vec![true; 4]), ScanAction::NextNeighbor);
    assert_eq!(scan.visit(&r, NEIGHBOR, None, vec![true; 4]), ScanAction::NextNeighbor);
    assert!(!scan.awaits_roll());
    assert!(!scan.has_reacted());
    assert_eq!(scan.origin(), ORIGIN);
}

#[test]
fn failed_draws_mark_dirty_and_try_later_rules() {
    let r = rules();
    let mut scan = ContactScan::new(ORIGIN);
    let t = Some(TypeEntity { bits: 1 });
    assert_eq!(scan.visit(&r, NEIGHBOR, t, vec![true, true, true, false]), ScanAction::Roll { rule: 0 });
    assert!(scan.awaits_roll());
    assert_eq!(scan.rolled(&r, false), ScanAction::MarkDirtyAndRoll { rule: 2 });
    assert_eq!(scan.rolled(&r, false), ScanAction::MarkDirtyAndNext);
    assert!(!scan.awaits_roll());
    assert!(!scan.has_reacted());
}

#[test]
fn successful_draw_fires_once_and_ends_the_scan() {
    let r = rules();
    let mut scan = ContactScan::new(ORIGIN);
    let t = Some(TypeEntity { bits: 2 });
    assert_eq!(scan.visit(&r, NEIGHBOR, t, vec![true; 4]), ScanAction::Roll { rule: 1 });
    assert_eq!(scan.rolled(&r, true), ScanAction::Fire { rule: 1, neighbor: NEIGHBOR });
    assert!(scan.has_reacted());
    assert_eq!(
        scan.visit(&r, GridPos::new(0, 1), Some(TypeEntity { bits: 1 }), vec![true; 4]),
        ScanAction::NextNeighbor
    );
    assert!(!scan.awaits_roll());
}

#[test]
fn out_of_range_rules_are_not_drawn() {
    let r = rules();
    let mut scan = ContactScan::new(ORIGIN);
    let t = Some(TypeEntity { bits: 1 });
    assert_eq!(scan.visit(&r, NEIGHBOR, t, vec![false, true, false, false]), ScanAction::NextNeighbor);
    assert_eq!(scan.visit(&r, NEIGHBOR, t, vec![false, false, false, true]), ScanAction::Roll { rule: 3 });
    assert_eq!(scan.rolled(&r, false), ScanAction::MarkDirtyAndNext);
}

#[test]
fn rules_are_tried_in_order_and_the_first_success_ends_the_scan() {
    let r = rules();
    let mut scan = ContactScan::new(ORIGIN);
    let t = Some(TypeEntity { bits: 1 });
    assert_eq!(scan.visit(&r, NEIGHBOR, t, vec![true; 4]), ScanAction::Roll { rule: 0 });
    assert_eq!(scan.rolled(&r, false), ScanAction::MarkDirtyAndRoll { rule: 2 });
    assert_eq!(scan.rolled(&r, true), ScanAction::Fire { rule: 2, neighbor: NEIGHBOR });
    assert!(!scan.awaits_roll());
    assert_eq!(scan.visit(&r, GridPos::new(-1, 0), t, vec![true; 4]), ScanAction::NextNeighbor);
    assert_eq!(scan.visit(&r, GridPos::new(0, -1), t, vec![true; 4]), ScanAction::NextNeighbor);
}

#[test]
fn own_type_in_own_cell_never_reacts() {
    let r = rules();
    let mut scan = ContactScan::new(ORIGIN);
    assert_eq!(scan.visit(&r, ORIGIN, Some(TypeEntity { bits: 2 }), vec![true; 4]), ScanAction::NextNeighbor);
    assert!(!scan.awaits_roll());
}
