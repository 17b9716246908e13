use transaction_scheduler::forwarding_stage::{
    is_forwardable, is_tpu_vote, update_data_budget, PacketMeta, INTERVAL_MS,
    MAX_BYTES_BUDGET, MAX_BYTES_PER_INTERVAL, MAX_BYTES_PER_SECOND,
};

fn meta(forwarded: bool, from_staked_node: bool, simple_vote_tx: bool) -> PacketMeta {
    PacketMeta {
        size: 100,
        forwarded,
        from_staked_node,
        simple_vote_tx,
    }
}

#[test]
fn test_data_budget_constants() {
    assert_eq!(INTERVAL_MS, 100);
    assert_eq!(MAX_BYTES_PER_SECOND, 12_000_000);
    assert_eq!(
        MAX_BYTES_PER_INTERVAL,
        MAX_BYTES_PER_SECOND * INTERVAL_MS as usize / 1000
    );
    assert_eq!(MAX_BYTES_BUDGET, MAX_BYTES_PER_INTERVAL * 5);
}

#[test]
fn test_update_data_budget() {
    assert_eq!(update_data_budget(0), 1_200_000);
    assert_eq!(update_data_budget(1), 1_200_001);
    assert_eq!(update_data_budget(4_799_999), 5_999_999);
    assert_eq!(update_data_budget(4_800_000), 6_000_000);
    assert_eq!(update_data_budget(4_800_001), 6_000_000);
    assert_eq!(update_data_budget(6_000_000), 6_000_000);
    assert_eq!(update_data_budget(usize::MAX), 6_000_000);
}

#[test]
fn test_is_forwardable() {
    assert!(is_forwardable(&meta(false, true, false)));
    assert!(!is_forwardable(&meta(true, true, false)));
    assert!(!is_forwardable(&meta(false, false, false)));
    assert!(!is_forwardable(&meta(true, false, true)));
}

#[test]
fn test_is_tpu_vote() {
    assert!(!is_tpu_vote(&[]));
    assert!(!is_tpu_vote(&[vec![]]));
    // only the first batch is looked at
    assert!(!is_tpu_vote(&[vec![], vec![meta(false, true, true)]]));
    assert!(is_tpu_vote(&[vec![meta(false, true, true)]]));
    assert!(is_tpu_vote(&[
        vec![meta(false, true, true), meta(false, true, false)],
        vec![meta(false, true, false)]
    ]));
    assert!(!is_tpu_vote(&[vec![
        meta(false, true, false),
        meta(false, true, true)
    ]]));
}
