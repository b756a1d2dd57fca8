use compiler_bot::shards::{plan_guild_join, ShardState};

#[test]
fn three_shards_fire_exactly_once_in_order() {
    let mut s = ShardState::new();
    assert!(!s.on_shard_ready(5, 3));
    assert!(!s.on_shard_ready(7, 3));
    assert!(s.on_shard_ready(11, 3));
    assert!(!s.on_shard_ready(13, 3));
    assert_eq!(s.counts.len(), 4);
}

#[test]
fn three_shards_fire_exactly_once_in_another_interleaving() {
    let mut s = ShardState::new();
    assert!(!s.on_shard_ready(11, 3));
    assert!(!s.on_shard_ready(5, 3));
    assert!(s.on_shard_ready(7, 3));
    assert!(!s.on_shard_ready(7, 3));
    assert!(!s.on_shard_ready(7, 3));
}

#[test]
fn fleet_sum_is_the_sum_of_reports() {
    let mut s = ShardState::new();
    s.on_shard_ready(5, 3);
    s.on_shard_ready(7, 3);
    s.on_shard_ready(11, 3);
    assert_eq!(s.fleet_sum(), 23);
}

#[test]
fn empty_fleet_sums_to_zero() {
    let s = ShardState::new();
    assert_eq!(s.fleet_sum(), 0);
}

#[test]
fn joins_and_leaves_lose_no_update() {
    let mut s = ShardState::new();
    s.on_shard_ready(10, 3);
    s.on_shard_ready(20, 3);
    s.on_shard_ready(30, 3);
    // seven joins and three leaves, spread over the shards
    s.on_guild_join(0);
    s.on_guild_join(1);
    s.on_guild_join(1);
    s.on_guild_join(2);
    s.on_guild_leave(0);
    s.on_guild_join(2);
    s.on_guild_leave(2);
    s.on_guild_join(0);
    s.on_guild_join(1);
    s.on_guild_leave(1);
    assert_eq!(s.counts[0], 11);
    assert_eq!(s.counts[1], 22);
    assert_eq!(s.counts[2], 31);
    assert_eq!(s.fleet_sum(), 60 + 7 - 3);
}

#[test]
fn completing_report_publishes_the_fleet_total_once() {
    let mut s = ShardState::new();
    assert_eq!(s.handle_shard_ready(5, 2), None);
    assert_eq!(s.handle_shard_ready(7, 2), Some(12));
    assert_eq!(s.handle_shard_ready(9, 2), None);
}

#[test]
fn join_callback_always_counts_and_gates_notifications() {
    let fresh = plan_guild_join(100, 110);
    assert!(fresh.count_guild);
    assert!(fresh.post_notifications);

    let boundary = plan_guild_join(70, 100);
    assert!(boundary.count_guild);
    assert!(!boundary.post_notifications);

    let stale = plan_guild_join(0, 1_000_000);
    assert!(stale.count_guild);
    assert!(!stale.post_notifications);
}
