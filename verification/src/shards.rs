use vstd::prelude::*;

verus! {

/// Upper bound on the number of gateway shards a process will track.
pub const MAX_SHARDS: usize = 0x10000;

/// Upper bound on the guild count a single shard may report.
pub const MAX_GUILDS_PER_SHARD: u64 = 0xFFFF_FFFF;

/// Sum of a sequence of per-shard guild counts, as a mathematical integer.
pub open spec fn sum_of(s: Seq<u64>) -> int
    decreases s.len(),
{
    if s.len() == 0 {
        0
    } else {
        sum_of(s.drop_last()) + s.last()
    }
}

pub proof fn lemma_sum_of_take(s: Seq<u64>, i: int)
    requires
        0 <= i < s.len(),
    ensures
        sum_of(s.take(i + 1)) == sum_of(s.take(i)) + s[i],
{
    assert(s.take(i + 1).drop_last() =~= s.take(i));
    assert(s.take(i + 1).last() == s[i]);
}

pub proof fn lemma_sum_of_bound(s: Seq<u64>, bound: u64)
    requires
        forall|i: int| 0 <= i < s.len() ==> s[i] <= bound,
    ensures
        0 <= sum_of(s) <= s.len() * bound,
    decreases s.len(),
{
    if s.len() > 0 {
        lemma_sum_of_bound(s.drop_last(), bound);
        assert(s.len() * bound == (s.len() - 1) * bound + bound) by (nonlinear_arith);
    }
}

/// Replacing one slot changes the sum by exactly the difference of that slot.
pub proof fn lemma_sum_of_update(s: Seq<u64>, i: int, v: u64)
    requires
        0 <= i < s.len(),
    ensures
        sum_of(s.update(i, v)) == sum_of(s) - s[i] + v,
    decreases s.len(),
{
    if i == s.len() - 1 {
        assert(s.update(i, v).drop_last() =~= s.drop_last());
    } else {
        assert(s.update(i, v).drop_last() =~= s.drop_last().update(i, v));
        lemma_sum_of_update(s.drop_last(), i, v);
    }
}

/// Per-shard guild counters plus the one-time all-shards-ready trigger.
///
/// The counter vector grows by one slot as each shard reports ready for the
/// first time; afterwards join and leave events adjust single slots. The
/// `fired` flag makes the fleet-wide ready action a one-time barrier: once it
/// has been triggered it can never trigger again.
pub struct ShardState {
    pub counts: Vec<u64>,
    pub fired: bool,
}

impl ShardState {
    /// Bounds that keep the fleet sum well below `u64::MAX`.
    pub open spec fn wf(self) -> bool {
        &&& self.counts@.len() <= MAX_SHARDS
        &&& forall|i: int|
            0 <= i < self.counts@.len() ==> self.counts@[i] <= MAX_GUILDS_PER_SHARD
    }

    pub open spec fn spec_sum(self) -> int {
        sum_of(self.counts@)
    }

    /// The aggregator is in its terminal phase once the one-time action ran.
    pub open spec fn all_ready(self) -> bool {
        self.fired
    }

    pub fn new() -> (s: ShardState)
        ensures
            s.wf(),
            s.counts@ == Seq::<u64>::empty(),
            !s.fired,
    {
        ShardState { counts: Vec::new(), fired: false }
    }

    /// One shard reports ready with its current guild count.
    ///
    /// Appends the count, and returns true exactly when this report completes
    /// the expected fleet and the one-time action has not yet run: the
    /// caller must perform the fleet-wide action if and only if this returns
    /// true. Checking and setting `fired` in the same exclusive step is what
    /// rules out a double fire when two final reports race.
    pub fn on_shard_ready(&mut self, guild_count: u64, total_shards: usize) -> (fire: bool)
        requires
            old(self).wf(),
            old(self).counts@.len() < MAX_SHARDS,
            guild_count <= MAX_GUILDS_PER_SHARD,
        ensures
            final(self).wf(),
            final(self).counts@ == old(self).counts@.push(guild_count),
            fire == (old(self).counts@.len() + 1 == total_shards && !old(self).fired),
            final(self).fired == (old(self).fired || fire),
    {
        self.counts.push(guild_count);
        let fire = self.counts.len() == total_shards && !self.fired;
        if fire {
            self.fired = true;
        }
        fire
    }

    /// A guild joined on `shard`: bump that shard's slot by one.
    pub fn on_guild_join(&mut self, shard: usize)
        requires
            old(self).wf(),
            shard < old(self).counts@.len(),
            old(self).counts@[shard as int] < MAX_GUILDS_PER_SHARD,
        ensures
            final(self).wf(),
            final(self).counts@ == old(self).counts@.update(
                shard as int,
                (old(self).counts@[shard as int] + 1) as u64,
            ),
            final(self).fired == old(self).fired,
            final(self).spec_sum() == old(self).spec_sum() + 1,
    {
        let c = self.counts[shard];
        self.counts.set(shard, c + 1);
        proof {
            lemma_sum_of_update(old(self).counts@, shard as int, (c + 1) as u64);
        }
    }

    /// A guild left on `shard`: drop that shard's slot by one.
    pub fn on_guild_leave(&mut self, shard: usize)
        requires
            old(self).wf(),
            shard < old(self).counts@.len(),
            old(self).counts@[shard as int] > 0,
        ensures
            final(self).wf(),
            final(self).counts@ == old(self).counts@.update(
                shard as int,
                (old(self).counts@[shard as int] - 1) as u64,
            ),
            final(self).fired == old(self).fired,
            final(self).spec_sum() == old(self).spec_sum() - 1,
    {
        let c = self.counts[shard];
        self.counts.set(shard, c - 1);
        proof {
            lemma_sum_of_update(old(self).counts@, shard as int, (c - 1) as u64);
        }
    }

    /// Handles one shard's ready report end to end: the count is
    /// appended, and exactly when this report completes the fleet for the
    /// first time, the fleet-wide guild total to publish (to stats and
    /// presence) is returned — once per process lifetime, never again.
    pub fn handle_shard_ready(&mut self, guild_count: u64, total_shards: usize) -> (r: Option<
        u64,
    >)
        requires
            old(self).wf(),
            old(self).counts@.len() < MAX_SHARDS,
            guild_count <= MAX_GUILDS_PER_SHARD,
        ensures
            final(self).wf(),
            final(self).counts@ == old(self).counts@.push(guild_count),
            (r is Some) == (old(self).counts@.len() + 1 == total_shards && !old(self).fired),
            r matches Some(total) ==> total == final(self).spec_sum(),
            final(self).fired == (old(self).fired || r is Some),
    {
        let fire = self.on_shard_ready(guild_count, total_shards);
        if fire {
            Some(self.fleet_sum())
        } else {
            None
        }
    }

    /// The fleet-wide guild total, summed on demand over every shard slot.
    pub fn fleet_sum(&self) -> (sum: u64)
        requires
            self.wf(),
        ensures
            sum == self.spec_sum(),
    {
        let n = self.counts.len();
        let mut sum: u64 = 0;
        let mut i: usize = 0;
        while i < n
            invariant
                i <= n,
                n == self.counts@.len(),
                self.wf(),
                sum == sum_of(self.counts@.take(i as int)),
                sum <= i * (MAX_GUILDS_PER_SHARD as int),
            decreases n - i,
        {
            proof {
                lemma_sum_of_take(self.counts@, i as int);
                lemma_sum_of_bound(self.counts@.take(i as int + 1), MAX_GUILDS_PER_SHARD);
            }
            sum = sum + self.counts[i];
            i = i + 1;
        }
        proof {
            assert(self.counts@.take(n as int) =~= self.counts@);
        }
        sum
    }
}

/// Join events older than this many seconds are stale replays, not fresh
/// joins, for notification purposes.
pub const JOIN_GRACE_SECONDS: i64 = 30;

/// What a guild-join callback must do.
pub struct JoinPlan {
    /// Bump the reporting shard's counter — on every join callback,
    /// whatever its age.
    pub count_guild: bool,
    /// Post the join notification and count the new server, only while
    /// the join is fresh.
    pub post_notifications: bool,
}

/// Decides a guild-join callback from the guild's join timestamp and the
/// current time (both in whole seconds): the shard counter is always
/// updated, while the notification side effects are gated behind the
/// freshness window.
pub fn plan_guild_join(joined_at: i64, now: i64) -> (p: JoinPlan)
    requires
        joined_at <= i64::MAX - JOIN_GRACE_SECONDS,
    ensures
        p.count_guild,
        p.post_notifications == (joined_at + JOIN_GRACE_SECONDS > now),
{
    JoinPlan { count_guild: true, post_notifications: joined_at + JOIN_GRACE_SECONDS > now }
}

/// Ghost model of the aggregator state, for stating the one-time-fire law.
pub struct ReadyModel {
    pub counts: Seq<u64>,
    pub fired: bool,
}

/// One ready report, exactly as `on_shard_ready` performs it: append the
/// count, fire when the fleet is complete and the action has not run yet.
pub open spec fn ready_step(st: ReadyModel, guild_count: u64, total: int) -> (ReadyModel, bool) {
    let fire = st.counts.len() + 1 == total && !st.fired;
    (ReadyModel { counts: st.counts.push(guild_count), fired: st.fired || fire }, fire)
}

/// How many of a run of ready reports fired the fleet-wide action.
pub open spec fn fires_in(st: ReadyModel, reports: Seq<u64>, total: int) -> int
    decreases reports.len(),
{
    if reports.len() == 0 {
        0
    } else {
        let step = ready_step(st, reports[0], total);
        (if step.1 {
            1int
        } else {
            0int
        }) + fires_in(step.0, reports.skip(1), total)
    }
}

proof fn lemma_fires_in_aux(st: ReadyModel, reports: Seq<u64>, total: int)
    requires
        total >= 1,
        st.fired == (st.counts.len() >= total),
    ensures
        fires_in(st, reports, total) == if !st.fired && st.counts.len() + reports.len()
            >= total {
            1int
        } else {
            0int
        },
    decreases reports.len(),
{
    if reports.len() > 0 {
        let step = ready_step(st, reports[0], total);
        lemma_fires_in_aux(step.0, reports.skip(1), total);
    }
}

/// One-time barrier law: starting from a fresh aggregator, a run of ready
/// reports triggers the fleet-wide action exactly once as soon as the run is
/// long enough to cover every expected shard — whatever counts the shards
/// report, in whatever order their reports arrive — and duplicate reports
/// beyond that never trigger it again.
pub proof fn lemma_ready_fires_exactly_once(reports: Seq<u64>, total: int)
    requires
        total >= 1,
    ensures
        fires_in(ReadyModel { counts: Seq::empty(), fired: false }, reports, total) == (
        if reports.len() >= total {
            1int
        } else {
            0int
        }),
{
    lemma_fires_in_aux(ReadyModel { counts: Seq::empty(), fired: false }, reports, total);
}

/// Ghost model of one guild lifecycle event: a join or a leave on one shard.
pub struct GuildEvent {
    pub shard: int,
    pub join: bool,
}

/// One event applied to the per-shard counters, exactly as `on_guild_join`
/// and `on_guild_leave` perform it.
pub open spec fn apply_event(counts: Seq<u64>, e: GuildEvent) -> Seq<u64> {
    if e.join {
        counts.update(e.shard, (counts[e.shard] + 1) as u64)
    } else {
        counts.update(e.shard, (counts[e.shard] - 1) as u64)
    }
}

/// Whether one event meets the preconditions of the counter updates.
pub open spec fn event_ok(counts: Seq<u64>, e: GuildEvent) -> bool {
    &&& 0 <= e.shard < counts.len()
    &&& e.join ==> counts[e.shard] < MAX_GUILDS_PER_SHARD
    &&& !e.join ==> counts[e.shard] > 0
}

pub open spec fn apply_events(counts: Seq<u64>, es: Seq<GuildEvent>) -> Seq<u64>
    decreases es.len(),
{
    if es.len() == 0 {
        counts
    } else {
        apply_events(apply_event(counts, es[0]), es.skip(1))
    }
}

pub open spec fn events_ok(counts: Seq<u64>, es: Seq<GuildEvent>) -> bool
    decreases es.len(),
{
    if es.len() == 0 {
        true
    } else {
        event_ok(counts, es[0]) && events_ok(apply_event(counts, es[0]), es.skip(1))
    }
}

/// How many events of a run hit `shard` with the given direction.
pub open spec fn events_for(es: Seq<GuildEvent>, shard: int, join: bool) -> int
    decreases es.len(),
{
    if es.len() == 0 {
        0
    } else {
        (if es[0].shard == shard && es[0].join == join {
            1int
        } else {
            0int
        }) + events_for(es.skip(1), shard, join)
    }
}

/// How many events of a run go in the given direction, over all shards.
pub open spec fn events_total(es: Seq<GuildEvent>, join: bool) -> int
    decreases es.len(),
{
    if es.len() == 0 {
        0
    } else {
        (if es[0].join == join {
            1int
        } else {
            0int
        }) + events_total(es.skip(1), join)
    }
}

/// No update is ever lost: after any serialized run of join and leave
/// events, distributed arbitrarily across the shards, every slot holds its
/// initial value plus its joins minus its leaves, and the fleet sum equals
/// the initial sum plus all joins minus all leaves.
pub proof fn lemma_events_lose_no_update(counts: Seq<u64>, es: Seq<GuildEvent>)
    requires
        events_ok(counts, es),
    ensures
        apply_events(counts, es).len() == counts.len(),
        forall|i: int|
            0 <= i < counts.len() ==> apply_events(counts, es)[i] == counts[i] + events_for(
                es,
                i,
                true,
            ) - events_for(es, i, false),
        sum_of(apply_events(counts, es)) == sum_of(counts) + events_total(es, true)
            - events_total(es, false),
    decreases es.len(),
{
    if es.len() > 0 {
        let next = apply_event(counts, es[0]);
        lemma_sum_of_update(
            counts,
            es[0].shard,
            (if es[0].join {
                counts[es[0].shard] + 1
            } else {
                counts[es[0].shard] - 1
            }) as u64,
        );
        lemma_events_lose_no_update(next, es.skip(1));
    }
}

} // verus!

