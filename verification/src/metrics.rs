//! Metrics: the readings of the service's context turned into a flat list
//! of metric values.

use vstd::prelude::*;
use crate::event::clone_opt;
use crate::profiler::EntryReport;

verus! {

/// The storage operations that the profiler measures.
#[derive(Clone, Copy, Debug, PartialEq, Eq, Structural)]
pub enum ProfilerKeys {
    AdjustmentInsertQuery,
    AgentDeleteQuery,
    AgentInsertQuery,
    AgentListQuery,
    AgentUpdateQuery,
    ChangeDeleteQuery,
    ChangeFindWithRoomQuery,
    ChangeInsertQuery,
    ChangeListQuery,
    EditionCloneEventsQuery,
    EditionCommitTxnCommit,
    EditionDeleteQuery,
    EditionFindWithRoomQuery,
    EditionInsertQuery,
    EditionListQuery,
    EventDeleteQuery,
    EventInsertQuery,
    EventListQuery,
    EventOriginalEventQuery,
    EventVacuumQuery,
    RoomAdjustCloneEventsQuery,
    RoomFindQuery,
    RoomInsertQuery,
    RoomUpdateQuery,
    StateTotalCountQuery,
    StateQuery,
}

/// The counters of one message queue.
#[derive(Clone, Copy, Debug, PartialEq, Eq, Structural)]
pub struct QueueStats {
    pub incoming_requests: u64,
    pub incoming_responses: u64,
    pub incoming_events: u64,
    pub outgoing_requests: u64,
    pub outgoing_responses: u64,
    pub outgoing_events: u64,
}

/// The size of a connection pool.
#[derive(Clone, Copy, Debug, PartialEq, Eq, Structural)]
pub struct PoolState {
    pub connections: u64,
    pub idle_connections: u64,
}

/// The report of the profiler on one operation, under one method.
#[derive(Debug)]
pub struct QueryReport {
    pub key: ProfilerKeys,
    pub method: Option<String>,
    pub report: EntryReport,
}

/// The counters of the queue with the given tag.
#[derive(Debug)]
pub struct QueueReport {
    pub tag: String,
    pub stats: QueueStats,
}

/// What the service knows of itself when metrics are collected.
#[derive(Debug)]
pub struct Context {
    pub queues: Option<Vec<QueueReport>>,
    pub db: PoolState,
    pub ro_db: PoolState,
    pub redis: Option<PoolState>,
    pub profiler: Vec<QueryReport>,
    pub running_requests: Option<i64>,
}

/// What a metric measures.
#[derive(Clone, Copy, Debug, PartialEq, Eq, Structural)]
pub enum MetricKind {
    IncomingQueueRequests,
    IncomingQueueResponses,
    IncomingQueueEvents,
    OutgoingQueueRequests,
    OutgoingQueueResponses,
    OutgoingQueueEvents,
    DbConnections,
    IdleDbConnections,
    RoDbConnections,
    IdleRoDbConnections,
    RedisConnections,
    IdleRedisConnections,
    QueryP95(ProfilerKeys),
    QueryP99(ProfilerKeys),
    QueryMax(ProfilerKeys),
    RunningRequests,
}

/// What a metric is tagged with: nothing but the service itself, the tag
/// of a queue, or the method under which an operation ran.
#[derive(Debug)]
pub enum Tags {
    Internal,
    Queue(String),
    Query(Option<String>),
}

/// One metric value at an instant.
#[derive(Debug)]
pub struct Metric {
    pub kind: MetricKind,
    pub value: i128,
    pub timestamp: i64,
    pub tags: Tags,
}

/// The metrics of the counters of one queue.
pub open spec fn queue_metrics(report: QueueReport, now: i64) -> Seq<Metric> {
    let m = |kind: MetricKind, value: u64|
        Metric { kind, value: value as i128, timestamp: now, tags: Tags::Queue(report.tag) };
    seq![
        m(MetricKind::IncomingQueueRequests, report.stats.incoming_requests),
        m(MetricKind::IncomingQueueResponses, report.stats.incoming_responses),
        m(MetricKind::IncomingQueueEvents, report.stats.incoming_events),
        m(MetricKind::OutgoingQueueRequests, report.stats.outgoing_requests),
        m(MetricKind::OutgoingQueueResponses, report.stats.outgoing_responses),
        m(MetricKind::OutgoingQueueEvents, report.stats.outgoing_events),
    ]
}

/// The metrics of the counters of all queues, in order.
pub open spec fn all_queue_metrics(reports: Seq<QueueReport>, now: i64) -> Seq<Metric>
    decreases reports.len(),
{
    if reports.len() == 0 {
        Seq::empty()
    } else {
        all_queue_metrics(reports.drop_last(), now) + queue_metrics(reports.last(), now)
    }
}

/// The metrics of the two storage pools.
pub open spec fn internal_metrics(db: PoolState, ro_db: PoolState, now: i64) -> Seq<Metric> {
    let m = |kind: MetricKind, value: u64|
        Metric { kind, value: value as i128, timestamp: now, tags: Tags::Internal };
    seq![
        m(MetricKind::DbConnections, db.connections),
        m(MetricKind::IdleDbConnections, db.idle_connections),
        m(MetricKind::RoDbConnections, ro_db.connections),
        m(MetricKind::IdleRoDbConnections, ro_db.idle_connections),
    ]
}

/// The metrics of the cache pool.
pub open spec fn redis_metrics(pool: PoolState, now: i64) -> Seq<Metric> {
    let m = |kind: MetricKind, value: u64|
        Metric { kind, value: value as i128, timestamp: now, tags: Tags::Internal };
    seq![
        m(MetricKind::RedisConnections, pool.connections),
        m(MetricKind::IdleRedisConnections, pool.idle_connections),
    ]
}

/// The three metrics of one report of the profiler.
pub open spec fn query_metrics(report: QueryReport, now: i64) -> Seq<Metric> {
    let m = |kind: MetricKind, value: usize|
        Metric { kind, value: value as i128, timestamp: now, tags: Tags::Query(report.method) };
    seq![
        m(MetricKind::QueryP95(report.key), report.report.p95),
        m(MetricKind::QueryP99(report.key), report.report.p99),
        m(MetricKind::QueryMax(report.key), report.report.max),
    ]
}

/// The metrics of all reports of the profiler, in order.
pub open spec fn profiler_metrics(reports: Seq<QueryReport>, now: i64) -> Seq<Metric>
    decreases reports.len(),
{
    if reports.len() == 0 {
        Seq::empty()
    } else {
        profiler_metrics(reports.drop_last(), now) + query_metrics(reports.last(), now)
    }
}

/// All metrics of a context at the instant `now`: those of the queues, of
/// the storage pools, of the cache pool, of the profiler, and the number of
/// running requests, each part present where the context has it.
pub open spec fn metrics_of(context: Context, now: i64) -> Seq<Metric> {
    (match context.queues {
        Some(reports) => all_queue_metrics(reports@, now),
        None => Seq::empty(),
    }) + internal_metrics(context.db, context.ro_db, now) + (match context.redis {
        Some(pool) => redis_metrics(pool, now),
        None => Seq::empty(),
    }) + profiler_metrics(context.profiler@, now) + (match context.running_requests {
        Some(count) => seq![
            Metric {
                kind: MetricKind::RunningRequests,
                value: count as i128,
                timestamp: now,
                tags: Tags::Internal,
            },
        ],
        None => Seq::empty(),
    })
}

/// Collects the metrics of a context over the last `duration` seconds.
pub struct Collector<'a> {
    context: &'a Context,
    duration: u64,
}

impl<'a> Collector<'a> {
    /// A collector over `context` for measurements of the last `duration`
    /// seconds.
    pub fn new(context: &'a Context, duration: u64) -> (res: Self)
        ensures
            *res.context() == *context,
            res.duration() == duration,
    {
        Self { context, duration }
    }

    /// The context that the collector reads.
    pub closed spec fn context(&self) -> &'a Context {
        self.context
    }

    /// The number of seconds that the measurements go back.
    pub closed spec fn duration(&self) -> u64 {
        self.duration
    }

    /// The number of seconds that the measurements go back.
    pub fn window(&self) -> (res: u64)
        ensures
            res == self.duration(),
    {
        self.duration
    }

    /// The metrics of the context at the instant `now`.
    pub fn get(&self, now: i64) -> (metrics: Vec<Metric>)
        ensures
            metrics@ == metrics_of(*self.context(), now),
    {
        let mut metrics: Vec<Metric> = Vec::new();
        append_mqtt_stats(&mut metrics, self.context, now);
        append_internal_stats(&mut metrics, self.context, now);
        append_redis_pool_metrics(&mut metrics, self.context, now);
        append_profiler_stats(&mut metrics, self.context, now);
        match self.context.running_requests {
            Some(count) => {
                metrics.push(
                    Metric {
                        kind: MetricKind::RunningRequests,
                        value: count as i128,
                        timestamp: now,
                        tags: Tags::Internal,
                    },
                );
            },
            None => {},
        }
        assert(metrics@ =~= metrics_of(*self.context, now));
        metrics
    }
}

/// Appends the metrics of the queues, where the context counts them.
pub fn append_mqtt_stats(metrics: &mut Vec<Metric>, context: &Context, now: i64)
    ensures
        final(metrics)@ == old(metrics)@ + (match context.queues {
            Some(reports) => all_queue_metrics(reports@, now),
            None => Seq::empty(),
        }),
{
    match &context.queues {
        Some(reports) => {
            let mut i: usize = 0;
            assert(reports@.take(0) =~= Seq::<QueueReport>::empty());
            while i < reports.len()
                invariant
                    0 <= i <= reports.len(),
                    metrics@ == old(metrics)@ + all_queue_metrics(reports@.take(i as int), now),
                decreases reports.len() - i,
            {
                let report = &reports[i];
                let ghost before = metrics@;
                proof {
                    assert(reports@.take(i + 1).drop_last() =~= reports@.take(i as int));
                    assert(reports@.take(i + 1).last() == *report);
                }
                let stats = report.stats;
                metrics.push(queue_metric(MetricKind::IncomingQueueRequests, stats.incoming_requests, now, &report.tag));
                metrics.push(queue_metric(MetricKind::IncomingQueueResponses, stats.incoming_responses, now, &report.tag));
                metrics.push(queue_metric(MetricKind::IncomingQueueEvents, stats.incoming_events, now, &report.tag));
                metrics.push(queue_metric(MetricKind::OutgoingQueueRequests, stats.outgoing_requests, now, &report.tag));
                metrics.push(queue_metric(MetricKind::OutgoingQueueResponses, stats.outgoing_responses, now, &report.tag));
                metrics.push(queue_metric(MetricKind::OutgoingQueueEvents, stats.outgoing_events, now, &report.tag));
                assert(metrics@ =~= before + queue_metrics(*report, now));
                i += 1;
            }
            assert(reports@.take(i as int) =~= reports@);
        },
        None => {
            assert(metrics@ =~= old(metrics)@ + Seq::<Metric>::empty());
        },
    }
}

fn queue_metric(kind: MetricKind, value: u64, now: i64, tag: &String) -> (res: Metric)
    ensures
        res == (Metric { kind, value: value as i128, timestamp: now, tags: Tags::Queue(*tag) }),
{
    Metric { kind, value: value as i128, timestamp: now, tags: Tags::Queue(tag.clone()) }
}

fn internal_metric(kind: MetricKind, value: u64, now: i64) -> (res: Metric)
    ensures
        res == (Metric { kind, value: value as i128, timestamp: now, tags: Tags::Internal }),
{
    Metric { kind, value: value as i128, timestamp: now, tags: Tags::Internal }
}

fn query_metric(kind: MetricKind, value: usize, now: i64, method: &Option<String>) -> (res: Metric)
    ensures
        res == (Metric { kind, value: value as i128, timestamp: now, tags: Tags::Query(*method) }),
{
    Metric { kind, value: value as i128, timestamp: now, tags: Tags::Query(clone_opt(method)) }
}

/// Appends the metrics of the two storage pools.
pub fn append_internal_stats(metrics: &mut Vec<Metric>, context: &Context, now: i64)
    ensures
        final(metrics)@ == old(metrics)@ + internal_metrics(context.db, context.ro_db, now),
{
    metrics.push(internal_metric(MetricKind::DbConnections, context.db.connections, now));
    metrics.push(internal_metric(MetricKind::IdleDbConnections, context.db.idle_connections, now));
    metrics.push(internal_metric(MetricKind::RoDbConnections, context.ro_db.connections, now));
    metrics.push(internal_metric(MetricKind::IdleRoDbConnections, context.ro_db.idle_connections, now));
    assert(metrics@ =~= old(metrics)@ + internal_metrics(context.db, context.ro_db, now));
}

/// Appends the metrics of the cache pool, where the context has one.
pub fn append_redis_pool_metrics(metrics: &mut Vec<Metric>, context: &Context, now: i64)
    ensures
        final(metrics)@ == old(metrics)@ + (match context.redis {
            Some(pool) => redis_metrics(pool, now),
            None => Seq::empty(),
        }),
{
    match context.redis {
        Some(pool) => {
            metrics.push(internal_metric(MetricKind::RedisConnections, pool.connections, now));
            metrics.push(internal_metric(MetricKind::IdleRedisConnections, pool.idle_connections, now));
            assert(metrics@ =~= old(metrics)@ + redis_metrics(pool, now));
        },
        None => {
            assert(metrics@ =~= old(metrics)@ + Seq::<Metric>::empty());
        },
    }
}

/// Appends three metrics for each report of the profiler: the two
/// percentiles and the maximum.
pub fn append_profiler_stats(metrics: &mut Vec<Metric>, context: &Context, now: i64)
    ensures
        final(metrics)@ == old(metrics)@ + profiler_metrics(context.profiler@, now),
{
    let reports = &context.profiler;
    let mut i: usize = 0;
    assert(reports@.take(0) =~= Seq::<QueryReport>::empty());
    while i < reports.len()
        invariant
            0 <= i <= reports.len(),
            metrics@ == old(metrics)@ + profiler_metrics(reports@.take(i as int), now),
        decreases reports.len() - i,
    {
        let report = &reports[i];
        let ghost before = metrics@;
        proof {
            assert(reports@.take(i + 1).drop_last() =~= reports@.take(i as int));
            assert(reports@.take(i + 1).last() == *report);
        }
        metrics.push(query_metric(MetricKind::QueryP95(report.key), report.report.p95, now, &report.method));
        metrics.push(query_metric(MetricKind::QueryP99(report.key), report.report.p99, now, &report.method));
        metrics.push(query_metric(MetricKind::QueryMax(report.key), report.report.max, now, &report.method));
        assert(metrics@ =~= before + query_metrics(*report, now));
        i += 1;
    }
    assert(reports@.take(i as int) =~= reports@);
}

} // verus!
