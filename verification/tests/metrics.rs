use event_timeline::metrics::{
    Collector, Context, Metric, MetricKind, PoolState, ProfilerKeys, QueryReport, QueueReport, QueueStats, Tags,
};
use event_timeline::profiler::EntryReport;

fn context() -> Context {
    Context {
        queues: None,
        db: PoolState { connections: 5, idle_connections: 2 },
        ro_db: PoolState { connections: 7, idle_connections: 3 },
        redis: None,
        profiler: vec![],
        running_requests: None,
    }
}

fn pairs(metrics: &Vec<Metric>) -> Vec<(MetricKind, i128)> {
    metrics.iter().map(|m| (m.kind, m.value)).collect()
}

#[test]
fn the_pools_are_always_reported() {
    let context = context();
    let collector = Collector::new(&context, 5);
    assert_eq!(collector.window(), 5);
    let metrics = collector.get(1_000);
    assert_eq!(
        pairs(&metrics),
        vec![
            (MetricKind::DbConnections, 5),
            (MetricKind::IdleDbConnections, 2),
            (MetricKind::RoDbConnections, 7),
            (MetricKind::IdleRoDbConnections, 3),
        ]
    );
    assert!(metrics.iter().all(|m| m.timestamp == 1_000));
    assert!(metrics.iter().all(|m| matches!(m.tags, Tags::Internal)));
}

#[test]
fn every_part_of_the_context_is_reported_in_order() {
    let mut context = context();
    context.queues = Some(vec![QueueReport {
        tag: "q1".to_string(),
        stats: QueueStats {
            incoming_requests: 1,
            incoming_responses: 2,
            incoming_events: 3,
            outgoing_requests: 4,
            outgoing_responses: 5,
            outgoing_events: 6,
        },
    }]);
    context.redis = Some(PoolState { connections: 9, idle_connections: 8 });
    context.profiler = vec![
        QueryReport {
            key: ProfilerKeys::StateQuery,
            method: Some("state.read".to_string()),
            report: EntryReport { p95: 95, p99: 99, max: 100 },
        },
        QueryReport {
            key: ProfilerKeys::EventVacuumQuery,
            method: None,
            report: EntryReport { p95: 1, p99: 2, max: 3 },
        },
    ];
    context.running_requests = Some(-1);

    let metrics = Collector::new(&context, 5).get(7);
    assert_eq!(
        pairs(&metrics),
        vec![
            (MetricKind::IncomingQueueRequests, 1),
            (MetricKind::IncomingQueueResponses, 2),
            (MetricKind::IncomingQueueEvents, 3),
            (MetricKind::OutgoingQueueRequests, 4),
            (MetricKind::OutgoingQueueResponses, 5),
            (MetricKind::OutgoingQueueEvents, 6),
            (MetricKind::DbConnections, 5),
            (MetricKind::IdleDbConnections, 2),
            (MetricKind::RoDbConnections, 7),
            (MetricKind::IdleRoDbConnections, 3),
            (MetricKind::RedisConnections, 9),
            (MetricKind::IdleRedisConnections, 8),
            (MetricKind::QueryP95(ProfilerKeys::StateQuery), 95),
            (MetricKind::QueryP99(ProfilerKeys::StateQuery), 99),
            (MetricKind::QueryMax(ProfilerKeys::StateQuery), 100),
            (MetricKind::QueryP95(ProfilerKeys::EventVacuumQuery), 1),
            (MetricKind::QueryP99(ProfilerKeys::EventVacuumQuery), 2),
            (MetricKind::QueryMax(ProfilerKeys::EventVacuumQuery), 3),
            (MetricKind::RunningRequests, -1),
        ]
    );
    assert!(matches!(&metrics[0].tags, Tags::Queue(tag) if tag == "q1"));
    assert!(matches!(&metrics[12].tags, Tags::Query(Some(method)) if method == "state.read"));
    assert!(matches!(&metrics[15].tags, Tags::Query(None)));
    assert!(metrics.iter().all(|m| m.timestamp == 7));
}
