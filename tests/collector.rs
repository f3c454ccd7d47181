use event_collector::collector::EventCollector;
use event_collector::event::{CollectedEvent, FieldValue};
use event_collector::filter::AllowedTargets;
use event_collector::level::Level;
use event_collector::retention::push_bounded;

fn event(level: Level, target: &str) -> CollectedEvent {
    CollectedEvent::new(level, target.to_string(), None, Vec::new())
}

fn summary(events: &[CollectedEvent]) -> Vec<(&'static str, String)> {
    events
        .iter()
        .map(|e| (e.level().as_str(), e.target().to_string()))
        .collect()
}

#[test]
fn warn_threshold_capacity_two_scenario() {
    let mut collector = EventCollector::new()
        .with_level(Level::Warn)
        .allowed_targets(AllowedTargets::All)
        .with_max_events(2);
    collector.collect(event(Level::Error, "a"));
    collector.collect(event(Level::Info, "b"));
    collector.collect(event(Level::Warn, "c"));
    collector.collect(event(Level::Error, "d"));
    assert_eq!(
        summary(&collector.events()),
        vec![("WARN", "c".to_string()), ("ERROR", "d".to_string())]
    );
}

#[test]
fn origin_prefix_filter() {
    let mut collector =
        EventCollector::new().allowed_targets(AllowedTargets::Selected(vec!["db".to_string()]));
    collector.collect(event(Level::Info, "db::pool"));
    collector.collect(event(Level::Info, "network"));
    assert_eq!(summary(&collector.events()), vec![("INFO", "db::pool".to_string())]);
}

#[test]
fn origin_shorter_than_prefix_is_rejected() {
    let filter = AllowedTargets::Selected(vec!["db".to_string(), "net".to_string()]);
    assert!(!filter.allows("d"));
    assert!(filter.allows("network"));
    assert!(filter.allows("db"));
    assert!(!filter.allows(""));
    assert!(AllowedTargets::All.allows(""));
    assert!(!AllowedTargets::Selected(Vec::new()).allows("db"));
}

#[test]
fn default_keeps_everything() {
    let mut collector = EventCollector::default();
    let levels = [Level::Error, Level::Warn, Level::Info, Level::Debug, Level::Trace];
    for (i, level) in levels.iter().enumerate() {
        collector.collect(event(*level, &format!("origin{}", i)));
    }
    for i in 0..200 {
        collector.collect(event(Level::Trace, &format!("bulk{}", i)));
    }
    let kept = collector.events();
    assert_eq!(kept.len(), 205);
    assert_eq!(kept[0].level(), Level::Error);
    assert_eq!(kept[4].level(), Level::Trace);
    assert_eq!(kept[4].target(), "origin4");
    assert_eq!(kept[204].target(), "bulk199");
}

#[test]
fn clear_then_snapshot_is_empty() {
    let mut collector = EventCollector::new().with_max_events(3);
    for i in 0..5 {
        collector.collect(event(Level::Info, &format!("t{}", i)));
    }
    assert_eq!(collector.events().len(), 3);
    collector.clear();
    assert!(collector.events().is_empty());
    collector.collect(event(Level::Warn, "after"));
    assert_eq!(summary(&collector.events()), vec![("WARN", "after".to_string())]);
}

#[test]
fn too_verbose_events_are_dropped() {
    let mut collector = EventCollector::new().with_level(Level::Info);
    collector.collect(event(Level::Debug, "x"));
    collector.collect(event(Level::Trace, "x"));
    collector.collect(event(Level::Info, "x"));
    collector.collect(event(Level::Error, "x"));
    assert_eq!(
        summary(&collector.events()),
        vec![("INFO", "x".to_string()), ("ERROR", "x".to_string())]
    );
}

#[test]
fn capacity_keeps_most_recent_in_order() {
    let mut collector = EventCollector::new().with_max_events(4);
    for i in 0..10 {
        collector.collect(event(Level::Error, &format!("e{}", i)));
    }
    let targets: Vec<String> = collector.events().iter().map(|e| e.target().to_string()).collect();
    assert_eq!(targets, vec!["e6", "e7", "e8", "e9"]);
}

#[test]
fn lowering_capacity_applies_at_next_insertion() {
    let mut collector = EventCollector::new();
    for i in 0..5 {
        collector.collect(event(Level::Error, &format!("e{}", i)));
    }
    let mut bounded = collector.clone().with_max_events(2);
    assert_eq!(bounded.events().len(), 5);
    bounded.collect(event(Level::Error, "e5"));
    let targets: Vec<String> = bounded.events().iter().map(|e| e.target().to_string()).collect();
    assert_eq!(targets, vec!["e4", "e5"]);
}

#[test]
fn clone_is_an_independent_copy() {
    let mut collector = EventCollector::new().with_level(Level::Warn);
    collector.collect(event(Level::Warn, "before"));
    let mut other = collector.clone();
    other.collect(event(Level::Error, "other"));
    other.collect(event(Level::Info, "dropped"));
    assert_eq!(summary(&collector.events()), vec![("WARN", "before".to_string())]);
    assert_eq!(
        summary(&other.events()),
        vec![("WARN", "before".to_string()), ("ERROR", "other".to_string())]
    );
}

#[test]
fn snapshot_is_independent_copy() {
    let mut collector = EventCollector::new();
    collector.collect(event(Level::Warn, "one"));
    let snapshot = collector.events();
    collector.collect(event(Level::Warn, "two"));
    assert_eq!(snapshot.len(), 1);
    assert_eq!(collector.events().len(), 2);
}

#[test]
fn acceptance_follows_both_filters() {
    let collector = EventCollector::new()
        .with_level(Level::Warn)
        .allowed_targets(AllowedTargets::Selected(vec!["app".to_string()]));
    assert!(collector.accepts(&event(Level::Warn, "app::io")));
    assert!(!collector.accepts(&event(Level::Info, "app::io")));
    assert!(!collector.accepts(&event(Level::Error, "lib")));
}

#[test]
fn push_bounded_evicts_oldest() {
    let mut buffer: Vec<u32> = vec![1, 2, 3, 4, 5];
    push_bounded(&mut buffer, Some(3), 6);
    assert_eq!(buffer, vec![4, 5, 6]);
    push_bounded(&mut buffer, Some(3), 7);
    assert_eq!(buffer, vec![5, 6, 7]);
    push_bounded(&mut buffer, None, 8);
    assert_eq!(buffer, vec![5, 6, 7, 8]);
    let mut small: Vec<u32> = Vec::new();
    push_bounded(&mut small, Some(1), 9);
    push_bounded(&mut small, Some(1), 10);
    assert_eq!(small, vec![10]);
    push_bounded(&mut small, Some(0), 11);
    assert!(small.is_empty());
}

#[test]
fn level_order_and_names() {
    assert_eq!(Level::Error.rank(), 0);
    assert_eq!(Level::Warn.rank(), 1);
    assert_eq!(Level::Info.rank(), 2);
    assert_eq!(Level::Debug.rank(), 3);
    assert_eq!(Level::Trace.rank(), 4);
    assert!(Level::Error.is_within(&Level::Trace));
    assert!(!Level::Trace.is_within(&Level::Error));
    assert!(Level::Warn.is_within(&Level::Warn));
    assert_eq!(Level::Debug.as_str(), "DEBUG");
}

#[test]
fn event_record_keeps_its_payload() {
    let fields = vec![
        ("count".to_string(), FieldValue::Uint(3)),
        ("name".to_string(), FieldValue::Str("pool".to_string())),
    ];
    let record = CollectedEvent::new(Level::Info, "db".to_string(), Some("hi".to_string()), fields);
    assert_eq!(record.level(), Level::Info);
    assert_eq!(record.target(), "db");
    assert_eq!(record.message().as_deref(), Some("hi"));
    assert_eq!(record.fields().len(), 2);
    assert_eq!(record.fields()[0].0, "count");
    assert!(matches!(record.fields()[1].1, FieldValue::Str(ref s) if s == "pool"));
}

#[test]
fn interleaved_producers_lose_nothing() {
    let producers: usize = 4;
    let per_producer: usize = 50;
    let mut collector = EventCollector::new().with_max_events(producers * per_producer);
    for m in 0..per_producer {
        for p in 0..producers {
            let fields = vec![
                ("producer".to_string(), FieldValue::Uint(p as u64)),
                ("seq".to_string(), FieldValue::Uint(m as u64)),
            ];
            collector.collect(CollectedEvent::new(Level::Info, format!("p{}::m{}", p, m), None, fields));
        }
    }
    let kept = collector.events();
    assert_eq!(kept.len(), producers * per_producer);
    let mut seen = std::collections::HashSet::new();
    let mut last_seq: Vec<Option<usize>> = vec![None; producers];
    for e in &kept {
        assert!(seen.insert(e.target().to_string()));
        let (p, m) = match (&e.fields()[0].1, &e.fields()[1].1) {
            (FieldValue::Uint(p), FieldValue::Uint(m)) => (*p as usize, *m as usize),
            _ => panic!("unexpected field values"),
        };
        assert_eq!(e.target(), format!("p{}::m{}", p, m));
        if let Some(prev) = last_seq[p] {
            assert!(m > prev);
        }
        last_seq[p] = Some(m);
    }
}
