use aero_sensor_broker::cache::{Cache, FlushOutcome, FlushScheduler, FlushState};
use aero_sensor_broker::data_manipulation::{create_averaged_data_point, DataPoint};

fn point(name: &str) -> DataPoint {
    create_averaged_data_point(name, 1.0f64.to_bits(), 1, Vec::new())
}

fn names(points: &[DataPoint]) -> Vec<String> {
    points.iter().map(|p| p.measurement().to_string()).collect()
}

#[test]
fn new_cache_is_empty() {
    let mut cache = Cache::new(1000);
    assert!(cache.is_empty());
    assert_eq!(cache.len(), 0);
    assert_eq!(cache.capacity(), 1000);
    assert!(cache.retrieve_and_clear().is_empty());
}

#[test]
fn push_beyond_capacity_evicts_the_oldest() {
    let mut cache = Cache::new(3);
    cache.add(vec![point("A"), point("B"), point("C")]);
    cache.add(vec![point("D")]);
    assert_eq!(cache.len(), 3);
    assert_eq!(names(&cache.retrieve_and_clear()), vec!["B", "C", "D"]);
}

#[test]
fn push_within_capacity_keeps_everything_in_order() {
    let mut cache = Cache::new(5);
    cache.add(vec![point("A"), point("B")]);
    cache.add(Vec::new());
    cache.add(vec![point("C")]);
    assert_eq!(cache.len(), 3);
    assert!(!cache.is_empty());
    assert_eq!(names(&cache.retrieve_and_clear()), vec!["A", "B", "C"]);
}

#[test]
fn batch_larger_than_capacity_keeps_its_newest() {
    let mut cache = Cache::new(2);
    cache.add(vec![point("A")]);
    cache.add(vec![point("B"), point("C"), point("D"), point("E")]);
    assert_eq!(cache.len(), 2);
    assert_eq!(names(&cache.retrieve_and_clear()), vec!["D", "E"]);
}

#[test]
fn batch_that_fills_the_cache_exactly_evicts_everything_old() {
    let mut cache = Cache::new(2);
    cache.add(vec![point("A"), point("B")]);
    cache.add(vec![point("C"), point("D")]);
    assert_eq!(names(&cache.retrieve_and_clear()), vec!["C", "D"]);
}

#[test]
fn cache_without_capacity_holds_nothing() {
    let mut cache = Cache::new(0);
    cache.add(vec![point("A"), point("B")]);
    assert!(cache.is_empty());
    assert!(cache.retrieve_and_clear().is_empty());
}

#[test]
fn length_never_exceeds_capacity() {
    let mut cache = Cache::new(4);
    for round in 0..10 {
        let batch: Vec<DataPoint> = (0..round).map(|i| point(&format!("{}-{}", round, i))).collect();
        cache.add(batch);
        assert!(cache.len() <= 4);
    }
    assert_eq!(names(&cache.retrieve_and_clear()), vec!["9-5", "9-6", "9-7", "9-8"]);
}

#[test]
fn drain_empties_the_cache() {
    let mut cache = Cache::new(3);
    cache.add(vec![point("A"), point("B")]);
    assert_eq!(names(&cache.retrieve_and_clear()), vec!["A", "B"]);
    assert!(cache.is_empty());
    assert!(cache.retrieve_and_clear().is_empty());
    assert_eq!(cache.capacity(), 3);
}

#[test]
fn flush_of_an_empty_cache_writes_nothing() {
    let mut cache = Cache::new(3);
    assert!(cache.periodic_flush().is_none());
    cache.add(vec![point("A")]);
    let batch = cache.periodic_flush().unwrap();
    assert_eq!(names(&batch), vec!["A"]);
    assert!(cache.periodic_flush().is_none());
}

#[test]
fn scheduler_skips_the_sink_when_the_cache_is_empty() {
    let mut cache = Cache::new(3);
    let mut scheduler = FlushScheduler::new();
    assert_eq!(scheduler.state(), FlushState::Idle);
    assert!(scheduler.on_tick(&mut cache).is_none());
    assert_eq!(scheduler.state(), FlushState::Idle);
}

#[test]
fn failed_batch_is_not_delivered_again() {
    let mut cache = Cache::new(10);
    let mut scheduler = FlushScheduler::new();
    cache.add(vec![point("A"), point("B")]);
    let failed = scheduler.on_tick(&mut cache).unwrap();
    assert_eq!(names(&failed), vec!["A", "B"]);
    assert_eq!(scheduler.state(), FlushState::Flushing);
    assert_eq!(scheduler.on_write_done(false), FlushOutcome::Discarded);
    assert_eq!(scheduler.state(), FlushState::Idle);
    assert!(cache.is_empty());
    cache.add(vec![point("C")]);
    let delivered = scheduler.on_tick(&mut cache).unwrap();
    assert_eq!(names(&delivered), vec!["C"]);
    assert_eq!(scheduler.on_write_done(true), FlushOutcome::Delivered);
    assert_eq!(scheduler.state(), FlushState::Idle);
    assert!(scheduler.on_tick(&mut cache).is_none());
}

#[test]
fn only_one_flush_is_under_way_at_a_time() {
    let mut cache = Cache::new(10);
    let mut scheduler = FlushScheduler::new();
    cache.add(vec![point("A")]);
    assert!(scheduler.on_tick(&mut cache).is_some());
    cache.add(vec![point("B")]);
    assert!(scheduler.on_tick(&mut cache).is_none());
    assert_eq!(scheduler.state(), FlushState::Flushing);
    assert_eq!(cache.len(), 1);
    assert_eq!(scheduler.on_write_done(true), FlushOutcome::Delivered);
    assert_eq!(names(&scheduler.on_tick(&mut cache).unwrap()), vec!["B"]);
}

#[test]
fn write_done_without_a_flush_changes_nothing() {
    let mut scheduler = FlushScheduler::new();
    assert_eq!(scheduler.on_write_done(true), FlushOutcome::NotFlushing);
    assert_eq!(scheduler.on_write_done(false), FlushOutcome::NotFlushing);
    assert_eq!(scheduler.state(), FlushState::Idle);
}
