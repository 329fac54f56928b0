use aero_sensor_broker::cache::Cache;
use aero_sensor_broker::data_manipulation::MyDataPoint;
use aero_sensor_broker::ingest::{
    points_from_readings, push_readings_directly, run_serial_to_influx_step, IngestionWindow,
};

fn mean(values: &Vec<u64>) -> u64 {
    let sum: f64 = values.iter().map(|bits| f64::from_bits(*bits)).sum();
    (sum / values.len() as f64).to_bits()
}

fn reading(measurement: &str, value: f64, timestamp: i64) -> MyDataPoint {
    MyDataPoint::new(
        measurement.to_string(),
        vec![("location".to_string(), "lab".to_string())],
        Some(value.to_bits()),
        Some(timestamp),
    )
}

#[test]
fn window_gathers_until_it_runs_out() {
    let mut window = IngestionWindow::new(1000, 60);
    assert!(window.accept(vec![reading("t", 1.0, 1)], 1030).is_none());
    assert!(window.accept(vec![reading("t", 2.0, 2)], 1060).is_none());
    assert_eq!(window.len(), 2);
    let batch = window.accept(vec![reading("t", 3.0, 3)], 1061).unwrap();
    let stamps: Vec<Option<i64>> = batch.iter().map(|p| p.get_timestamp()).collect();
    assert_eq!(stamps, vec![Some(1), Some(2), Some(3)]);
    assert_eq!(window.len(), 0);
    assert!(window.accept(vec![reading("t", 4.0, 4)], 1121).is_none());
    assert!(window.accept(Vec::new(), 1122).is_some());
}

#[test]
fn window_survives_the_largest_distance_in_time() {
    let mut window = IngestionWindow::new(i64::MIN, 60);
    assert!(window.accept(Vec::new(), i64::MAX).is_some());
    let mut window = IngestionWindow::new(i64::MAX, 60);
    assert!(window.accept(Vec::new(), i64::MIN).is_none());
}

#[test]
fn step_summarizes_at_the_end_of_the_window() {
    let mut window = IngestionWindow::new(0, 60);
    let mut cache = Cache::new(10);
    assert!(!run_serial_to_influx_step(
        &mut window,
        &mut cache,
        vec![reading("temp", 10.0, 100), reading("humidity", 40.0, 100)],
        30,
        &mean
    ));
    assert!(cache.is_empty());
    assert!(run_serial_to_influx_step(
        &mut window,
        &mut cache,
        vec![reading("temp", 20.0, 200)],
        61,
        &mean
    ));
    let points = cache.retrieve_and_clear();
    assert_eq!(points.len(), 2);
    assert_eq!(points[0].measurement(), "humidity");
    assert_eq!(f64::from_bits(points[0].value()), 40.0);
    assert_eq!(points[1].measurement(), "temp");
    assert_eq!(f64::from_bits(points[1].value()), 15.0);
    assert_eq!(points[1].timestamp(), 150);
    assert_eq!(window.len(), 0);
}

#[test]
fn readings_go_straight_to_points_without_a_window() {
    let readings = vec![
        reading("temp", 10.0, 100),
        MyDataPoint::new("temp".to_string(), Vec::new(), None, Some(1)),
        reading("temp", 20.0, 200),
    ];
    let points = points_from_readings(&readings);
    assert_eq!(points.len(), 2);
    assert_eq!(f64::from_bits(points[0].value()), 10.0);
    assert_eq!(points[0].timestamp(), 100);
    assert_eq!(f64::from_bits(points[1].value()), 20.0);
    assert_eq!(points[1].timestamp(), 200);
    assert_eq!(points[1].tags(), &vec![("location".to_string(), "lab".to_string())]);
    let mut cache = Cache::new(1);
    push_readings_directly(&mut cache, &readings);
    let kept = cache.retrieve_and_clear();
    assert_eq!(kept.len(), 1);
    assert_eq!(kept[0].timestamp(), 200);
}
