//! The ingestion of readings into the buffer.
//!
//! Readings are gathered over a window of time.  When a batch of readings
//! arrives after the window has run out, everything gathered is summarized
//! and the summaries go into the buffer.  A device may also be ingested
//! without a window: each batch of readings then goes to the buffer at once,
//! one point for each complete reading.

use vstd::prelude::*;
use crate::cache::{newest, point_views, Cache};
use crate::data_manipulation::{
    calculate_average,
    complete_points,
    create_averaged_data_point,
    is_averaging_of,
    lemma_complete_push,
    views,
    DataPoint,
    DataPointView,
    MyDataPoint,
    MyDataPointView,
};

verus! {

/// What a window holds.
pub struct IngestionWindowView {
    /// The instant, in seconds, at which the window began.
    pub previous_timestamp: i64,
    /// The length of the window, in seconds.
    pub window_seconds: i64,
    /// The readings gathered since the window began.
    pub points: Seq<MyDataPointView>,
}

/// The readings gathered since the last summary, and the instant of that
/// summary.
pub struct IngestionWindow {
    previous_timestamp: i64,
    window_seconds: i64,
    points: Vec<MyDataPoint>,
}

impl View for IngestionWindow {
    type V = IngestionWindowView;

    closed spec fn view(&self) -> IngestionWindowView {
        IngestionWindowView {
            previous_timestamp: self.previous_timestamp,
            window_seconds: self.window_seconds,
            points: views(self.points@),
        }
    }
}

/// The window that began at `previous` has run out at `now`: more than
/// `window_seconds` lie between them.
pub open spec fn window_elapsed(previous: i64, now: i64, window_seconds: i64) -> bool {
    now - previous > window_seconds
}

/// Readings in a row hold what each of the rows holds, one after the other.
pub proof fn lemma_views_concat(first: Seq<MyDataPoint>, second: Seq<MyDataPoint>)
    ensures
        views(first + second) == views(first) + views(second),
{
    assert(views(first + second) =~= views(first) + views(second));
}

impl IngestionWindow {
    /// An empty window of `window_seconds` that begins at `started_at`.
    pub fn new(started_at: i64, window_seconds: i64) -> (window: IngestionWindow)
        ensures
            window@ == (IngestionWindowView {
                previous_timestamp: started_at,
                window_seconds,
                points: Seq::<MyDataPointView>::empty(),
            }),
    {
        let window = IngestionWindow {
            previous_timestamp: started_at,
            window_seconds,
            points: Vec::new(),
        };
        assert(views(window.points@) =~= Seq::<MyDataPointView>::empty());
        window
    }

    /// The number of readings gathered since the window began.
    pub fn len(&self) -> (len: usize)
        ensures
            len == self@.points.len(),
    {
        self.points.len()
    }

    /// Takes in the readings that arrived at `now`.  Where the window has run
    /// out, hands out everything gathered, these readings included, and begins
    /// a new window at `now`; else keeps them.
    pub fn accept(&mut self, new_points: Vec<MyDataPoint>, now: i64) -> (batch: Option<
        Vec<MyDataPoint>,
    >)
        ensures
            final(self)@.window_seconds == old(self)@.window_seconds,
            match batch {
                Some(gathered) => {
                    &&& window_elapsed(old(self)@.previous_timestamp, now, old(self)@.window_seconds)
                    &&& views(gathered@) == old(self)@.points + views(new_points@)
                    &&& final(self)@.points == Seq::<MyDataPointView>::empty()
                    &&& final(self)@.previous_timestamp == now
                },
                None => {
                    &&& !window_elapsed(old(self)@.previous_timestamp, now, old(self)@.window_seconds)
                    &&& final(self)@.points == old(self)@.points + views(new_points@)
                    &&& final(self)@.previous_timestamp == old(self)@.previous_timestamp
                },
            },
    {
        let mut arrived = new_points;
        proof {
            lemma_views_concat(self.points@, arrived@);
        }
        self.points.append(&mut arrived);
        if now as i128 - self.previous_timestamp as i128 > self.window_seconds as i128 {
            let mut gathered: Vec<MyDataPoint> = Vec::new();
            std::mem::swap(&mut gathered, &mut self.points);
            self.previous_timestamp = now;
            assert(views(self.points@) =~= Seq::<MyDataPointView>::empty());
            Some(gathered)
        } else {
            None
        }
    }
}

/// One turn of the windowed ingestion: takes in the readings that arrived at
/// `now` and, where the window has run out, summarizes everything gathered
/// and adds the summaries to the buffer.  Says whether it did.
pub fn run_serial_to_influx_step<F: Fn(&Vec<u64>) -> u64>(
    window: &mut IngestionWindow,
    cache: &mut Cache,
    new_points: Vec<MyDataPoint>,
    now: i64,
    mean_of: &F,
) -> (summarized: bool)
    requires
        forall|v: Vec<u64>| v@.len() > 0 ==> call_requires(mean_of, (&v,)),
    ensures
        summarized == window_elapsed(
            old(window)@.previous_timestamp,
            now,
            old(window)@.window_seconds,
        ),
        final(window)@.window_seconds == old(window)@.window_seconds,
        final(cache).spec_capacity() == old(cache).spec_capacity(),
        summarized ==> {
            &&& final(window)@.points == Seq::<MyDataPointView>::empty()
            &&& final(window)@.previous_timestamp == now
            &&& exists|averages: Seq<DataPoint>|
                {
                    &&& #[trigger] is_averaging_of(
                        averages,
                        old(window)@.points + views(new_points@),
                        mean_of,
                    )
                    &&& final(cache)@ == newest(
                        old(cache)@ + point_views(averages),
                        old(cache).spec_capacity(),
                    )
                }
        },
        !summarized ==> {
            &&& final(window)@.points == old(window)@.points + views(new_points@)
            &&& final(window)@.previous_timestamp == old(window)@.previous_timestamp
            &&& final(cache)@ == old(cache)@
        },
{
    match window.accept(new_points, now) {
        Some(gathered) => {
            let averages = calculate_average(gathered, mean_of);
            let ghost summaries = averages@;
            cache.add(averages);
            assert(is_averaging_of(summaries, old(window)@.points + views(new_points@), mean_of));
            true
        },
        None => false,
    }
}

/// The point that a complete reading stands for by itself.
pub open spec fn direct_point(reading: MyDataPointView) -> DataPointView {
    DataPointView {
        measurement: reading.measurement,
        tags: reading.tags,
        value: reading.value->0,
        timestamp: reading.timestamp->0,
    }
}

/// The points that readings stand for without a window: one for each complete
/// reading, in their order, and none for the others.
pub open spec fn direct_points(readings: Seq<MyDataPointView>) -> Seq<DataPointView> {
    complete_points(readings).map_values(|r: MyDataPointView| direct_point(r))
}

/// Turns each complete reading into a point of its own and drops the others.
pub fn points_from_readings(readings: &Vec<MyDataPoint>) -> (points: Vec<DataPoint>)
    ensures
        point_views(points@) == direct_points(views(readings@)),
{
    let ghost all = views(readings@);
    let mut points: Vec<DataPoint> = Vec::new();
    let mut i: usize = 0;
    proof {
        reveal(Seq::filter);
        assert(all.take(0) =~= Seq::<MyDataPointView>::empty());
        assert(point_views(points@) =~= direct_points(all.take(0)));
    }
    while i < readings.len()
        invariant
            i <= readings@.len(),
            all == views(readings@),
            point_views(points@) == direct_points(all.take(i as int)),
        decreases readings@.len() - i,
    {
        let reading = &readings[i];
        proof {
            lemma_complete_push(all.take(i as int), all[i as int]);
            assert(all.take(i + 1) =~= all.take(i as int).push(all[i as int]));
        }
        match (reading.get_field_value(), reading.get_timestamp()) {
            (Some(value), Some(timestamp)) => {
                if reading.is_complete() {
                    let ghost before = points@;
                    let point = create_averaged_data_point(
                        reading.get_measurement(),
                        value,
                        timestamp,
                        reading.get_tags(),
                    );
                    points.push(point);
                    proof {
                        assert(point@ == direct_point(all[i as int]));
                        assert(point_views(points@) =~= point_views(before).push(point@));
                        assert(direct_points(all.take(i + 1)) =~= direct_points(
                            all.take(i as int),
                        ).push(direct_point(all[i as int])));
                    }
                }
            },
            _ => {},
        }
        i += 1;
    }
    proof {
        assert(all.take(i as int) =~= all);
    }
    points
}

/// One turn of the ingestion without a window: the complete readings go to the
/// buffer at once, a point each.
pub fn push_readings_directly(cache: &mut Cache, new_points: &Vec<MyDataPoint>)
    ensures
        final(cache)@ == newest(
            old(cache)@ + direct_points(views(new_points@)),
            old(cache).spec_capacity(),
        ),
        final(cache).spec_capacity() == old(cache).spec_capacity(),
{
    let points = points_from_readings(new_points);
    cache.add(points);
}

} // verus!
