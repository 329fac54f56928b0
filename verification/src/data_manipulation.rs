//! Readings, their summaries, and the averaging that turns one into the other.
//!
//! A batch of readings is filtered for completeness, grouped by measurement
//! name and reduced to one [`DataPoint`] per group: the mean of the group's
//! values and the truncated integer mean of its timestamps, under the tags of
//! the group's first reading.
//!
//! A value is carried as the bit pattern of an IEEE-754 double.  The library
//! never computes on values: the mean of a group's values is taken by a
//! function that the caller supplies.

use vstd::prelude::*;
use vstd::arithmetic::div_mod::{lemma_fundamental_div_mod, lemma_mod_bound};
use vstd::string::*;
use crate::text::{lemma_name_lt_asymmetric, lemma_name_lt_total, lemma_name_lt_transitive, name_lt, str_lt};

verus! {

/// What a tag list stands for: pairs of key and value, in their order.
pub type TagsView = Seq<(Seq<char>, Seq<char>)>;

/// The pairs of key and value that a list of tags holds.
pub open spec fn tags_view(tags: Seq<(String, String)>) -> TagsView {
    tags.map_values(|t: (String, String)| (t.0@, t.1@))
}

/// What a reading holds.
pub struct MyDataPointView {
    pub measurement: Seq<char>,
    pub tags: TagsView,
    pub value: Option<u64>,
    pub timestamp: Option<i64>,
}

impl MyDataPointView {
    /// A reading is complete when it names its measurement and carries both a
    /// value and a timestamp.
    pub open spec fn is_complete(self) -> bool {
        &&& self.measurement.len() > 0
        &&& self.value is Some
        &&& self.timestamp is Some
    }
}

/// One decoded measurement, possibly incomplete.
#[derive(Debug, Clone)]
pub struct MyDataPoint {
    measurement: String,
    tags: Vec<(String, String)>,
    value: Option<u64>,
    timestamp: Option<i64>,
}

impl View for MyDataPoint {
    type V = MyDataPointView;

    closed spec fn view(&self) -> MyDataPointView {
        MyDataPointView {
            measurement: self.measurement@,
            tags: tags_view(self.tags@),
            value: self.value,
            timestamp: self.timestamp,
        }
    }
}

/// Copies a list of tags.
pub fn clone_tags(tags: &Vec<(String, String)>) -> (copy: Vec<(String, String)>)
    ensures
        copy@ == tags@,
{
    let mut copy: Vec<(String, String)> = Vec::new();
    let mut i: usize = 0;
    while i < tags.len()
        invariant
            i <= tags@.len(),
            copy@ == tags@.take(i as int),
        decreases tags@.len() - i,
    {
        let key = tags[i].0.clone();
        let value = tags[i].1.clone();
        copy.push((key, value));
        assert(copy@ =~= tags@.take(i + 1));
        i += 1;
    }
    assert(tags@.take(i as int) =~= tags@);
    copy
}

impl MyDataPoint {
    /// A reading of `measurement` under `tags`.  `value` is the bit pattern of
    /// the measured double, `timestamp` the instant of the measurement; either
    /// may be missing.
    pub fn new(
        measurement: String,
        tags: Vec<(String, String)>,
        value: Option<u64>,
        timestamp: Option<i64>,
    ) -> (point: MyDataPoint)
        ensures
            point@ == (MyDataPointView {
                measurement: measurement@,
                tags: tags_view(tags@),
                value,
                timestamp,
            }),
    {
        MyDataPoint { measurement, tags, value, timestamp }
    }

    /// The name of what was measured.
    pub fn get_measurement(&self) -> (name: &str)
        ensures
            name@ == self@.measurement,
    {
        self.measurement.as_str()
    }

    /// The bit pattern of the measured value, if the reading has one.
    pub fn get_field_value(&self) -> (value: Option<u64>)
        ensures
            value == self@.value,
    {
        self.value
    }

    /// The instant of the measurement, if the reading has one.
    pub fn get_timestamp(&self) -> (timestamp: Option<i64>)
        ensures
            timestamp == self@.timestamp,
    {
        self.timestamp
    }

    /// A copy of the reading's tags.
    pub fn get_tags(&self) -> (tags: Vec<(String, String)>)
        ensures
            tags_view(tags@) == self@.tags,
    {
        clone_tags(&self.tags)
    }

    /// Whether the reading names its measurement and carries both a value and
    /// a timestamp.
    pub fn is_complete(&self) -> (complete: bool)
        ensures
            complete == self@.is_complete(),
    {
        self.value.is_some() && self.timestamp.is_some() && !self.measurement.as_str().is_empty()
    }
}

/// The readings that a list holds.
pub open spec fn views(points: Seq<MyDataPoint>) -> Seq<MyDataPointView> {
    points.map_values(|p: MyDataPoint| p@)
}

/// The complete readings of `measurement` among `points`, in their order.
pub open spec fn members_of(points: Seq<MyDataPointView>, measurement: Seq<char>) -> Seq<
    MyDataPointView,
> {
    points.filter(|p: MyDataPointView| p.is_complete() && p.measurement == measurement)
}

/// The readings of one measurement.
#[derive(Debug)]
pub struct MeasurementGroup {
    pub measurement: String,
    pub points: Vec<MyDataPoint>,
}

/// `groups` is the grouping of `points`: one group for each measurement that a
/// complete reading names, in the order of names; each group holds all the
/// complete readings of its measurement, in their order, and nothing else.
pub open spec fn is_grouping_of(groups: Seq<MeasurementGroup>, points: Seq<MyDataPointView>) -> bool {
    &&& forall|i: int, j: int|
        0 <= i < j < groups.len() ==> name_lt(
            #[trigger] groups[i].measurement@,
            #[trigger] groups[j].measurement@,
        )
    &&& forall|i: int|
        0 <= i < groups.len() ==> {
            &&& views((#[trigger] groups[i]).points@) == members_of(points, groups[i].measurement@)
            &&& groups[i].points@.len() > 0
        }
    &&& forall|k: int|
        0 <= k < points.len() && (#[trigger] points[k]).is_complete() ==> has_group(
            groups,
            points[k].measurement,
        )
}

/// Some group of `groups` is that of `measurement`.
pub open spec fn has_group(groups: Seq<MeasurementGroup>, measurement: Seq<char>) -> bool {
    exists|i: int| 0 <= i < groups.len() && (#[trigger] groups[i]).measurement@ == measurement
}

/// A reading that joins a list joins the members of its own measurement, if it
/// is complete, and of no other.
pub proof fn lemma_members_push(
    points: Seq<MyDataPointView>,
    point: MyDataPointView,
    measurement: Seq<char>,
)
    ensures
        members_of(points.push(point), measurement) == if point.is_complete() && point.measurement
            == measurement {
            members_of(points, measurement).push(point)
        } else {
            members_of(points, measurement)
        },
{
    reveal(Seq::filter);
    assert(points.push(point).drop_last() =~= points);
}

/// Where no complete reading names a measurement, it has no members.
pub proof fn lemma_members_empty(points: Seq<MyDataPointView>, measurement: Seq<char>)
    requires
        forall|k: int|
            0 <= k < points.len() && (#[trigger] points[k]).is_complete() ==> points[k].measurement
                != measurement,
    ensures
        members_of(points, measurement) == Seq::<MyDataPointView>::empty(),
    decreases points.len(),
{
    reveal(Seq::filter);
    if points.len() > 0 {
        lemma_members_empty(points.drop_last(), measurement);
        assert(points.last() == points[points.len() - 1]);
    }
}

/// Puts a complete reading into the group of its measurement, which is made
/// where it does not exist yet.
fn insert_point(
    groups: &mut Vec<MeasurementGroup>,
    point: MyDataPoint,
    Ghost(seen): Ghost<Seq<MyDataPointView>>,
)
    requires
        is_grouping_of(old(groups)@, seen),
        point@.is_complete(),
    ensures
        is_grouping_of(final(groups)@, seen.push(point@)),
{
    let ghost before = groups@;
    let ghost pv = point@;
    let ghost name = point@.measurement;
    let mut pos: usize = 0;
    while pos < groups.len() && str_lt(groups[pos].measurement.as_str(), point.get_measurement())
        invariant
            pos <= groups@.len(),
            groups@ == before,
            name == point@.measurement,
            forall|i: int| 0 <= i < pos ==> name_lt((#[trigger] groups@[i]).measurement@, name),
        decreases groups@.len() - pos,
    {
        pos += 1;
    }
    let found = pos < groups.len() && groups[pos].measurement == point.measurement;
    assert(found == (pos < before.len() && before[pos as int].measurement@ == name));
    proof {
        assert forall|m: Seq<char>| #![auto] true implies members_of(seen.push(pv), m) == if pv.measurement == m {
            members_of(seen, m).push(pv)
        } else {
            members_of(seen, m)
        } by {
            lemma_members_push(seen, pv, m);
        }
    }
    if found {
        let ghost old_points = groups@[pos as int].points@;
        groups[pos].points.push(point);
        proof {
            let after = groups@;
            assert(after.len() == before.len());
            assert(after[pos as int].measurement == before[pos as int].measurement);
            assert(after[pos as int].points@ == old_points.push(point));
            assert forall|i: int| 0 <= i < after.len() && i != pos implies after[i] == before[i] by {}
            assert(views(old_points.push(point)) =~= views(old_points).push(pv));
            assert forall|i: int| 0 <= i < after.len() && i != pos implies (#[trigger] after[i]).measurement@ != name by {
                if i < pos {
                    lemma_name_lt_asymmetric(before[i].measurement@, before[pos as int].measurement@);
                } else {
                    lemma_name_lt_asymmetric(before[pos as int].measurement@, before[i].measurement@);
                }
            }
            assert forall|k: int|
                0 <= k < seen.push(pv).len() && (#[trigger] seen.push(pv)[k]).is_complete() implies has_group(
                after,
                seen.push(pv)[k].measurement,
            ) by {
                if k < seen.len() {
                    assert(seen[k].is_complete());
                    let i = choose|i: int| 0 <= i < before.len() && (#[trigger] before[i]).measurement@ == seen[k].measurement;
                    assert(after[i].measurement@ == seen[k].measurement);
                } else {
                    assert(after[pos as int].measurement@ == name);
                }
            }
            assert(is_grouping_of(after, seen.push(pv)));
        }
    } else {
        let mut points: Vec<MyDataPoint> = Vec::new();
        let measurement = point.measurement.clone();
        points.push(point);
        let group = MeasurementGroup { measurement, points };
        groups.insert(pos, group);
        proof {
            let after = groups@;
            assert(after == before.insert(pos as int, group));
            assert forall|i: int| pos <= i < before.len() implies name_lt(name, (#[trigger] before[i]).measurement@) by {
                lemma_name_lt_total(name, before[pos as int].measurement@);
                if i > pos {
                    lemma_name_lt_transitive(name, before[pos as int].measurement@, before[i].measurement@);
                }
            }
            assert forall|i: int| 0 <= i < before.len() implies (#[trigger] before[i]).measurement@ != name by {
                if i < pos {
                    lemma_name_lt_asymmetric(before[i].measurement@, name);
                } else {
                    lemma_name_lt_asymmetric(name, before[i].measurement@);
                }
            }
            assert forall|k: int| 0 <= k < seen.len() && (#[trigger] seen[k]).is_complete() implies seen[k].measurement != name by {
                let i = choose|i: int| 0 <= i < before.len() && (#[trigger] before[i]).measurement@ == seen[k].measurement;
            }
            lemma_members_empty(seen, name);
            assert(views(group.points@) =~= Seq::<MyDataPointView>::empty().push(pv));
            assert forall|i: int| 0 <= i < after.len() implies {
                &&& views((#[trigger] after[i]).points@) == members_of(seen.push(pv), after[i].measurement@)
                &&& after[i].points@.len() > 0
            } by {
                if i < pos {
                    assert(after[i] == before[i]);
                } else if i > pos {
                    assert(after[i] == before[i - 1]);
                }
            }
            assert forall|i: int, j: int| 0 <= i < j < after.len() implies name_lt(
                #[trigger] after[i].measurement@,
                #[trigger] after[j].measurement@,
            ) by {
                if i < pos {
                    assert(after[i] == before[i]);
                } else if i > pos {
                    assert(after[i] == before[i - 1]);
                }
                if j < pos {
                    assert(after[j] == before[j]);
                } else if j > pos {
                    assert(after[j] == before[j - 1]);
                }
            }
            assert forall|k: int|
                0 <= k < seen.push(pv).len() && (#[trigger] seen.push(pv)[k]).is_complete() implies has_group(
                after,
                seen.push(pv)[k].measurement,
            ) by {
                if k < seen.len() {
                    assert(seen[k].is_complete());
                    let i = choose|i: int| 0 <= i < before.len() && (#[trigger] before[i]).measurement@ == seen[k].measurement;
                    if i < pos {
                        assert(after[i] == before[i]);
                    } else {
                        assert(after[i + 1] == before[i]);
                    }
                } else {
                    assert(after[pos as int].measurement@ == name);
                }
            }
            assert(is_grouping_of(after, seen.push(pv)));
        }
    }
}

/// Groups the complete readings of a batch by measurement and drops the rest.
pub fn group_and_filter_data_points(data_points: Vec<MyDataPoint>) -> (groups: Vec<MeasurementGroup>)
    ensures
        is_grouping_of(groups@, views(data_points@)),
{
    let mut groups: Vec<MeasurementGroup> = Vec::new();
    let ghost all = views(data_points@);
    for point in it: data_points
        invariant
            all == views(it.seq()),
            is_grouping_of(groups@, all.take(it.index() as int)),
    {
        let ghost seen = all.take(it.index() as int);
        proof {
            assert(all.take(it.index() + 1) =~= seen.push(point@));
        }
        if point.is_complete() {
            insert_point(&mut groups, point, Ghost(seen));
        } else {
            proof {
                let pv = point@;
                assert forall|i: int| 0 <= i < groups@.len() implies views((#[trigger] groups@[i]).points@)
                    == members_of(seen.push(pv), groups@[i].measurement@) by {
                    lemma_members_push(seen, pv, groups@[i].measurement@);
                }
                assert forall|k: int|
                    0 <= k < seen.push(pv).len() && (#[trigger] seen.push(pv)[k]).is_complete() implies has_group(
                    groups@,
                    seen.push(pv)[k].measurement,
                ) by {
                    assert(seen[k].is_complete());
                }
            }
        }
    }
    proof {
        assert(all.take(all.len() as int) =~= all);
    }
    groups
}

/// The complete readings among `points`, in their order.
pub open spec fn complete_points(points: Seq<MyDataPointView>) -> Seq<MyDataPointView> {
    points.filter(|p: MyDataPointView| p.is_complete())
}

/// The values of the complete readings among `points`, in their order.
pub open spec fn values_of(points: Seq<MyDataPointView>) -> Seq<u64> {
    complete_points(points).map_values(|p: MyDataPointView| p.value->0)
}

/// The timestamps of the complete readings among `points`, in their order.
pub open spec fn timestamps_of(points: Seq<MyDataPointView>) -> Seq<i64> {
    complete_points(points).map_values(|p: MyDataPointView| p.timestamp->0)
}

/// The sum of a sequence of timestamps.
pub open spec fn sum_of(timestamps: Seq<i64>) -> int
    decreases timestamps.len(),
{
    if timestamps.len() == 0 {
        0
    } else {
        sum_of(timestamps.drop_last()) + timestamps.last()
    }
}

/// The quotient of `total` by `count`, rounded toward zero.
pub open spec fn truncated_quotient(total: int, count: int) -> int {
    if total >= 0 {
        total / count
    } else {
        -((-total) / count)
    }
}

/// The integer mean of a sequence of timestamps, rounded toward zero.
pub open spec fn truncated_mean(timestamps: Seq<i64>) -> int {
    truncated_quotient(sum_of(timestamps), timestamps.len() as int)
}

/// `mean` is what `mean_of` gave, or may give, for `values`.
pub open spec fn is_mean_of<F: Fn(&Vec<u64>) -> u64>(mean_of: &F, values: Seq<u64>, mean: u64) -> bool {
    exists|v: Vec<u64>| v@ == values && #[trigger] call_ensures(mean_of, (&v,), mean)
}

/// A complete reading that joins a list adds its value and its timestamp to
/// those of the list; an incomplete one adds nothing.
pub proof fn lemma_complete_push(points: Seq<MyDataPointView>, point: MyDataPointView)
    ensures
        point.is_complete() ==> {
            &&& complete_points(points.push(point)) == complete_points(points).push(point)
            &&& values_of(points.push(point)) == values_of(points).push(point.value->0)
            &&& timestamps_of(points.push(point)) == timestamps_of(points).push(point.timestamp->0)
            &&& sum_of(timestamps_of(points.push(point))) == sum_of(timestamps_of(points))
                + point.timestamp->0
        },
        !point.is_complete() ==> complete_points(points.push(point)) == complete_points(points),
{
    reveal(Seq::filter);
    assert(points.push(point).drop_last() =~= points);
    if point.is_complete() {
        let kept = complete_points(points);
        assert(values_of(points.push(point)) =~= values_of(points).push(point.value->0));
        assert(timestamps_of(points.push(point)) =~= timestamps_of(points).push(point.timestamp->0));
        assert(timestamps_of(points).push(point.timestamp->0).drop_last() =~= timestamps_of(points));
    }
}

/// The mean of `count` timestamps that sum to `total`, rounded toward zero.
fn truncated_mean_of_total(total: i128, count: usize) -> (mean: i64)
    requires
        count > 0,
        -(count * 0x8000_0000_0000_0000) <= total <= count * 0x7fff_ffff_ffff_ffff,
    ensures
        mean == truncated_quotient(total as int, count as int),
{
    let n: i128 = count as i128;
    if total >= 0 {
        assert(total / n <= 0x7fff_ffff_ffff_ffff) by (nonlinear_arith)
            requires
                0 <= total <= n * 0x7fff_ffff_ffff_ffff,
                n > 0,
        ;
        assert(0 <= total / n) by (nonlinear_arith)
            requires
                0 <= total,
                n > 0,
        ;
        (total / n) as i64
    } else {
        let magnitude: i128 = -total;
        assert(magnitude / n <= 0x8000_0000_0000_0000) by (nonlinear_arith)
            requires
                0 <= magnitude <= n * 0x8000_0000_0000_0000,
                n > 0,
        ;
        assert(0 <= magnitude / n) by (nonlinear_arith)
            requires
                0 <= magnitude,
                n > 0,
        ;
        (-(magnitude / n)) as i64
    }
}

/// The mean value and the mean timestamp of the complete readings among
/// `points`, or `None` where there is none.  The mean of the values is taken by
/// `mean_of`; the mean of the timestamps is their integer sum divided by their
/// number, rounded toward zero.
pub fn calculate_average_for_group<F: Fn(&Vec<u64>) -> u64>(
    points: &Vec<MyDataPoint>,
    mean_of: &F,
) -> (average: Option<(u64, i64)>)
    requires
        forall|v: Vec<u64>| v@.len() > 0 ==> call_requires(mean_of, (&v,)),
    ensures
        match average {
            None => complete_points(views(points@)).len() == 0,
            Some((value, timestamp)) => {
                &&& complete_points(views(points@)).len() > 0
                &&& is_mean_of(mean_of, values_of(views(points@)), value)
                &&& timestamp == truncated_mean(timestamps_of(views(points@)))
            },
        },
{
    let ghost all = views(points@);
    let mut values: Vec<u64> = Vec::new();
    let mut total: i128 = 0;
    let mut count: usize = 0;
    let mut i: usize = 0;
    proof {
        reveal(Seq::filter);
        assert(all.take(0) =~= Seq::<MyDataPointView>::empty());
    }
    while i < points.len()
        invariant
            i <= points@.len(),
            all == views(points@),
            count <= i,
            count == complete_points(all.take(i as int)).len(),
            values@ == values_of(all.take(i as int)),
            total == sum_of(timestamps_of(all.take(i as int))),
            -(count * 0x8000_0000_0000_0000) <= total <= count * 0x7fff_ffff_ffff_ffff,
        decreases points@.len() - i,
    {
        proof {
            lemma_complete_push(all.take(i as int), all[i as int]);
            assert(all.take(i + 1) =~= all.take(i as int).push(all[i as int]));
        }
        let point = &points[i];
        match (point.get_field_value(), point.get_timestamp()) {
            (Some(value), Some(timestamp)) => {
                if point.is_complete() {
                    values.push(value);
                    total = total + timestamp as i128;
                    count = count + 1;
                }
            },
            _ => {},
        }
        i += 1;
    }
    proof {
        assert(all.take(i as int) =~= all);
    }
    if count == 0 {
        None
    } else {
        let value = mean_of(&values);
        let timestamp = truncated_mean_of_total(total, count);
        Some((value, timestamp))
    }
}

/// What a summarized point holds.
pub struct DataPointView {
    pub measurement: Seq<char>,
    pub tags: TagsView,
    pub value: u64,
    pub timestamp: i64,
}

/// One summarized, storage-ready record: the mean of the readings of one
/// measurement.
#[derive(Debug, Clone)]
pub struct DataPoint {
    measurement: String,
    tags: Vec<(String, String)>,
    value: u64,
    timestamp: i64,
}

impl View for DataPoint {
    type V = DataPointView;

    closed spec fn view(&self) -> DataPointView {
        DataPointView {
            measurement: self.measurement@,
            tags: tags_view(self.tags@),
            value: self.value,
            timestamp: self.timestamp,
        }
    }
}

impl DataPoint {
    /// The name of what was measured.
    pub fn measurement(&self) -> (name: &str)
        ensures
            name@ == self@.measurement,
    {
        self.measurement.as_str()
    }

    /// The point's tags, in their order.
    pub fn tags(&self) -> (tags: &Vec<(String, String)>)
        ensures
            tags_view(tags@) == self@.tags,
    {
        &self.tags
    }

    /// The bit pattern of the mean value.
    pub fn value(&self) -> (value: u64)
        ensures
            value == self@.value,
    {
        self.value
    }

    /// The mean timestamp.
    pub fn timestamp(&self) -> (timestamp: i64)
        ensures
            timestamp == self@.timestamp,
    {
        self.timestamp
    }
}

/// The summarized point of `measurement` with the given means, under `tags`.
pub fn create_averaged_data_point(
    measurement: &str,
    average_value: u64,
    average_timestamp: i64,
    tags: Vec<(String, String)>,
) -> (point: DataPoint)
    ensures
        point@ == (DataPointView {
            measurement: measurement@,
            tags: tags_view(tags@),
            value: average_value,
            timestamp: average_timestamp,
        }),
{
    DataPoint {
        measurement: measurement.to_owned(),
        tags,
        value: average_value,
        timestamp: average_timestamp,
    }
}

/// `averages` summarizes `points`: one point for each measurement that a
/// complete reading names, in the order of names.  Each carries the tags of
/// the first complete reading of its measurement, the mean that `mean_of` gave
/// for the values of all of them, and the truncated mean of their timestamps.
pub open spec fn is_averaging_of<F: Fn(&Vec<u64>) -> u64>(
    averages: Seq<DataPoint>,
    points: Seq<MyDataPointView>,
    mean_of: &F,
) -> bool {
    &&& forall|i: int, j: int|
        0 <= i < j < averages.len() ==> name_lt(
            #[trigger] averages[i]@.measurement,
            #[trigger] averages[j]@.measurement,
        )
    &&& forall|i: int|
        0 <= i < averages.len() ==> is_average_of(
            (#[trigger] averages[i])@,
            members_of(points, averages[i]@.measurement),
            mean_of,
        )
    &&& forall|k: int|
        0 <= k < points.len() && (#[trigger] points[k]).is_complete() ==> has_average(
            averages,
            points[k].measurement,
        )
}

/// `average` summarizes `members`, the complete readings of its measurement.
pub open spec fn is_average_of<F: Fn(&Vec<u64>) -> u64>(
    average: DataPointView,
    members: Seq<MyDataPointView>,
    mean_of: &F,
) -> bool {
    &&& members.len() > 0
    &&& average.tags == members[0].tags
    &&& is_mean_of(mean_of, values_of(members), average.value)
    &&& average.timestamp == truncated_mean(timestamps_of(members))
}

/// Some point of `averages` is that of `measurement`.
pub open spec fn has_average(averages: Seq<DataPoint>, measurement: Seq<char>) -> bool {
    exists|i: int| 0 <= i < averages.len() && (#[trigger] averages[i])@.measurement == measurement
}

/// The members of a measurement are complete: among them, none is lost.
pub proof fn lemma_members_are_complete(points: Seq<MyDataPointView>, measurement: Seq<char>)
    ensures
        complete_points(members_of(points, measurement)) == members_of(points, measurement),
    decreases points.len(),
{
    reveal(Seq::filter);
    if points.len() > 0 {
        let rest = points.drop_last();
        lemma_members_are_complete(rest, measurement);
        assert(rest.push(points.last()) =~= points);
        lemma_members_push(rest, points.last(), measurement);
        lemma_complete_push(members_of(rest, measurement), points.last());
    }
}

/// Summarizes a batch of readings: drops the incomplete ones, groups the rest
/// by measurement, and emits for each group one point with the mean of its
/// values, as `mean_of` takes it, and the truncated mean of its timestamps.
pub fn calculate_average<F: Fn(&Vec<u64>) -> u64>(data_points: Vec<MyDataPoint>, mean_of: &F) -> (averages:
    Vec<DataPoint>)
    requires
        forall|v: Vec<u64>| v@.len() > 0 ==> call_requires(mean_of, (&v,)),
    ensures
        is_averaging_of(averages@, views(data_points@), mean_of),
{
    let ghost all = views(data_points@);
    let groups = group_and_filter_data_points(data_points);
    let mut averages: Vec<DataPoint> = Vec::new();
    let mut i: usize = 0;
    while i < groups.len()
        invariant
            i <= groups@.len(),
            is_grouping_of(groups@, all),
            forall|v: Vec<u64>| v@.len() > 0 ==> call_requires(mean_of, (&v,)),
            averages@.len() == i,
            forall|j: int|
                0 <= j < i ==> (#[trigger] averages@[j])@.measurement == groups@[j].measurement@,
            forall|j: int|
                0 <= j < i ==> is_average_of(
                    (#[trigger] averages@[j])@,
                    members_of(all, averages@[j]@.measurement),
                    mean_of,
                ),
        decreases groups@.len() - i,
    {
        let group = &groups[i];
        let ghost members = members_of(all, group.measurement@);
        proof {
            lemma_members_are_complete(all, group.measurement@);
            assert(views(group.points@) == members);
            assert(group.points@.len() > 0);
            assert(views(group.points@)[0] == group.points@[0]@);
        }
        match calculate_average_for_group(&group.points, mean_of) {
            Some((average_value, average_timestamp)) => {
                let tags = group.points[0].get_tags();
                let point = create_averaged_data_point(
                    group.measurement.as_str(),
                    average_value,
                    average_timestamp,
                    tags,
                );
                averages.push(point);
            },
            None => {
                assert(false);
            },
        }
        i += 1;
    }
    proof {
        assert forall|k: int| 0 <= k < all.len() && (#[trigger] all[k]).is_complete() implies has_average(
            averages@,
            all[k].measurement,
        ) by {
            let g = choose|g: int| 0 <= g < groups@.len() && (#[trigger] groups@[g]).measurement@ == all[k].measurement;
            assert(averages@[g]@.measurement == all[k].measurement);
        }
    }
    averages
}

/// No point comes of incomplete readings alone: the measurement of every
/// point is that of a complete reading of the batch.
pub proof fn lemma_point_has_complete_reading<F: Fn(&Vec<u64>) -> u64>(
    averages: Seq<DataPoint>,
    points: Seq<MyDataPointView>,
    mean_of: &F,
    i: int,
)
    requires
        is_averaging_of(averages, points, mean_of),
        0 <= i < averages.len(),
    ensures
        exists|k: int|
            0 <= k < points.len() && (#[trigger] points[k]).is_complete() && points[k].measurement
                == averages[i]@.measurement,
{
    let name = averages[i]@.measurement;
    assert(is_average_of(averages[i]@, members_of(points, name), mean_of));
    if forall|k: int|
        0 <= k < points.len() && (#[trigger] points[k]).is_complete() ==> points[k].measurement
            != name {
        lemma_members_empty(points, name);
    }
}

/// A batch without a complete reading yields no point.
pub proof fn lemma_incomplete_batch_yields_nothing<F: Fn(&Vec<u64>) -> u64>(
    averages: Seq<DataPoint>,
    points: Seq<MyDataPointView>,
    mean_of: &F,
)
    requires
        is_averaging_of(averages, points, mean_of),
        forall|k: int| 0 <= k < points.len() ==> !(#[trigger] points[k]).is_complete(),
    ensures
        averages.len() == 0,
{
    if averages.len() > 0 {
        lemma_point_has_complete_reading(averages, points, mean_of, 0);
    }
}

/// The truncated quotient is the integer nearest to the exact quotient on the
/// side of zero.
pub proof fn lemma_truncated_quotient_bounds(total: int, count: int)
    requires
        count > 0,
    ensures
        total >= 0 ==> truncated_quotient(total, count) * count <= total < (truncated_quotient(
            total,
            count,
        ) + 1) * count,
        total < 0 ==> (truncated_quotient(total, count) - 1) * count < total <= truncated_quotient(
            total,
            count,
        ) * count,
{
    if total >= 0 {
        let q = total / count;
        lemma_fundamental_div_mod(total, count);
        lemma_mod_bound(total, count);
        assert(q * count == count * q) by (nonlinear_arith);
        assert((q + 1) * count == count * q + count) by (nonlinear_arith);
    } else {
        let q = (-total) / count;
        lemma_fundamental_div_mod(-total, count);
        lemma_mod_bound(-total, count);
        assert((-q) * count == -(count * q)) by (nonlinear_arith);
        assert((-q - 1) * count == -(count * q) - count) by (nonlinear_arith);
    }
}

/// The timestamp of every point is the mean of the timestamps of the complete
/// readings of its measurement, rounded toward zero.
pub proof fn lemma_point_timestamp_is_truncated_mean<F: Fn(&Vec<u64>) -> u64>(
    averages: Seq<DataPoint>,
    points: Seq<MyDataPointView>,
    mean_of: &F,
    i: int,
)
    requires
        is_averaging_of(averages, points, mean_of),
        0 <= i < averages.len(),
    ensures
        ({
            let stamps = timestamps_of(members_of(points, averages[i]@.measurement));
            let total = sum_of(stamps);
            let timestamp = averages[i]@.timestamp;
            &&& stamps.len() > 0
            &&& total >= 0 ==> timestamp * stamps.len() <= total < (timestamp + 1) * stamps.len()
            &&& total < 0 ==> (timestamp - 1) * stamps.len() < total <= timestamp * stamps.len()
        }),
{
    let name = averages[i]@.measurement;
    assert(is_average_of(averages[i]@, members_of(points, name), mean_of));
    lemma_members_are_complete(points, name);
    let stamps = timestamps_of(members_of(points, name));
    lemma_truncated_quotient_bounds(sum_of(stamps), stamps.len() as int);
}

} // verus!
