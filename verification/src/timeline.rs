//! Request counts in time buckets of a fixed width, with a bound on the number of buckets.

use crate::event::Timestamp;
use crate::numbers::{
    floor_quotient, largest_of, median_and_peak, median_of, ordered_keys, Median, MedianRatio,
    NumberMap, Ratio,
};
use crate::status::{record_status_class, StatusClassCounts};
use vstd::prelude::*;

verus! {

/// Counts by bucket. A bucket is admitted when it is first observed, as long as there is room.
#[derive(Clone, Debug)]
pub struct Timeline {
    pub buckets: NumberMap<u64>,
    /// Observations in buckets that were not admitted.
    pub beyond_cap: u64,
}

pub struct TimelineModel {
    pub buckets: Map<i64, u64>,
    pub beyond_cap: nat,
}

impl View for Timeline {
    type V = TimelineModel;

    open spec fn view(&self) -> TimelineModel {
        TimelineModel { buckets: self.buckets@, beyond_cap: self.beyond_cap as nat }
    }
}

impl TimelineModel {
    pub open spec fn none() -> TimelineModel {
        TimelineModel { buckets: Map::empty(), beyond_cap: 0 }
    }

    /// Whether an observation in the bucket is counted there.
    pub open spec fn admits(self, maximum: nat, bucket: i64) -> bool {
        self.buckets.dom().contains(bucket) || self.buckets.dom().len() < maximum
    }

    /// The timeline after one more observation in the bucket.
    pub open spec fn counting(self, maximum: nat, bucket: i64) -> TimelineModel {
        if self.admits(maximum, bucket) {
            let count = if self.buckets.dom().contains(bucket) {
                self.buckets[bucket] as int
            } else {
                0
            };
            TimelineModel { buckets: self.buckets.insert(bucket, (count + 1) as u64), ..self }
        } else {
            TimelineModel { beyond_cap: self.beyond_cap + 1, ..self }
        }
    }

    /// The counts of the buckets in chronological order.
    pub open spec fn counts(self) -> Seq<u64> {
        ordered_keys(self.buckets.dom()).map_values(|k: i64| self.buckets[k])
    }

    /// Every retained bucket holds an observation, and no count is above `n`.
    pub open spec fn within(self, n: nat) -> bool {
        &&& forall|k: i64| #[trigger] self.buckets.dom().contains(k) ==> 0 < self.buckets[k] <= n
        &&& self.beyond_cap <= n
    }
}

impl Timeline {
    pub open spec fn wf(&self) -> bool {
        self.buckets.wf()
    }

    pub fn new() -> (r: Self)
        ensures
            r.wf(),
            r@ == TimelineModel::none(),
            r@.within(0),
    {
        Timeline { buckets: NumberMap::new(), beyond_cap: 0 }
    }

    /// Counts one more observation. The result says whether its bucket is retained.
    pub fn track_minute_bucket(&mut self, maximum: usize, bucket: i64) -> (r: bool)
        requires
            old(self).wf(),
            old(self)@.within((u64::MAX - 1) as nat),
        ensures
            final(self).wf(),
            final(self)@ == old(self)@.counting(maximum as nat, bucket),
            r == old(self)@.admits(maximum as nat, bucket),
            forall|n: nat| #[trigger] old(self)@.within(n) ==> final(self)@.within(n + 1),
    {
        let known = match self.buckets.get(bucket) {
            Some(count) => Some(*count),
            None => None,
        };
        match known {
            Some(count) => {
                assert(self@.buckets.dom().contains(bucket));
                self.buckets.insert(bucket, count + 1);
                true
            },
            None => {
                if self.buckets.len() >= maximum {
                    assert(self@.beyond_cap <= u64::MAX - 1);
                    self.beyond_cap = self.beyond_cap + 1;
                    return false;
                }
                self.buckets.insert(bucket, 1);
                true
            },
        }
    }

    fn bucket_counts(&self) -> (r: Vec<u64>)
        requires
            self.wf(),
        ensures
            r@ == self@.counts(),
    {
        let mut r: Vec<u64> = Vec::new();
        let count = self.buckets.len();
        let mut i: usize = 0;
        while i < count
            invariant
                self.wf(),
                count == self.buckets.key_seq().len(),
                i <= count,
                r@ == self.buckets.value_seq().take(i as int),
            decreases count - i,
        {
            proof {
                self.buckets.lemma_positions();
            }
            r.push(*self.buckets.value_at(i));
            assert(self.buckets.value_seq().take(i + 1) =~= self.buckets.value_seq().take(
                i as int,
            ).push(self.buckets.value_seq()[i as int]));
            i = i + 1;
        }
        proof {
            self.buckets.lemma_positions();
            self.buckets.lemma_order();
            assert(r@ =~= self@.counts());
        }
        r
    }

    pub fn request_rate(&self) -> (r: Rate)
        requires
            self.wf(),
        ensures
            r == rate_of(self@),
    {
        let counts = self.bucket_counts();
        let (median, peak) = median_and_peak(&counts);
        let ratio = match (peak, median) {
            (Some(p), Some(m)) => if m.lower == 0 && m.upper == 0 {
                None
            } else {
                Some(MedianRatio { peak: p, median: m })
            },
            _ => None,
        };
        Rate { peak, median, ratio }
    }

    /// The buckets and their counts in chronological order.
    pub fn minute_series(&self) -> (r: Vec<MinuteRequestCount>)
        requires
            self.wf(),
        ensures
            r@ == request_series(self@.buckets),
    {
        let mut r: Vec<MinuteRequestCount> = Vec::new();
        let count = self.buckets.len();
        let mut i: usize = 0;
        proof {
            self.buckets.lemma_order();
        }
        while i < count
            invariant
                self.wf(),
                self.buckets.key_seq() == ordered_keys(self@.buckets.dom()),
                count == self.buckets.key_seq().len(),
                i <= count,
                r@ == request_series(self@.buckets).take(i as int),
            decreases count - i,
        {
            r.push(
                MinuteRequestCount {
                    minute_epoch: self.buckets.key_at(i),
                    requests: *self.buckets.value_at(i),
                },
            );
            assert(request_series(self@.buckets).take(i + 1) =~= request_series(
                self@.buckets,
            ).take(i as int).push(request_series(self@.buckets)[i as int]));
            i = i + 1;
        }
        assert(r@ =~= request_series(self@.buckets));
        r
    }
}

/// One point of a private time series.
#[derive(Clone, Copy, Debug, PartialEq, Eq, Structural)]
pub struct MinuteRequestCount {
    pub minute_epoch: i64,
    pub requests: u64,
}

/// One point of a private time series, split into the standard status classes.
#[derive(Clone, Copy, Debug, PartialEq, Eq, Structural)]
pub struct StatusClassMinuteCount {
    pub minute_epoch: i64,
    pub informational: u64,
    pub success: u64,
    pub redirection: u64,
    pub client_error: u64,
    pub server_error: u64,
}

pub open spec fn request_series(buckets: Map<i64, u64>) -> Seq<MinuteRequestCount> {
    ordered_keys(buckets.dom()).map_values(
        |k: i64| MinuteRequestCount { minute_epoch: k, requests: buckets[k] },
    )
}

pub open spec fn status_series(outcomes: Map<i64, StatusClassCounts>) -> Seq<
    StatusClassMinuteCount,
> {
    ordered_keys(outcomes.dom()).map_values(
        |k: i64|
            StatusClassMinuteCount {
                minute_epoch: k,
                informational: outcomes[k].informational,
                success: outcomes[k].success,
                redirection: outcomes[k].redirection,
                client_error: outcomes[k].client_error,
                server_error: outcomes[k].server_error,
            },
    )
}

/// The peak, the median and their ratio over the buckets of a timeline.
#[derive(Clone, Copy, Debug, PartialEq, Eq, Structural)]
pub struct Rate {
    pub peak: Option<u64>,
    pub median: Option<Median>,
    pub ratio: Option<MedianRatio>,
}

/// The rate over the retained buckets. There is no ratio where the median is zero.
pub open spec fn rate_of(timeline: TimelineModel) -> Rate {
    let counts = timeline.counts();
    let peak = largest_of(counts);
    let median = median_of(counts);
    Rate {
        peak,
        median,
        ratio: if counts.len() == 0 || (median.unwrap().lower == 0 && median.unwrap().upper == 0) {
            None
        } else {
            Some(MedianRatio { peak: peak.unwrap(), median: median.unwrap() })
        },
    }
}

/// The bucket of a point in time: how many whole widths it lies after the epoch.
pub open spec fn bucket_of(seconds: i64, width: u64) -> i64 {
    (seconds as int / width as int) as i64
}

fn bucket_at(seconds: i64, width: u64) -> (r: i64)
    requires
        0 < width <= i64::MAX,
    ensures
        r == bucket_of(seconds, width),
{
    let r = floor_quotient(seconds, width as i64);
    r
}

/// Request counts in buckets of one width.
#[derive(Clone, Debug)]
pub struct RateWindow {
    pub width: u64,
    pub timeline: Timeline,
}

pub struct RateWindowModel {
    pub width: u64,
    pub timeline: TimelineModel,
}

impl View for RateWindow {
    type V = RateWindowModel;

    open spec fn view(&self) -> RateWindowModel {
        RateWindowModel { width: self.width, timeline: self.timeline@ }
    }
}

impl RateWindowModel {
    pub open spec fn none(width: u64) -> RateWindowModel {
        RateWindowModel { width, timeline: TimelineModel::none() }
    }

    pub open spec fn counting(self, maximum: nat, seconds: i64) -> RateWindowModel {
        RateWindowModel {
            timeline: self.timeline.counting(maximum, bucket_of(seconds, self.width)),
            ..self
        }
    }

    pub open spec fn within(self, n: nat) -> bool {
        self.timeline.within(n)
    }
}

impl RateWindow {
    pub open spec fn wf(&self) -> bool {
        0 < self.width <= i64::MAX && self.timeline.wf()
    }

    pub fn new(width: u64) -> (r: Self)
        requires
            0 < width <= i64::MAX,
        ensures
            r.wf(),
            r@ == RateWindowModel::none(width),
            r@.within(0),
    {
        RateWindow { width, timeline: Timeline::new() }
    }

    pub fn track(&mut self, maximum: usize, seconds: i64)
        requires
            old(self).wf(),
            old(self)@.within((u64::MAX - 1) as nat),
        ensures
            final(self).wf(),
            final(self)@ == old(self)@.counting(maximum as nat, seconds),
            forall|n: nat| #[trigger] old(self)@.within(n) ==> final(self)@.within(n + 1),
    {
        let bucket = bucket_at(seconds, self.width);
        let ghost before = *self;
        self.timeline.track_minute_bucket(maximum, bucket);
        assert forall|n: nat| #[trigger] before@.within(n) implies self@.within(n + 1) by {
            assert(before.timeline@.within(n));
        }
    }
}

/// Request counts and response outcomes in buckets of one width. Both have the same buckets.
#[derive(Clone, Debug)]
pub struct OutcomeWindow {
    pub width: u64,
    pub timeline: Timeline,
    pub outcomes: NumberMap<StatusClassCounts>,
}

pub struct OutcomeWindowModel {
    pub width: u64,
    pub timeline: TimelineModel,
    pub outcomes: Map<i64, StatusClassCounts>,
}

impl View for OutcomeWindow {
    type V = OutcomeWindowModel;

    open spec fn view(&self) -> OutcomeWindowModel {
        OutcomeWindowModel {
            width: self.width,
            timeline: self.timeline@,
            outcomes: self.outcomes@,
        }
    }
}

impl OutcomeWindowModel {
    pub open spec fn none(width: u64) -> OutcomeWindowModel {
        OutcomeWindowModel { width, timeline: TimelineModel::none(), outcomes: Map::empty() }
    }

    /// The window after one more observation: its outcome is counted where its bucket is
    /// retained.
    pub open spec fn counting(self, maximum: nat, seconds: i64, status: Option<u16>)
        -> OutcomeWindowModel {
        let bucket = bucket_of(seconds, self.width);
        let counts = if self.outcomes.dom().contains(bucket) {
            self.outcomes[bucket]
        } else {
            StatusClassCounts::none()
        };
        OutcomeWindowModel {
            timeline: self.timeline.counting(maximum, bucket),
            outcomes: if self.timeline.admits(maximum, bucket) {
                self.outcomes.insert(bucket, counts.recorded(status))
            } else {
                self.outcomes
            },
            ..self
        }
    }

    /// The outcomes of a bucket are those of the observations counted there.
    pub open spec fn consistent(self) -> bool {
        &&& self.outcomes.dom() == self.timeline.buckets.dom()
        &&& forall|k: i64| #[trigger]
            self.outcomes.dom().contains(k) ==> self.outcomes[k].wf() && self.outcomes[k].total()
                == self.timeline.buckets[k]
    }

    pub open spec fn within(self, n: nat) -> bool {
        self.timeline.within(n)
    }
}

impl OutcomeWindow {
    pub open spec fn wf(&self) -> bool {
        &&& 0 < self.width <= i64::MAX
        &&& self.timeline.wf()
        &&& self.outcomes.wf()
        &&& self@.consistent()
    }

    pub fn new(width: u64) -> (r: Self)
        requires
            0 < width <= i64::MAX,
        ensures
            r.wf(),
            r@ == OutcomeWindowModel::none(width),
            r@.within(0),
    {
        OutcomeWindow { width, timeline: Timeline::new(), outcomes: NumberMap::new() }
    }

    pub fn track(&mut self, maximum: usize, seconds: i64, status: Option<u16>)
        requires
            old(self).wf(),
            old(self)@.within((u64::MAX - 1) as nat),
        ensures
            final(self).wf(),
            final(self)@ == old(self)@.counting(maximum as nat, seconds, status),
            forall|n: nat| #[trigger] old(self)@.within(n) ==> final(self)@.within(n + 1),
    {
        let bucket = bucket_at(seconds, self.width);
        let ghost before = *self;
        let admitted = self.timeline.track_minute_bucket(maximum, bucket);
        if admitted {
            let mut counts = match self.outcomes.get(bucket) {
                Some(counts) => *counts,
                None => StatusClassCounts::default(),
            };
            assert(before.outcomes@.dom().contains(bucket) ==> counts.total()
                == before.timeline@.buckets[bucket]);
            assert(before.timeline@.buckets.dom().contains(bucket)
                ==> before.timeline@.buckets[bucket] <= u64::MAX - 1);
            record_status_class(&mut counts, status);
            self.outcomes.insert(bucket, counts);
        }
        proof {
            assert(self@ == before@.counting(maximum as nat, seconds, status));
            assert(self@.outcomes.dom() =~= self@.timeline.buckets.dom());
            assert forall|n: nat| #[trigger] before@.within(n) implies self@.within(n + 1) by {
                assert(before.timeline@.within(n));
            }
        }
    }

    pub fn status_series(&self) -> (r: Vec<StatusClassMinuteCount>)
        requires
            self.wf(),
        ensures
            r@ == status_series(self@.outcomes),
    {
        let mut r: Vec<StatusClassMinuteCount> = Vec::new();
        let count = self.outcomes.len();
        let mut i: usize = 0;
        proof {
            self.outcomes.lemma_order();
        }
        while i < count
            invariant
                self.wf(),
                self.outcomes.key_seq() == ordered_keys(self@.outcomes.dom()),
                count == self.outcomes.key_seq().len(),
                i <= count,
                r@ == status_series(self@.outcomes).take(i as int),
            decreases count - i,
        {
            let counts = self.outcomes.value_at(i);
            r.push(
                StatusClassMinuteCount {
                    minute_epoch: self.outcomes.key_at(i),
                    informational: counts.informational,
                    success: counts.success,
                    redirection: counts.redirection,
                    client_error: counts.client_error,
                    server_error: counts.server_error,
                },
            );
            assert(status_series(self@.outcomes).take(i + 1) =~= status_series(
                self@.outcomes,
            ).take(i as int).push(status_series(self@.outcomes)[i as int]));
            i = i + 1;
        }
        assert(r@ =~= status_series(self@.outcomes));
        r
    }
}

/// Request-volume statistics for one bucket width.
#[derive(Clone, Copy, Debug, PartialEq, Eq, Structural)]
pub struct WindowedRequestRateSummary {
    pub bucket_width_seconds: u64,
    pub peak_requests: Option<u64>,
    pub median_requests: Option<Median>,
    pub peak_to_median_ratio: Option<MedianRatio>,
    pub observations_without_timestamp: u64,
    /// Observations in new buckets after the bound on buckets was reached.
    pub observations_beyond_bucket_cap: u64,
}

pub open spec fn rate_summary(
    width: u64,
    timeline: TimelineModel,
    without_timestamp: u64,
) -> WindowedRequestRateSummary {
    let rate = rate_of(timeline);
    WindowedRequestRateSummary {
        bucket_width_seconds: width,
        peak_requests: rate.peak,
        median_requests: rate.median,
        peak_to_median_ratio: rate.ratio,
        observations_without_timestamp: without_timestamp,
        observations_beyond_bucket_cap: timeline.beyond_cap as u64,
    }
}

pub fn windowed_rate_summary(width: u64, timeline: &Timeline, without_timestamp: u64) -> (r:
    WindowedRequestRateSummary)
    requires
        timeline.wf(),
    ensures
        r == rate_summary(width, timeline@, without_timestamp),
{
    let rate = timeline.request_rate();
    WindowedRequestRateSummary {
        bucket_width_seconds: width,
        peak_requests: rate.peak,
        median_requests: rate.median,
        peak_to_median_ratio: rate.ratio,
        observations_without_timestamp: without_timestamp,
        observations_beyond_bucket_cap: timeline.beyond_cap,
    }
}

/// Whether a number of seconds since the epoch is a time that `chrono::DateTime` can hold.
pub open spec fn representable(seconds: int) -> bool {
    -8334601228800 <= seconds <= 8210266876799
}

/// Asks `chrono::DateTime::from_timestamp` whether it can hold a whole number of seconds: it can
/// from the start of year -262143 to the end of year 262142.
#[verifier::external_body]
pub(crate) fn is_representable(seconds: i64) -> (r: bool)
    ensures
        r == representable(seconds as int),
{
    chrono::DateTime::from_timestamp(seconds, 0).is_some()
}

/// The point in time at which a bucket starts; none where no time can be that far away.
pub open spec fn bucket_start(bucket: i64, width: u64) -> Option<Timestamp> {
    if representable(bucket * width) {
        Some(Timestamp { seconds: (bucket * width) as i64, nanos: 0 })
    } else {
        None
    }
}

pub fn start_of_bucket(bucket: i64, width: u64) -> (r: Option<Timestamp>)
    requires
        0 < width <= i64::MAX,
    ensures
        r == bucket_start(bucket, width),
{
    match bucket.checked_mul(width as i64) {
        Some(seconds) => if is_representable(seconds) {
            Some(Timestamp { seconds, nanos: 0 })
        } else {
            None
        },
        None => None,
    }
}

/// Response-outcome extremes over the buckets of one width.
#[derive(Clone, Copy, Debug, PartialEq, Eq, Structural)]
pub struct WindowedResponseOutcomeSummary {
    pub bucket_width_seconds: u64,
    pub minimum_requests_per_bucket: u64,
    pub eligible_buckets: usize,
    pub buckets_below_minimum: usize,
    pub minimum_success_share: Option<Ratio>,
    pub maximum_server_error_share: Option<Ratio>,
    pub observations_without_timestamp: u64,
    pub observations_beyond_bucket_cap: u64,
    pub minimum_success_bucket_start: Option<Timestamp>,
    pub maximum_server_error_bucket_start: Option<Timestamp>,
    pub success_share_threshold_percent: Option<u8>,
    /// Eligible buckets strictly below the configured percentage.
    pub buckets_below_success_threshold: usize,
}

/// The buckets with at least `minimum` observations, in chronological order.
pub open spec fn eligible_keys(
    keys: Seq<i64>,
    outcomes: Map<i64, StatusClassCounts>,
    minimum: u64,
) -> Seq<i64>
    decreases keys.len(),
{
    if keys.len() == 0 {
        seq![]
    } else if outcomes[keys.last()].total() >= minimum {
        eligible_keys(keys.drop_last(), outcomes, minimum).push(keys.last())
    } else {
        eligible_keys(keys.drop_last(), outcomes, minimum)
    }
}

/// How many of the buckets have a success share strictly below `percent`.
pub open spec fn below_threshold(
    keys: Seq<i64>,
    outcomes: Map<i64, StatusClassCounts>,
    percent: u8,
) -> nat
    decreases keys.len(),
{
    if keys.len() == 0 {
        0
    } else {
        let counts = outcomes[keys.last()];
        below_threshold(keys.drop_last(), outcomes, percent) + if counts.success * 100
            < counts.total() * percent {
            1nat
        } else {
            0nat
        }
    }
}

pub open spec fn success_fraction(counts: StatusClassCounts) -> (nat, nat) {
    (counts.success as nat, counts.total())
}

pub open spec fn server_error_fraction(counts: StatusClassCounts) -> (nat, nat) {
    (counts.server_error as nat, counts.total())
}

/// Whether a fraction is strictly smaller than another.
pub open spec fn smaller(a: (nat, nat), b: (nat, nat)) -> bool {
    a.0 * b.1 < b.0 * a.1
}

/// Position `at` is the first with the smallest success share.
pub open spec fn first_minimum(
    keys: Seq<i64>,
    outcomes: Map<i64, StatusClassCounts>,
    at: int,
) -> bool {
    &&& 0 <= at < keys.len()
    &&& forall|i: int|
        0 <= i < keys.len() ==> !smaller(
            success_fraction(outcomes[#[trigger] keys[i]]),
            success_fraction(outcomes[keys[at]]),
        )
    &&& forall|i: int|
        0 <= i < at ==> smaller(
            success_fraction(outcomes[keys[at]]),
            success_fraction(outcomes[#[trigger] keys[i]]),
        )
}

/// Position `at` is the first with the largest server-error share.
pub open spec fn first_maximum(
    keys: Seq<i64>,
    outcomes: Map<i64, StatusClassCounts>,
    at: int,
) -> bool {
    &&& 0 <= at < keys.len()
    &&& forall|i: int|
        0 <= i < keys.len() ==> !smaller(
            server_error_fraction(outcomes[keys[at]]),
            server_error_fraction(outcomes[#[trigger] keys[i]]),
        )
    &&& forall|i: int|
        0 <= i < at ==> smaller(
            server_error_fraction(outcomes[#[trigger] keys[i]]),
            server_error_fraction(outcomes[keys[at]]),
        )
}

/// Whether a summary says what the outcomes of a window are: how many buckets count, and the
/// earliest bucket with the smallest success share and with the largest server-error share.
pub open spec fn is_outcome_summary(
    r: WindowedResponseOutcomeSummary,
    window: OutcomeWindowModel,
    minimum: u64,
    percent: u8,
    without_timestamp: u64,
) -> bool {
    let all = ordered_keys(window.outcomes.dom());
    let keys = eligible_keys(all, window.outcomes, minimum);
    &&& r.bucket_width_seconds == window.width
    &&& r.minimum_requests_per_bucket == minimum
    &&& r.eligible_buckets == keys.len()
    &&& r.buckets_below_minimum == all.len() - keys.len()
    &&& r.observations_without_timestamp == without_timestamp
    &&& r.observations_beyond_bucket_cap == window.timeline.beyond_cap
    &&& r.success_share_threshold_percent == Some(percent)
    &&& r.buckets_below_success_threshold == below_threshold(keys, window.outcomes, percent)
    &&& if keys.len() == 0 {
        &&& r.minimum_success_share is None
        &&& r.maximum_server_error_share is None
        &&& r.minimum_success_bucket_start is None
        &&& r.maximum_server_error_bucket_start is None
    } else {
        &&& exists|at: int| #[trigger]
            first_minimum(keys, window.outcomes, at) && r.minimum_success_share == Some(
                Ratio {
                    numerator: window.outcomes[keys[at]].success,
                    denominator: window.outcomes[keys[at]].total() as u64,
                },
            ) && r.minimum_success_bucket_start == bucket_start(keys[at], window.width)
        &&& exists|at: int| #[trigger]
            first_maximum(keys, window.outcomes, at) && r.maximum_server_error_share == Some(
                Ratio {
                    numerator: window.outcomes[keys[at]].server_error,
                    denominator: window.outcomes[keys[at]].total() as u64,
                },
            ) && r.maximum_server_error_bucket_start == bucket_start(keys[at], window.width)
    }
}

/// Being smaller carries over: strictly smaller than one that is not larger.
proof fn lemma_smaller_chain(a: (nat, nat), b: (nat, nat), c: (nat, nat))
    requires
        a.1 > 0,
        b.1 > 0,
        c.1 > 0,
        smaller(a, b),
        !smaller(c, b),
    ensures
        smaller(a, c),
{
    let (an, ad) = (a.0 as int, a.1 as int);
    let (bn, bd) = (b.0 as int, b.1 as int);
    let (cn, cd) = (c.0 as int, c.1 as int);
    assert(an * cd < cn * ad) by (nonlinear_arith)
        requires
            ad > 0,
            bd > 0,
            cd > 0,
            an >= 0,
            bn >= 0,
            cn >= 0,
            an * bd < bn * ad,
            cn * bd >= bn * cd,
    {
        assert((an * bd) * cd < (bn * ad) * cd);
        assert((cn * bd) * ad >= (bn * cd) * ad);
        assert((an * cd) * bd == (an * bd) * cd);
        assert((bn * ad) * cd == (bn * cd) * ad);
        assert((cn * ad) * bd == (cn * bd) * ad);
        assert((an * cd) * bd < (cn * ad) * bd);
    }
}

/// The mirror image, for the largest.
proof fn lemma_larger_chain(a: (nat, nat), b: (nat, nat), c: (nat, nat))
    requires
        a.1 > 0,
        b.1 > 0,
        c.1 > 0,
        smaller(b, a),
        !smaller(b, c),
    ensures
        smaller(c, a),
{
    let (an, ad) = (a.0 as int, a.1 as int);
    let (bn, bd) = (b.0 as int, b.1 as int);
    let (cn, cd) = (c.0 as int, c.1 as int);
    assert(cn * ad < an * cd) by (nonlinear_arith)
        requires
            ad > 0,
            bd > 0,
            cd > 0,
            an >= 0,
            bn >= 0,
            cn >= 0,
            bn * ad < an * bd,
            bn * cd >= cn * bd,
    {
        assert((bn * ad) * cd < (an * bd) * cd);
        assert((bn * cd) * ad >= (cn * bd) * ad);
        assert((cn * ad) * bd == (cn * bd) * ad);
        assert((bn * cd) * ad == (bn * ad) * cd);
        assert((an * cd) * bd == (an * bd) * cd);
        assert((cn * ad) * bd < (an * cd) * bd);
    }
}

impl OutcomeWindow {
    #[verifier::rlimit(60)]
    pub fn response_outcome_summary(
        &self,
        minimum: u64,
        percent: u8,
        without_timestamp: u64,
    ) -> (r: WindowedResponseOutcomeSummary)
        requires
            self.wf(),
            exists|n: nat| self@.within(n),
        ensures
            is_outcome_summary(r, self@, minimum, percent, without_timestamp),
    {
        let count = self.outcomes.len();
        let ghost outcomes = self.outcomes@;
        let ghost all = ordered_keys(outcomes.dom());
        proof {
            self.outcomes.lemma_order();
        }
        let mut eligible: usize = 0;
        let mut below_minimum: usize = 0;
        let mut below_percent: usize = 0;
        let mut lowest: Option<(u64, u64, i64)> = None;
        let mut highest: Option<(u64, u64, i64)> = None;
        let ghost mut low_at: int = 0;
        let ghost mut high_at: int = 0;
        let mut i: usize = 0;
        while i < count
            invariant
                self.wf(),
                exists|n: nat| self@.within(n),
                outcomes == self.outcomes@,
                all == ordered_keys(outcomes.dom()),
                self.outcomes.key_seq() == all,
                count == all.len(),
                i <= count,
                eligible == eligible_keys(all.take(i as int), outcomes, minimum).len(),
                eligible + below_minimum == i,
                below_percent <= eligible,
                below_percent == below_threshold(
                    eligible_keys(all.take(i as int), outcomes, minimum),
                    outcomes,
                    percent,
                ),
                forall|k: int|
                    0 <= k < eligible ==> outcomes.dom().contains(
                        #[trigger] eligible_keys(all.take(i as int), outcomes, minimum)[k],
                    ),
                eligible == 0 ==> lowest is None && highest is None,
                eligible > 0 ==> {
                    let keys = eligible_keys(all.take(i as int), outcomes, minimum);
                    &&& first_minimum(keys, outcomes, low_at)
                    &&& lowest == Some(
                        (
                            outcomes[keys[low_at]].success,
                            outcomes[keys[low_at]].total() as u64,
                            keys[low_at],
                        ),
                    )
                    &&& first_maximum(keys, outcomes, high_at)
                    &&& highest == Some(
                        (
                            outcomes[keys[high_at]].server_error,
                            outcomes[keys[high_at]].total() as u64,
                            keys[high_at],
                        ),
                    )
                },
            decreases count - i,
        {
            let bucket = self.outcomes.key_at(i);
            let counts = *self.outcomes.value_at(i);
            let ghost before = eligible_keys(all.take(i as int), outcomes, minimum);
            let ghost after = eligible_keys(all.take(i + 1), outcomes, minimum);
            proof {
                assert(all.take(i + 1).drop_last() =~= all.take(i as int));
                assert(all.take(i + 1).last() == bucket);
                assert(outcomes.dom().contains(bucket));
                assert(outcomes[bucket] == counts);
                assert(counts.wf());
                assert(counts.total() == self@.timeline.buckets[bucket]);
                assert(self@.timeline.buckets.dom().contains(bucket));
                assert(counts.total() > 0);
                assert forall|k: int| 0 <= k < before.len() implies outcomes[#[trigger] before[k]].wf()
                    && outcomes[before[k]].total() > 0 by {
                    assert(outcomes.dom().contains(before[k]));
                    assert(self@.timeline.buckets.dom().contains(before[k]));
                }
            }
            let total = counts.total_observations();
            if total < minimum {
                below_minimum = below_minimum + 1;
                assert(after == before);
                i = i + 1;
                continue;
            }
            assert(after == before.push(bucket));
            assert(after.drop_last() =~= before);
            assert(after.last() == bucket);
            let is_lower = match lowest {
                None => true,
                Some((n, d, _)) => {
                    assert((counts.success as u128) * (d as u128) <= u128::MAX) by (nonlinear_arith)
                        requires
                            counts.success <= u64::MAX,
                            d <= u64::MAX,
                    ;
                    assert((n as u128) * (total as u128) <= u128::MAX) by (nonlinear_arith)
                        requires
                            n <= u64::MAX,
                            total <= u64::MAX,
                    ;
                    (counts.success as u128) * (d as u128) < (n as u128) * (total as u128)
                },
            };
            if is_lower {
                proof {
                    assert forall|k: int| 0 <= k < before.len() implies smaller(
                        success_fraction(outcomes[bucket]),
                        success_fraction(outcomes[#[trigger] after[k]]),
                    ) by {
                        assert(after[k] == before[k]);
                        lemma_smaller_chain(
                            success_fraction(outcomes[bucket]),
                            success_fraction(outcomes[before[low_at]]),
                            success_fraction(outcomes[before[k]]),
                        );
                    }
                    low_at = before.len() as int;
                    assert(after[low_at] == bucket);
                    lemma_smaller_is_strict(after, outcomes, low_at);
                }
                lowest = Some((counts.success, total, bucket));
            } else {
                proof {
                    assert forall|k: int| 0 <= k < after.len() implies !smaller(
                        success_fraction(outcomes[#[trigger] after[k]]),
                        success_fraction(outcomes[after[low_at]]),
                    ) by {
                        if k < before.len() {
                            assert(after[k] == before[k]);
                        }
                    }
                    assert forall|k: int| 0 <= k < low_at implies smaller(
                        success_fraction(outcomes[after[low_at]]),
                        success_fraction(outcomes[#[trigger] after[k]]),
                    ) by {
                        assert(after[k] == before[k]);
                    }
                }
            }
            let is_higher = match highest {
                None => true,
                Some((n, d, _)) => {
                    assert((counts.server_error as u128) * (d as u128) <= u128::MAX)
                        by (nonlinear_arith)
                        requires
                            counts.server_error <= u64::MAX,
                            d <= u64::MAX,
                    ;
                    assert((n as u128) * (total as u128) <= u128::MAX) by (nonlinear_arith)
                        requires
                            n <= u64::MAX,
                            total <= u64::MAX,
                    ;
                    (counts.server_error as u128) * (d as u128) > (n as u128) * (total as u128)
                },
            };
            if is_higher {
                proof {
                    assert forall|k: int| 0 <= k < before.len() implies smaller(
                        server_error_fraction(outcomes[#[trigger] after[k]]),
                        server_error_fraction(outcomes[bucket]),
                    ) by {
                        assert(after[k] == before[k]);
                        lemma_larger_chain(
                            server_error_fraction(outcomes[bucket]),
                            server_error_fraction(outcomes[before[high_at]]),
                            server_error_fraction(outcomes[before[k]]),
                        );
                    }
                    high_at = before.len() as int;
                    assert(after[high_at] == bucket);
                    lemma_larger_is_strict(after, outcomes, high_at);
                }
                highest = Some((counts.server_error, total, bucket));
            } else {
                proof {
                    assert forall|k: int| 0 <= k < after.len() implies !smaller(
                        server_error_fraction(outcomes[after[high_at]]),
                        server_error_fraction(outcomes[#[trigger] after[k]]),
                    ) by {
                        if k < before.len() {
                            assert(after[k] == before[k]);
                        }
                    }
                    assert forall|k: int| 0 <= k < high_at implies smaller(
                        server_error_fraction(outcomes[#[trigger] after[k]]),
                        server_error_fraction(outcomes[after[high_at]]),
                    ) by {
                        assert(after[k] == before[k]);
                    }
                }
            }
            assert((total as u128) * (percent as u128) <= u128::MAX) by (nonlinear_arith)
                requires
                    total <= u64::MAX,
                    percent <= u8::MAX,
            ;
            if (counts.success as u128) * 100 < (total as u128) * (percent as u128) {
                below_percent = below_percent + 1;
            }
            eligible = eligible + 1;
            i = i + 1;
        }
        assert(all.take(i as int) =~= all);
        let ghost keys = eligible_keys(all, outcomes, minimum);
        let (minimum_success_share, minimum_success_bucket_start) = match lowest {
            Some((n, d, bucket)) => (
                Some(Ratio { numerator: n, denominator: d }),
                start_of_bucket(bucket, self.width),
            ),
            None => (None, None),
        };
        let (maximum_server_error_share, maximum_server_error_bucket_start) = match highest {
            Some((n, d, bucket)) => (
                Some(Ratio { numerator: n, denominator: d }),
                start_of_bucket(bucket, self.width),
            ),
            None => (None, None),
        };
        proof {
            if keys.len() > 0 {
                assert(first_minimum(keys, outcomes, low_at));
                assert(first_maximum(keys, outcomes, high_at));
            }
        }
        WindowedResponseOutcomeSummary {
            bucket_width_seconds: self.width,
            minimum_requests_per_bucket: minimum,
            eligible_buckets: eligible,
            buckets_below_minimum: below_minimum,
            minimum_success_share,
            maximum_server_error_share,
            observations_without_timestamp: without_timestamp,
            observations_beyond_bucket_cap: self.timeline.beyond_cap,
            minimum_success_bucket_start,
            maximum_server_error_bucket_start,
            success_share_threshold_percent: Some(percent),
            buckets_below_success_threshold: below_percent,
        }
    }
}

/// What is smaller than all before it is not larger than any of them.
proof fn lemma_smaller_is_strict(keys: Seq<i64>, outcomes: Map<i64, StatusClassCounts>, at: int)
    requires
        at == keys.len() - 1,
        0 <= at,
        forall|k: int|
            0 <= k < at ==> smaller(
                success_fraction(outcomes[keys[at]]),
                success_fraction(outcomes[#[trigger] keys[k]]),
            ),
    ensures
        first_minimum(keys, outcomes, at),
{
}

proof fn lemma_larger_is_strict(keys: Seq<i64>, outcomes: Map<i64, StatusClassCounts>, at: int)
    requires
        at == keys.len() - 1,
        0 <= at,
        forall|k: int|
            0 <= k < at ==> smaller(
                server_error_fraction(outcomes[#[trigger] keys[k]]),
                server_error_fraction(outcomes[keys[at]]),
            ),
    ensures
        first_maximum(keys, outcomes, at),
{
}

/// The earliest bucket with the smallest success share is unique.
pub proof fn earliest_minimum_is_unique(
    keys: Seq<i64>,
    outcomes: Map<i64, StatusClassCounts>,
    a: int,
    b: int,
)
    requires
        first_minimum(keys, outcomes, a),
        first_minimum(keys, outcomes, b),
    ensures
        a == b,
{
    if a < b {
        assert(smaller(success_fraction(outcomes[keys[b]]), success_fraction(outcomes[keys[a]])));
    } else if b < a {
        assert(smaller(success_fraction(outcomes[keys[a]]), success_fraction(outcomes[keys[b]])));
    }
}

/// The earliest bucket with the largest server-error share is unique.
pub proof fn earliest_maximum_is_unique(
    keys: Seq<i64>,
    outcomes: Map<i64, StatusClassCounts>,
    a: int,
    b: int,
)
    requires
        first_maximum(keys, outcomes, a),
        first_maximum(keys, outcomes, b),
    ensures
        a == b,
{
    if a < b {
        assert(smaller(
            server_error_fraction(outcomes[keys[a]]),
            server_error_fraction(outcomes[keys[b]]),
        ));
    } else if b < a {
        assert(smaller(
            server_error_fraction(outcomes[keys[b]]),
            server_error_fraction(outcomes[keys[a]]),
        ));
    }
}

/// Every observation is counted in its bucket or as beyond the bound, and nothing else changes.
pub proof fn tracking_counts_each_observation(timeline: TimelineModel, maximum: nat, bucket: i64, other: i64)
    requires
        timeline.buckets.dom().finite(),
        timeline.within((u64::MAX - 1) as nat),
    ensures
        ({
            let after = timeline.counting(maximum, bucket);
            let before_count = if timeline.buckets.dom().contains(bucket) {
                timeline.buckets[bucket] as int
            } else {
                0
            };
            let after_count = if after.buckets.dom().contains(bucket) {
                after.buckets[bucket] as int
            } else {
                0
            };
            &&& after_count + after.beyond_cap == before_count + timeline.beyond_cap + 1
            &&& other != bucket ==> after.buckets.dom().contains(other)
                == timeline.buckets.dom().contains(other)
            &&& other != bucket && timeline.buckets.dom().contains(other) ==> after.buckets[other]
                == timeline.buckets[other]
            &&& timeline.buckets.dom().len() <= maximum ==> after.buckets.dom().len() <= maximum
        }),
{
}

} // verus!
