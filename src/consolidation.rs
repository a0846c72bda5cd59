use vstd::prelude::*;

use crate::data::{max2, min2, Bar, MarketData};

verus! {

/// Start of the bucket of `output_minutes` minutes that holds the instant
/// `date` (in seconds): the same hour, with the minute rounded down to a
/// multiple of `output_minutes` and the seconds cleared.
pub open spec fn bucket_start_of(output_minutes: int, date: int) -> int {
    let hour_start = date - date % 3600;
    let minute = (date % 3600) / 60;
    hour_start + (minute / output_minutes) * output_minutes * 60
}

/// The start of the hour that holds `date` is representable.
pub open spec fn date_fits(date: int) -> bool {
    date >= i64::MIN + 3600
}

/// The summary of the bars of one bucket: the open of its earliest bar (the
/// first of equally early ones), the close of its latest bar (the last of
/// equally late ones), the highest high, the lowest low and the summed volume.
pub struct BucketView {
    pub open_date: int,
    pub open: int,
    pub close_date: int,
    pub close: int,
    pub high: int,
    pub low: int,
    pub volume: int,
}

/// The summary of a bucket that holds bar `b` alone.
pub open spec fn first_summary(b: Bar) -> BucketView {
    BucketView {
        open_date: b.date as int,
        open: b.open as int,
        close_date: b.date as int,
        close: b.close as int,
        high: b.high as int,
        low: b.low as int,
        volume: b.volume as int,
    }
}

/// The summary `a` of a bucket after bar `b` joins it.
pub open spec fn merge_summary(a: BucketView, b: Bar) -> BucketView {
    let earlier = (b.date as int) < a.open_date;
    let later = (b.date as int) >= a.close_date;
    BucketView {
        open_date: if earlier { b.date as int } else { a.open_date },
        open: if earlier { b.open as int } else { a.open },
        close_date: if later { b.date as int } else { a.close_date },
        close: if later { b.close as int } else { a.close },
        high: max2(a.high, b.high as int),
        low: min2(a.low, b.low as int),
        volume: a.volume + b.volume,
    }
}

/// The summary of the bars among `bars` whose bucket starts at `key`, or
/// `None` when there is none.
pub open spec fn bucket_summary(bars: Seq<Bar>, output_minutes: int, key: int) -> Option<BucketView>
    decreases bars.len(),
{
    if bars.len() == 0 {
        None
    } else {
        let prev = bucket_summary(bars.drop_last(), output_minutes, key);
        let b = bars.last();
        if bucket_start_of(output_minutes, b.date as int) != key {
            prev
        } else {
            match prev {
                None => Some(first_summary(b)),
                Some(a) => Some(merge_summary(a, b)),
            }
        }
    }
}

/// The summed volume of `bars`.
pub open spec fn total_volume(bars: Seq<Bar>) -> int
    decreases bars.len(),
{
    if bars.len() == 0 {
        0
    } else {
        total_volume(bars.drop_last()) + bars.last().volume
    }
}

/// The bars that a sequence of observations holds; a tick stands for no bar.
pub open spec fn bars_of(data: Seq<MarketData>) -> Seq<Bar> {
    Seq::new(
        data.len(),
        |i: int|
            match data[i] {
                MarketData::Bar(b) => b,
                MarketData::Tick(_) => Bar { date: 0, open: 0, high: 0, low: 0, close: 0, volume: 0 },
            },
    )
}

/// The bar that stands for the bucket starting at `key`.
pub open spec fn consolidated(s: BucketView, key: int) -> Bar {
    Bar {
        date: key as i64,
        open: s.open as u64,
        high: s.high as u64,
        low: s.low as u64,
        close: s.close as u64,
        volume: s.volume as u64,
    }
}

/// Aggregates bars of `input_minutes` minutes into bars of `output_minutes`
/// minutes.
#[derive(Clone, Copy, Debug, PartialEq, Eq)]
pub struct HistoricBarConsolidationModel {
    pub input_minutes: u32,
    pub output_minutes: u32,
}

/// One bucket while bars are being gathered.
#[derive(Clone, Copy)]
struct Bucket {
    start: i64,
    open_date: i64,
    open: u64,
    close_date: i64,
    close: u64,
    high: u64,
    low: u64,
    volume: u64,
}

impl Bucket {
    spec fn summary(self) -> BucketView {
        BucketView {
            open_date: self.open_date as int,
            open: self.open as int,
            close_date: self.close_date as int,
            close: self.close as int,
            high: self.high as int,
            low: self.low as int,
            volume: self.volume as int,
        }
    }
}

proof fn lemma_summary_volume(bars: Seq<Bar>, output_minutes: int, key: int)
    ensures
        0 <= total_volume(bars),
        bucket_summary(bars, output_minutes, key) matches Some(s) ==> 0 <= s.volume <= total_volume(bars),
    decreases bars.len(),
{
    if bars.len() > 0 {
        lemma_summary_volume(bars.drop_last(), output_minutes, key);
    }
}

proof fn lemma_total_volume_prefix(bars: Seq<Bar>, i: int)
    requires
        0 <= i <= bars.len(),
    ensures
        total_volume(bars.take(i)) <= total_volume(bars),
    decreases bars.len() - i,
{
    if i < bars.len() {
        lemma_total_volume_prefix(bars, i + 1);
        assert(bars.take(i + 1).drop_last() =~= bars.take(i));
        lemma_summary_volume(bars.take(i), 1, 0);
    } else {
        assert(bars.take(i) =~= bars);
    }
}

/// `bk` holds, sorted by start, one summary for each bucket that `bars` fill.
spec fn represents(bk: Seq<Bucket>, bars: Seq<Bar>, output_minutes: int) -> bool {
    &&& forall|i: int, j: int| 0 <= i < j < bk.len() ==> (#[trigger] bk[i]).start < (#[trigger] bk[j]).start
    &&& forall|k: int|
        0 <= k < bk.len() ==> bucket_summary(bars, output_minutes, (#[trigger] bk[k]).start as int) == Some(
            bk[k].summary(),
        )
    &&& forall|j: int|
        0 <= j < bars.len() ==> exists|k: int|
            0 <= k < bk.len() && (#[trigger] bk[k]).start == bucket_start_of(
                output_minutes,
                (#[trigger] bars[j]).date as int,
            )
}

proof fn lemma_summary_push(bars: Seq<Bar>, b: Bar, output_minutes: int, key: int)
    ensures
        bucket_summary(bars.push(b), output_minutes, key) == (if bucket_start_of(output_minutes, b.date as int)
            != key {
            bucket_summary(bars, output_minutes, key)
        } else {
            match bucket_summary(bars, output_minutes, key) {
                None => Some(first_summary(b)),
                Some(a) => Some(merge_summary(a, b)),
            }
        }),
        total_volume(bars.push(b)) == total_volume(bars) + b.volume,
{
    assert(bars.push(b).drop_last() =~= bars);
}

proof fn lemma_summary_has_member(bars: Seq<Bar>, output_minutes: int, key: int)
    requires
        bucket_summary(bars, output_minutes, key) is Some,
    ensures
        exists|j: int| 0 <= j < bars.len() && bucket_start_of(output_minutes, bars[j].date as int) == key,
    decreases bars.len(),
{
    let prev = bars.drop_last();
    if bucket_start_of(output_minutes, bars.last().date as int) != key {
        lemma_summary_has_member(prev, output_minutes, key);
        let j = choose|j: int| 0 <= j < prev.len() && bucket_start_of(output_minutes, prev[j].date as int) == key;
        assert(bars[j] == prev[j]);
    } else {
        assert(bucket_start_of(output_minutes, bars[bars.len() - 1].date as int) == key);
    }
}

/// Adds bar `b`, whose bucket starts at `key`, to the buckets of `bars`.
fn add_bar(buckets: &mut Vec<Bucket>, key: i64, b: Bar, Ghost(bars): Ghost<Seq<Bar>>, Ghost(out): Ghost<int>)
    requires
        represents(old(buckets)@, bars, out),
        key == bucket_start_of(out, b.date as int),
        total_volume(bars.push(b)) <= u64::MAX,
    ensures
        represents(final(buckets)@, bars.push(b), out),
{
    let ghost bk0 = buckets@;
    let ghost nb = bars.push(b);
    let n = buckets.len();
    let mut pos: usize = 0;
    while pos < n && buckets[pos].start < key
        invariant
            n == buckets@.len(),
            buckets@ == bk0,
            0 <= pos <= n,
            forall|m: int| 0 <= m < pos ==> (#[trigger] buckets@[m]).start < key,
        decreases n - pos,
    {
        pos = pos + 1;
    }
    proof {
        lemma_summary_volume(nb, out, key as int);
        lemma_summary_push(bars, b, out, key as int);
        assert forall|k: int| #![trigger bucket_summary(nb, out, k)] k != key implies bucket_summary(nb, out, k) == bucket_summary(bars, out, k) by {
            lemma_summary_push(bars, b, out, k);
        }
    }
    if pos < n && buckets[pos].start == key {
        let cur = buckets[pos];
        let earlier = b.date < cur.open_date;
        let later = b.date >= cur.close_date;
        let merged = Bucket {
            start: key,
            open_date: if earlier { b.date } else { cur.open_date },
            open: if earlier { b.open } else { cur.open },
            close_date: if later { b.date } else { cur.close_date },
            close: if later { b.close } else { cur.close },
            high: if b.high >= cur.high { b.high } else { cur.high },
            low: if b.low <= cur.low { b.low } else { cur.low },
            volume: cur.volume + b.volume,
        };
        buckets.set(pos, merged);
        proof {
            let bk = buckets@;
            assert forall|k: int| 0 <= k < bk.len() implies bucket_summary(nb, out, (#[trigger] bk[k]).start as int) == Some(bk[k].summary()) by {
                if k != pos {
                    assert(bk[k] == bk0[k]);
                    assert(bucket_summary(bars, out, bk0[k].start as int) == Some(bk0[k].summary()));
                    if k < pos {
                        assert(bk0[k].start < bk0[pos as int].start);
                    } else {
                        assert(bk0[pos as int].start < bk0[k].start);
                    }
                }
            }
            assert forall|j: int| 0 <= j < nb.len() implies exists|k: int|
                0 <= k < bk.len() && (#[trigger] bk[k]).start == bucket_start_of(out, (#[trigger] nb[j]).date as int) by {
                if j < bars.len() {
                    assert(nb[j] == bars[j]);
                    let k = choose|k: int| 0 <= k < bk0.len() && (#[trigger] bk0[k]).start == bucket_start_of(out, bars[j].date as int);
                    assert(bk[k].start == bk0[k].start);
                } else {
                    assert(bk[pos as int].start == bucket_start_of(out, nb[j].date as int));
                }
            }
        }
    } else {
        proof {
            if bucket_summary(bars, out, key as int) is Some {
                lemma_summary_has_member(bars, out, key as int);
                let j = choose|j: int| 0 <= j < bars.len() && bucket_start_of(out, bars[j].date as int) == key;
                let k = choose|k: int| 0 <= k < bk0.len() && (#[trigger] bk0[k]).start == bucket_start_of(out, (#[trigger] bars[j]).date as int);
                if k < pos {
                    assert(bk0[k].start < key);
                } else if k == pos {
                } else {
                    assert(bk0[pos as int].start < bk0[k].start);
                }
                assert(false);
            }
        }
        let fresh = Bucket {
            start: key,
            open_date: b.date,
            open: b.open,
            close_date: b.date,
            close: b.close,
            high: b.high,
            low: b.low,
            volume: b.volume,
        };
        buckets.insert(pos, fresh);
        proof {
            bk0.insert_ensures(pos as int, fresh);
            let bk = buckets@;
            assert forall|k: int| 0 <= k < bk.len() implies bucket_summary(nb, out, (#[trigger] bk[k]).start as int) == Some(bk[k].summary()) by {
                if k < pos {
                    assert(bk[k] == bk0[k]);
                    assert(bucket_summary(bars, out, bk0[k].start as int) == Some(bk0[k].summary()));
                } else if k > pos {
                    assert(bk[k] == bk0[k - 1]);
                    assert(bucket_summary(bars, out, bk0[k - 1].start as int) == Some(bk0[k - 1].summary()));
                    assert(bk0[k - 1].start >= key);
                }
            }
            assert forall|i: int, j: int| 0 <= i < j < bk.len() implies (#[trigger] bk[i]).start < (#[trigger] bk[j]).start by {
                if j < pos {
                    assert(bk0[i].start < bk0[j].start);
                } else if j == pos {
                    assert(bk0[i].start < key);
                } else if i < pos {
                    assert(bk0[i].start < bk0[j - 1].start || bk0[i].start < key);
                    assert(bk0[i].start < key);
                    assert(bk0[j - 1].start >= key);
                } else if i == pos {
                    assert(bk0[j - 1].start >= key);
                    assert(bk0[j - 1].start != key);
                } else {
                    assert(bk0[i - 1].start < bk0[j - 1].start);
                }
            }
            assert forall|j: int| 0 <= j < nb.len() implies exists|k: int|
                0 <= k < bk.len() && (#[trigger] bk[k]).start == bucket_start_of(out, (#[trigger] nb[j]).date as int) by {
                if j < bars.len() {
                    assert(nb[j] == bars[j]);
                    let k = choose|k: int| 0 <= k < bk0.len() && (#[trigger] bk0[k]).start == bucket_start_of(out, bars[j].date as int);
                    if k < pos {
                        assert(bk[k].start == bk0[k].start);
                    } else {
                        assert(bk[k + 1].start == bk0[k].start);
                    }
                } else {
                    assert(bk[pos as int].start == bucket_start_of(out, nb[j].date as int));
                }
            }
        }
    }
}

/// The start of a bar, or the timestamp of a tick.
pub open spec fn date_of(d: MarketData) -> int {
    match d {
        MarketData::Bar(b) => b.date as int,
        MarketData::Tick(t) => t.timestamp as int,
    }
}

impl HistoricBarConsolidationModel {
    /// A model from `input_minutes` bars to `output_minutes` bars; the output
    /// period must be a multiple of the input period.
    pub fn new(input_minutes: u32, output_minutes: u32) -> (r: Self)
        requires
            input_minutes > 0,
            output_minutes % input_minutes == 0,
        ensures
            r.input_minutes == input_minutes,
            r.output_minutes == output_minutes,
    {
        HistoricBarConsolidationModel { input_minutes, output_minutes }
    }

    /// The start of the output bucket that holds the instant `date`.
    pub fn bucket_start(&self, date: i64) -> (r: i64)
        requires
            self.output_minutes > 0,
            date_fits(date as int),
        ensures
            r == bucket_start_of(self.output_minutes as int, date as int),
    {
        let rem: i64 = date % 3600;
        let into_hour: i64 = if rem < 0 {
            rem + 3600
        } else {
            rem
        };
        assert(into_hour == date % 3600);
        let minute: i64 = into_hour / 60;
        let out: i64 = self.output_minutes as i64;
        assert(0 <= (minute / out) * out <= minute) by (nonlinear_arith)
            requires
                0 <= minute,
                out > 0,
        ;
        let bucket_minute: i64 = (minute / out) * out;
        date - into_hour + bucket_minute * 60
    }
    /// Aggregates bars into one bar per output bucket, ordered by bucket start.
    /// Each output bar starts at its bucket's start and carries the open of
    /// the bucket's earliest bar, the close of its latest bar, the highest
    /// high, the lowest low and the summed volume.
    pub fn consolidate_bars(&self, data: &Vec<MarketData>) -> (r: Vec<MarketData>)
        requires
            self.output_minutes > 0,
            forall|i: int| 0 <= i < data@.len() ==> (#[trigger] data@[i]) is Bar && date_fits(date_of(data@[i])),
            total_volume(bars_of(data@)) <= u64::MAX,
        ensures
            forall|i: int, j: int| 0 <= i < j < r@.len() ==> date_of(#[trigger] r@[i]) < date_of(#[trigger] r@[j]),
            forall|i: int|
                0 <= i < r@.len() ==> (bucket_summary(bars_of(data@), self.output_minutes as int, date_of(#[trigger] r@[i]))
                    matches Some(s) && r@[i] == MarketData::Bar(consolidated(s, date_of(r@[i])))),
            forall|j: int|
                0 <= j < data@.len() ==> exists|i: int|
                    0 <= i < r@.len() && date_of(#[trigger] r@[i]) == bucket_start_of(
                        self.output_minutes as int,
                        date_of(#[trigger] data@[j]),
                    ),
    {
        let ghost bars = bars_of(data@);
        let ghost out = self.output_minutes as int;
        let mut buckets: Vec<Bucket> = Vec::new();
        let n = data.len();
        let mut i: usize = 0;
        while i < n
            invariant
                n == data@.len(),
                0 <= i <= n,
                bars == bars_of(data@),
                out == self.output_minutes as int,
                self.output_minutes > 0,
                forall|i: int| 0 <= i < data@.len() ==> (#[trigger] data@[i]) is Bar && date_fits(date_of(data@[i])),
                total_volume(bars) <= u64::MAX,
                represents(buckets@, bars.take(i as int), out),
            decreases n - i,
        {
            let b = match data[i] {
                MarketData::Bar(b) => b,
                MarketData::Tick(_) => {
                    assert(false);
                    Bar { date: 0, open: 0, high: 0, low: 0, close: 0, volume: 0 }
                },
            };
            assert(bars[i as int] == b);
            let key = self.bucket_start(b.date);
            proof {
                assert(bars.take(i as int).push(b) =~= bars.take(i + 1));
                lemma_total_volume_prefix(bars, i + 1);
            }
            add_bar(&mut buckets, key, b, Ghost(bars.take(i as int)), Ghost(out));
            i = i + 1;
        }
        proof {
            assert(bars.take(n as int) =~= bars);
        }
        let mut result: Vec<MarketData> = Vec::new();
        let m = buckets.len();
        let mut k: usize = 0;
        while k < m
            invariant
                m == buckets@.len(),
                0 <= k <= m,
                result@.len() == k,
                forall|j: int|
                    0 <= j < k ==> #[trigger] result@[j] == MarketData::Bar(
                        consolidated(buckets@[j].summary(), buckets@[j].start as int),
                    ),
            decreases m - k,
        {
            let bk = buckets[k];
            result.push(
                MarketData::Bar(
                    Bar { date: bk.start, open: bk.open, high: bk.high, low: bk.low, close: bk.close, volume: bk.volume },
                ),
            );
            k = k + 1;
        }
        proof {
            let bk = buckets@;
            assert forall|i: int| 0 <= i < result@.len() implies date_of(#[trigger] result@[i]) == bk[i].start by {}
            assert forall|i: int, j: int| 0 <= i < j < result@.len() implies date_of(#[trigger] result@[i]) < date_of(#[trigger] result@[j]) by {
                assert(bk[i].start < bk[j].start);
            }
            assert forall|i: int| 0 <= i < result@.len() implies (bucket_summary(bars, out, date_of(#[trigger] result@[i]))
                    matches Some(s) && result@[i] == MarketData::Bar(consolidated(s, date_of(result@[i])))) by {
                assert(bucket_summary(bars, out, bk[i].start as int) == Some(bk[i].summary()));
            }
            assert forall|j: int| 0 <= j < data@.len() implies exists|i: int|
                    0 <= i < result@.len() && date_of(#[trigger] result@[i]) == bucket_start_of(out, date_of(#[trigger] data@[j])) by {
                assert(bars[j].date as int == date_of(data@[j]));
                let k = choose|k: int| 0 <= k < bk.len() && (#[trigger] bk[k]).start == bucket_start_of(out, (#[trigger] bars[j]).date as int);
                assert(date_of(result@[k]) == bk[k].start);
            }
        }
        result
    }
}

} // verus!
