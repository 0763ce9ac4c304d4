//! Metrics: counters, the rolling window behind a histogram, and the text that a
//! monitoring system reads.
use std::collections::VecDeque;
use vstd::prelude::*;
use vstd::string::StringExecFns;
use crate::numbers::{decimal, to_decimal};
use crate::runtime::metric_names::{
    BYTES_RECEIVED, BYTES_SENT, CLIENT_DECODE_RENDER_US, CONNECTIONS_ACTIVE, CONNECTIONS_TOTAL,
    CONNECTION_ERRORS, CONVERSIONS_TOTAL, CONVERSION_TIME_MS, EGFX_FRAME_ACKS, EGFX_QUEUE_DEPTH,
    ENCODER_BITRATE_KBPS, ENCODER_FPS, ENCODE_DURATION_MS, FRAMES_DISPATCHED, FRAMES_DROPPED,
    FRAMES_PROCESSED, FRAMES_QUEUED, FRAMES_RECEIVED, FRAME_PROCESSING_TIME_MS,
};
use crate::strings::{chars_of, has_prefix, same_text, text_of};
use crate::text_map::TextMap;
use crate::words::{lemma_occurs_in_a_part, lemma_parts_occur, occurs};

verus! {

/// Prefix of every exported name.
pub const NAMESPACE: &'static str = "lamco_rdp_";

/// Most samples that a histogram keeps: some minutes of frames.
pub const MAX_HISTOGRAM_SAMPLES: usize = 10_000;

// ---------------------------------------------------------------------------
// Histograms
// ---------------------------------------------------------------------------

/// The last `MAX_HISTOGRAM_SAMPLES` samples, oldest first, and how many there ever
/// were. A sample is whatever 64 bits the caller finds it again by.
pub struct Histogram {
    samples: VecDeque<u64>,
    total_count: u64,
}

/// The last `count` elements of a history.
pub open spec fn most_recent(history: Seq<u64>, count: int) -> Seq<u64> {
    if history.len() <= count {
        history
    } else {
        history.skip(history.len() - count)
    }
}

impl Histogram {
    pub closed spec fn samples(&self) -> Seq<u64> {
        self.samples@
    }

    pub closed spec fn total(&self) -> nat {
        self.total_count as nat
    }

    /// The window is what is left of a history.
    pub open spec fn remembers(&self, history: Seq<u64>) -> bool {
        &&& self.samples() == most_recent(history, MAX_HISTOGRAM_SAMPLES as int)
        &&& self.total() == history.len()
    }

    /// Never more samples than the cap, and never more than there ever were.
    pub open spec fn well_formed(&self) -> bool {
        self.samples().len() <= MAX_HISTOGRAM_SAMPLES && self.samples().len() <= self.total()
    }

    /// An empty histogram.
    pub fn new() -> (histogram: Self)
        ensures
            histogram.well_formed(),
            histogram.samples() == Seq::<u64>::empty(),
            histogram.total() == 0,
            histogram.remembers(Seq::empty()),
    {
        Histogram { samples: VecDeque::new(), total_count: 0 }
    }

    /// Records a sample. Where the window is full its oldest sample leaves, and is
    /// returned.
    pub fn record(&mut self, sample: u64) -> (evicted: Option<u64>)
        requires
            old(self).well_formed(),
            old(self).total() < u64::MAX,
        ensures
            final(self).well_formed(),
            final(self).total() == old(self).total() + 1,
            if old(self).samples().len() >= MAX_HISTOGRAM_SAMPLES {
                &&& evicted == Some(old(self).samples()[0])
                &&& final(self).samples() == old(self).samples().skip(1).push(sample)
            } else {
                &&& evicted is None
                &&& final(self).samples() == old(self).samples().push(sample)
            },
            forall|history: Seq<u64>|
                old(self).remembers(history) ==> #[trigger] final(self).remembers(
                    history.push(sample),
                ),
    {
        let ghost before = self.samples();
        let evicted: Option<u64> = if self.samples.len() >= MAX_HISTOGRAM_SAMPLES {
            let oldest: Option<u64> = self.samples.pop_front();
            assert(self.samples@ =~= before.skip(1));
            oldest
        } else {
            None
        };
        self.samples.push_back(sample);
        self.total_count = self.total_count + 1;
        assert forall|history: Seq<u64>|
            before == most_recent(history, MAX_HISTOGRAM_SAMPLES as int) implies self.samples()
            == most_recent(#[trigger] history.push(sample), MAX_HISTOGRAM_SAMPLES as int) by {
            let longer = history.push(sample);
            if history.len() < MAX_HISTOGRAM_SAMPLES {
                assert(self.samples() =~= longer);
            } else {
                assert(self.samples() =~= longer.skip(longer.len() - MAX_HISTOGRAM_SAMPLES));
            }
        }
        evicted
    }

    /// How many samples the window holds.
    pub fn len(&self) -> (count: usize)
        ensures
            count == self.samples().len(),
    {
        self.samples.len()
    }

    /// How many samples there ever were.
    pub fn total_count(&self) -> (count: u64)
        ensures
            count == self.total(),
    {
        self.total_count
    }

    /// The samples, oldest first.
    pub fn to_vec(&self) -> (samples: Vec<u64>)
        ensures
            samples@ == self.samples(),
    {
        let mut samples: Vec<u64> = Vec::new();
        let mut i: usize = 0;
        while i < self.samples.len()
            invariant
                i <= self.samples@.len(),
                samples@ == self.samples@.take(i as int),
            decreases self.samples@.len() - i,
        {
            samples.push(self.samples[i]);
            i += 1;
            assert(samples@ =~= self.samples@.take(i as int));
        }
        assert(samples@ =~= self.samples@);
        samples
    }
}

// ---------------------------------------------------------------------------
// Collector
// ---------------------------------------------------------------------------

/// What a counter stands at; one that was never incremented stands at 0.
pub open spec fn counter_value(counters: Map<Seq<char>, u64>, name: Seq<char>) -> u64 {
    if counters.contains_key(name) {
        counters[name]
    } else {
        0
    }
}

/// What a histogram holds; one that was never recorded to holds nothing.
pub open spec fn samples_of(histograms: Map<Seq<char>, Histogram>, name: Seq<char>) -> Seq<u64> {
    if histograms.contains_key(name) {
        histograms[name].samples()
    } else {
        seq![]
    }
}

/// How many samples a histogram ever got.
pub open spec fn total_of(histograms: Map<Seq<char>, Histogram>, name: Seq<char>) -> nat {
    if histograms.contains_key(name) {
        histograms[name].total()
    } else {
        0
    }
}

/// A histogram's window at a moment.
#[derive(Debug, PartialEq, Eq)]
pub struct HistogramWindow {
    /// How many samples there ever were.
    pub total_count: u64,
    /// The samples, oldest first.
    pub samples: Vec<u64>,
}

/// All metrics at a moment.
pub struct MetricsSnapshot {
    /// When the picture was taken, in nanoseconds of the calendar.
    pub timestamp: u128,
    /// Nanoseconds since the server started.
    pub uptime: u128,
    pub counters: TextMap<u64>,
    pub gauges: TextMap<u64>,
    pub histograms: TextMap<HistogramWindow>,
}

/// A window shows what a histogram holds.
pub open spec fn shows(window: HistogramWindow, histogram: Histogram) -> bool {
    window.total_count == histogram.total() && window.samples@ == histogram.samples()
}

/// Counters, gauges and histograms by name. Gauges and samples are the bits of
/// doubles.
pub struct MetricsCollector {
    counters: TextMap<u64>,
    gauges: TextMap<u64>,
    histograms: TextMap<Histogram>,
}

impl MetricsCollector {
    pub closed spec fn well_formed(&self) -> bool {
        &&& self.counters.well_formed()
        &&& self.gauges.well_formed()
        &&& self.histograms.well_formed()
        &&& forall|name: Seq<char>| #[trigger]
            self.histograms@.contains_key(name) ==> self.histograms@[name].well_formed()
    }

    pub closed spec fn counters(&self) -> Map<Seq<char>, u64> {
        self.counters@
    }

    /// The counters' names in the order in which they were first used.
    pub closed spec fn counter_names(&self) -> Seq<Seq<char>> {
        self.counters.keys()
    }

    pub closed spec fn gauges(&self) -> Map<Seq<char>, u64> {
        self.gauges@
    }

    pub closed spec fn histograms(&self) -> Map<Seq<char>, Histogram> {
        self.histograms@
    }

    /// No metrics yet.
    pub fn new() -> (metrics: Self)
        ensures
            metrics.well_formed(),
            metrics.counters() == Map::<Seq<char>, u64>::empty(),
            metrics.counter_names() == Seq::<Seq<char>>::empty(),
            metrics.gauges() == Map::<Seq<char>, u64>::empty(),
            metrics.histograms() == Map::<Seq<char>, Histogram>::empty(),
    {
        MetricsCollector {
            counters: TextMap::new(),
            gauges: TextMap::new(),
            histograms: TextMap::new(),
        }
    }

    /// Adds to a counter.
    pub fn increment_counter(&mut self, name: &str, value: u64)
        requires
            old(self).well_formed(),
            counter_value(old(self).counters(), name@) + value <= u64::MAX,
        ensures
            final(self).well_formed(),
            final(self).counters() == old(self).counters().insert(
                name@,
                (counter_value(old(self).counters(), name@) + value) as u64,
            ),
            final(self).counters()[name@] == value + if old(self).counters().contains_key(name@) {
                old(self).counters()[name@] as int
            } else {
                0
            },
            final(self).counter_names() == if old(self).counters().contains_key(name@) {
                old(self).counter_names()
            } else {
                old(self).counter_names().push(name@)
            },
            final(self).gauges() == old(self).gauges(),
            final(self).histograms() == old(self).histograms(),
    {
        let before: u64 = match self.counters.get(name) {
            Some(value) => *value,
            None => 0,
        };
        self.counters.insert(name.to_owned(), before + value);
    }

    /// What a counter stands at; `None` for one that was never incremented.
    pub fn get_counter(&self, name: &str) -> (value: Option<u64>)
        requires
            self.well_formed(),
        ensures
            value == if self.counters().contains_key(name@) {
                Some(self.counters()[name@])
            } else {
                None
            },
    {
        match self.counters.get(name) {
            Some(value) => Some(*value),
            None => None,
        }
    }

    /// Sets a gauge.
    pub fn set_gauge(&mut self, name: &str, bits: u64)
        requires
            old(self).well_formed(),
        ensures
            final(self).well_formed(),
            final(self).gauges() == old(self).gauges().insert(name@, bits),
            final(self).counters() == old(self).counters(),
            final(self).counter_names() == old(self).counter_names(),
            final(self).histograms() == old(self).histograms(),
    {
        self.gauges.insert(name.to_owned(), bits);
    }

    /// What a gauge shows; `None` for one that was never set.
    pub fn get_gauge(&self, name: &str) -> (bits: Option<u64>)
        requires
            self.well_formed(),
        ensures
            bits == if self.gauges().contains_key(name@) {
                Some(self.gauges()[name@])
            } else {
                None
            },
    {
        match self.gauges.get(name) {
            Some(bits) => Some(*bits),
            None => None,
        }
    }

    /// Records a sample to a histogram. Returns the sample that left its window.
    pub fn record_histogram(&mut self, name: &str, sample: u64) -> (evicted: Option<u64>)
        requires
            old(self).well_formed(),
            total_of(old(self).histograms(), name@) < u64::MAX,
        ensures
            final(self).well_formed(),
            final(self).counters() == old(self).counters(),
            final(self).counter_names() == old(self).counter_names(),
            final(self).gauges() == old(self).gauges(),
            final(self).histograms().contains_key(name@),
            final(self).histograms().remove(name@) == old(self).histograms().remove(name@),
            total_of(final(self).histograms(), name@) == total_of(old(self).histograms(), name@)
                + 1,
            ({
                let before = samples_of(old(self).histograms(), name@);
                let after = samples_of(final(self).histograms(), name@);
                if before.len() >= MAX_HISTOGRAM_SAMPLES {
                    evicted == Some(before[0]) && after == before.skip(1).push(sample)
                } else {
                    evicted is None && after == before.push(sample)
                }
            }),
    {
        let ghost before = self.histograms@;
        if let Some(histogram) = self.histograms.get_mut(name) {
            let evicted: Option<u64> = histogram.record(sample);
            assert(self.histograms@.remove(name@) =~= before.remove(name@));
            return evicted;
        }
        let mut histogram = Histogram::new();
        let evicted: Option<u64> = histogram.record(sample);
        self.histograms.insert(name.to_owned(), histogram);
        assert(self.histograms@.remove(name@) =~= before.remove(name@));
        evicted
    }

    /// A histogram; `None` for one that was never recorded to.
    pub fn get_histogram(&self, name: &str) -> (histogram: Option<&Histogram>)
        requires
            self.well_formed(),
        ensures
            match histogram {
                Some(histogram) => self.histograms().contains_key(name@) && *histogram
                    == self.histograms()[name@],
                None => !self.histograms().contains_key(name@),
            },
    {
        self.histograms.get(name)
    }

    /// All metrics as they are now.
    pub fn snapshot(&self, timestamp: u128, uptime: u128) -> (snapshot: MetricsSnapshot)
        requires
            self.well_formed(),
        ensures
            snapshot.timestamp == timestamp,
            snapshot.uptime == uptime,
            snapshot.counters.well_formed(),
            snapshot.counters@ == self.counters(),
            snapshot.counters.keys() == self.counter_names(),
            snapshot.gauges.well_formed(),
            snapshot.gauges@ == self.gauges(),
            snapshot.histograms.well_formed(),
            snapshot.histograms@.dom() == self.histograms().dom(),
            forall|name: Seq<char>| #[trigger]
                snapshot.histograms@.contains_key(name) ==> shows(
                    snapshot.histograms@[name],
                    self.histograms()[name],
                ),
    {
        MetricsSnapshot {
            timestamp,
            uptime,
            counters: self.counters.duplicate(),
            gauges: self.gauges.duplicate(),
            histograms: self.windows(),
        }
    }

    /// The windows of all histograms.
    fn windows(&self) -> (windows: TextMap<HistogramWindow>)
        requires
            self.well_formed(),
        ensures
            windows.well_formed(),
            windows@.dom() == self.histograms().dom(),
            forall|name: Seq<char>| #[trigger]
                windows@.contains_key(name) ==> shows(windows@[name], self.histograms()[name]),
    {
        let source = &self.histograms;
        let mut windows: TextMap<HistogramWindow> = TextMap::new();
        let total: usize = source.len();
        let mut i: usize = 0;
        assert(source.keys().take(0) =~= Seq::empty());
        while i < total
            invariant
                source.well_formed(),
                windows.well_formed(),
                i <= total == source.keys().len(),
                windows.keys() == source.keys().take(i as int),
                forall|k: int|
                    0 <= k < i ==> shows(
                        windows@[#[trigger] source.keys()[k]],
                        source@[source.keys()[k]],
                    ),
            decreases total - i,
        {
            proof {
                source.lemma_next_key(&windows, i as int);
            }
            let (name, histogram) = source.entry(i);
            windows.insert(
                name.clone(),
                HistogramWindow {
                    total_count: histogram.total_count(),
                    samples: histogram.to_vec(),
                },
            );
            i += 1;
        }
        proof {
            assert(source.keys().take(total as int) =~= source.keys());
            source.lemma_keys();
            windows.lemma_keys();
            assert(windows@.dom() =~= source@.dom());
            assert forall|name: Seq<char>| #[trigger] windows@.contains_key(name) implies shows(
                windows@[name],
                source@[name],
            ) by {
                let k = choose|k: int| 0 <= k < source.keys().len() && source.keys()[k] == name;
                assert(shows(windows@[source.keys()[k]], source@[source.keys()[k]]));
            }
        }
        windows
    }

    /// Forgets everything.
    pub fn reset(&mut self)
        ensures
            final(self).well_formed(),
            final(self).counters() == Map::<Seq<char>, u64>::empty(),
            final(self).counter_names() == Seq::<Seq<char>>::empty(),
            final(self).gauges() == Map::<Seq<char>, u64>::empty(),
            final(self).histograms() == Map::<Seq<char>, Histogram>::empty(),
    {
        self.counters.clear();
        self.gauges.clear();
        self.histograms.clear();
    }

    /// All metrics as Prometheus text: the uptime, the counters in the order in which
    /// they were first used, the gauges, and the histograms' summaries. Gauges and
    /// summaries come as texts.
    pub fn export_prometheus(
        &self,
        uptime_seconds: u64,
        gauges: &[TextMetric],
        summaries: &[SummaryMetric],
    ) -> (output: String)
        requires
            self.well_formed(),
        ensures
            output@ == uptime_block(uptime_seconds) + counter_blocks(
                self.counter_names(),
                self.counters(),
                self.counter_names().len() as int,
            ) + gauge_blocks(gauges@, gauges@.len() as int) + summary_blocks(
                summaries@,
                summaries@.len() as int,
            ),
            occurs(output@, "\nlamco_rdp_uptime_seconds "@ + decimal(uptime_seconds as nat) + "\n"@),
            forall|name: Seq<char>| #[trigger]
                self.counters().contains_key(name) ==> occurs(
                    output@,
                    "\n"@ + namespaced(name) + " "@ + decimal(self.counters()[name] as nat) + "\n"@,
                ),
            forall|i: int|
                0 <= i < gauges@.len() ==> occurs(
                    output@,
                    "\n"@ + namespaced((#[trigger] gauges@[i]).name@) + " "@ + gauges@[i].value@
                        + "\n"@,
                ),
    {
        proof {
            let exported = exported_text(
                self.counter_names(),
                self.counters(),
                uptime_seconds,
                gauges@,
                summaries@,
            );
            lemma_uptime_is_exported(
                self.counter_names(),
                self.counters(),
                uptime_seconds,
                gauges@,
                summaries@,
            );
            self.counters.lemma_keys();
            assert forall|name: Seq<char>| #[trigger]
                self.counters().contains_key(name) implies occurs(
                exported,
                "\n"@ + namespaced(name) + " "@ + decimal(self.counters()[name] as nat) + "\n"@,
            ) by {
                lemma_every_counter_is_exported(
                    self.counter_names(),
                    self.counters(),
                    uptime_seconds,
                    gauges@,
                    summaries@,
                    name,
                );
            }
            assert forall|i: int| 0 <= i < gauges@.len() implies occurs(
                exported,
                "\n"@ + namespaced((#[trigger] gauges@[i]).name@) + " "@ + gauges@[i].value@ + "\n"@,
            ) by {
                lemma_every_gauge_is_exported(
                    self.counter_names(),
                    self.counters(),
                    uptime_seconds,
                    gauges@,
                    summaries@,
                    i,
                );
            }
        }
        let mut output: String =
            "# HELP lamco_rdp_uptime_seconds Time since server started.\n# TYPE lamco_rdp_uptime_seconds gauge\nlamco_rdp_uptime_seconds ".to_owned();
        let uptime: String = to_decimal(uptime_seconds);
        output.append(uptime.as_str());
        output.append("\n\n");
        let ghost start = output@;
        assert(start =~= start + counter_blocks(self.counter_names(), self.counters(), 0));
        let mut i: usize = 0;
        let total: usize = self.counters.len();
        while i < total
            invariant
                i <= total == self.counter_names().len(),
                self.well_formed(),
                output@ == start + counter_blocks(self.counter_names(), self.counters(), i as int),
            decreases total - i,
        {
            let (name, value) = self.counters.entry(i);
            let number: String = to_decimal(*value);
            let block: String = write_value(name.as_str(), "counter", number.as_str());
            output.append(block.as_str());
            i += 1;
            assert(output@ =~= start + counter_blocks(
                self.counter_names(),
                self.counters(),
                i as int,
            ));
        }
        let ghost counted = output@;
        assert(counted =~= counted + gauge_blocks(gauges@, 0));
        let mut j: usize = 0;
        while j < gauges.len()
            invariant
                j <= gauges@.len(),
                output@ == counted + gauge_blocks(gauges@, j as int),
            decreases gauges@.len() - j,
        {
            let block: String = write_value(
                gauges[j].name.as_str(),
                "gauge",
                gauges[j].value.as_str(),
            );
            output.append(block.as_str());
            j += 1;
            assert(output@ =~= counted + gauge_blocks(gauges@, j as int));
        }
        let ghost gauged = output@;
        assert(gauged =~= gauged + summary_blocks(summaries@, 0));
        let mut k: usize = 0;
        while k < summaries.len()
            invariant
                k <= summaries@.len(),
                output@ == gauged + summary_blocks(summaries@, k as int),
            decreases summaries@.len() - k,
        {
            let block: String = write_summary(&summaries[k]);
            output.append(block.as_str());
            k += 1;
            assert(output@ =~= gauged + summary_blocks(summaries@, k as int));
        }
        output
    }
}

// ---------------------------------------------------------------------------
// Exported text
// ---------------------------------------------------------------------------

/// A name with the namespace in front of it, once.
pub open spec fn namespaced(name: Seq<char>) -> Seq<char> {
    if NAMESPACE@.is_prefix_of(name) {
        name
    } else {
        NAMESPACE@ + name
    }
}

/// Puts the namespace in front of a name that lacks it.
pub fn namespace_metric(name: &str) -> (full: String)
    ensures
        full@ == namespaced(name@),
{
    if has_prefix(name, NAMESPACE) {
        name.to_owned()
    } else {
        let mut full: String = NAMESPACE.to_owned();
        full.append(name);
        full
    }
}

/// Every exported name has the prefix, and having it already changes nothing.
pub proof fn lemma_namespace_is_added_once(name: Seq<char>)
    ensures
        NAMESPACE@.is_prefix_of(namespaced(name)),
        namespaced(namespaced(name)) == namespaced(name),
{
    assert((NAMESPACE@ + name).subrange(0, NAMESPACE@.len() as int) =~= NAMESPACE@);
}

/// A name with spaces in place of underscores.
pub open spec fn spaced(name: Seq<char>) -> Seq<char> {
    name.map_values(
        |c: char|
            if c == '_' {
                ' '
            } else {
                c
            },
    )
}

/// A name as words, with a full stop.
pub open spec fn humanized(name: Seq<char>) -> Seq<char> {
    spaced(name).push('.')
}

/// What a metric means, in words. A name that is not known speaks for itself.
pub open spec fn help_text(name: Seq<char>) -> Seq<char> {
    if name == FRAMES_RECEIVED@ {
        "Total video frames received from PipeWire."@
    } else if name == FRAMES_PROCESSED@ {
        "Total video frames successfully processed."@
    } else if name == FRAMES_DROPPED@ {
        "Total video frames dropped."@
    } else if name == FRAME_PROCESSING_TIME_MS@ {
        "Frame processing time in milliseconds."@
    } else if name == CONVERSIONS_TOTAL@ {
        "Total format conversions performed."@
    } else if name == CONVERSION_TIME_MS@ {
        "Conversion time in milliseconds."@
    } else if name == FRAMES_DISPATCHED@ {
        "Total frames dispatched to RDP clients."@
    } else if name == FRAMES_QUEUED@ {
        "Current frames waiting in dispatch queue."@
    } else if name == BYTES_SENT@ {
        "Total bytes sent to RDP clients."@
    } else if name == BYTES_RECEIVED@ {
        "Total bytes received from RDP clients."@
    } else if name == CONNECTIONS_ACTIVE@ {
        "Currently active RDP connections."@
    } else if name == CONNECTIONS_TOTAL@ {
        "Total RDP connections since server start."@
    } else if name == CONNECTION_ERRORS@ {
        "Total connection errors."@
    } else if name == EGFX_QUEUE_DEPTH@ {
        "EGFX frame acknowledgement queue depth."@
    } else if name == EGFX_FRAME_ACKS@ {
        "Total EGFX frame acknowledgements received."@
    } else if name == CLIENT_DECODE_RENDER_US@ {
        "Client-reported decode+render time in microseconds."@
    } else if name == ENCODER_FPS@ {
        "Current encoder frames per second."@
    } else if name == ENCODER_BITRATE_KBPS@ {
        "Current encoder bitrate in kbps."@
    } else if name == ENCODE_DURATION_MS@ {
        "Encoding duration per frame in milliseconds."@
    } else {
        humanized(name)
    }
}

/// Writes a name as words.
fn humanize(name: &str) -> (words: String)
    ensures
        words@ == humanized(name@),
{
    let chars: Vec<char> = chars_of(name);
    let mut words: Vec<char> = Vec::new();
    let mut i: usize = 0;
    while i < chars.len()
        invariant
            i <= chars@.len(),
            words@ == spaced(chars@).take(i as int),
        decreases chars@.len() - i,
    {
        let c: char = if chars[i] == '_' {
            ' '
        } else {
            chars[i]
        };
        words.push(c);
        i += 1;
        assert(words@ =~= spaced(chars@).take(i as int));
    }
    words.push('.');
    assert(words@ =~= humanized(name@));
    text_of(words.as_slice())
}

/// What a metric means, in words.
pub fn metric_help(name: &str) -> (help: String)
    ensures
        help@ == help_text(name@),
{
    if same_text(name, FRAMES_RECEIVED) {
        "Total video frames received from PipeWire.".to_owned()
    } else if same_text(name, FRAMES_PROCESSED) {
        "Total video frames successfully processed.".to_owned()
    } else if same_text(name, FRAMES_DROPPED) {
        "Total video frames dropped.".to_owned()
    } else if same_text(name, FRAME_PROCESSING_TIME_MS) {
        "Frame processing time in milliseconds.".to_owned()
    } else if same_text(name, CONVERSIONS_TOTAL) {
        "Total format conversions performed.".to_owned()
    } else if same_text(name, CONVERSION_TIME_MS) {
        "Conversion time in milliseconds.".to_owned()
    } else if same_text(name, FRAMES_DISPATCHED) {
        "Total frames dispatched to RDP clients.".to_owned()
    } else if same_text(name, FRAMES_QUEUED) {
        "Current frames waiting in dispatch queue.".to_owned()
    } else if same_text(name, BYTES_SENT) {
        "Total bytes sent to RDP clients.".to_owned()
    } else if same_text(name, BYTES_RECEIVED) {
        "Total bytes received from RDP clients.".to_owned()
    } else if same_text(name, CONNECTIONS_ACTIVE) {
        "Currently active RDP connections.".to_owned()
    } else if same_text(name, CONNECTIONS_TOTAL) {
        "Total RDP connections since server start.".to_owned()
    } else if same_text(name, CONNECTION_ERRORS) {
        "Total connection errors.".to_owned()
    } else if same_text(name, EGFX_QUEUE_DEPTH) {
        "EGFX frame acknowledgement queue depth.".to_owned()
    } else if same_text(name, EGFX_FRAME_ACKS) {
        "Total EGFX frame acknowledgements received.".to_owned()
    } else if same_text(name, CLIENT_DECODE_RENDER_US) {
        "Client-reported decode+render time in microseconds.".to_owned()
    } else if same_text(name, ENCODER_FPS) {
        "Current encoder frames per second.".to_owned()
    } else if same_text(name, ENCODER_BITRATE_KBPS) {
        "Current encoder bitrate in kbps.".to_owned()
    } else if same_text(name, ENCODE_DURATION_MS) {
        "Encoding duration per frame in milliseconds.".to_owned()
    } else {
        humanize(name)
    }
}

/// Names without spaces are told apart by their words.
pub proof fn lemma_words_tell_names_apart(a: Seq<char>, b: Seq<char>)
    requires
        !a.contains(' '),
        !b.contains(' '),
        humanized(a) == humanized(b),
    ensures
        a == b,
{
    assert(a.len() == humanized(a).len() - 1);
    assert(b.len() == humanized(b).len() - 1);
    assert forall|i: int| 0 <= i < a.len() implies a[i] == b[i] by {
        assert(a.contains(a[i]) && b.contains(b[i]));
        assert(humanized(a)[i] == spaced(a)[i]);
        assert(humanized(b)[i] == spaced(b)[i]);
    }
    assert(a =~= b);
}

/// A metric whose value is a text already.
#[derive(Clone, Debug, PartialEq, Eq)]
pub struct TextMetric {
    pub name: String,
    pub value: String,
}

/// A histogram's summary; its numbers are texts already.
#[derive(Clone, Debug, PartialEq, Eq)]
pub struct SummaryMetric {
    pub name: String,
    pub count: u64,
    pub sum: String,
    pub p50: String,
    pub p95: String,
    pub p99: String,
}

/// The two lines that introduce a metric.
pub open spec fn metadata_lines(name: Seq<char>, kind: Seq<char>) -> Seq<char> {
    "# HELP "@ + namespaced(name) + " "@ + help_text(name) + "\n# TYPE "@ + namespaced(name) + " "@
        + kind + "\n"@
}

/// A metric with a single value.
pub open spec fn value_block(name: Seq<char>, kind: Seq<char>, value: Seq<char>) -> Seq<char> {
    metadata_lines(name, kind) + namespaced(name) + " "@ + value + "\n\n"@
}

/// A histogram's summary.
pub open spec fn summary_block(metric: SummaryMetric) -> Seq<char> {
    let name = namespaced(metric.name@);
    metadata_lines(metric.name@, "summary"@) + name + "_count "@ + decimal(metric.count as nat)
        + "\n"@ + name + "_sum "@ + metric.sum@ + "\n"@ + name + "{quantile=\"0.5\"} "@ + metric.p50@
        + "\n"@ + name + "{quantile=\"0.95\"} "@ + metric.p95@ + "\n"@ + name
        + "{quantile=\"0.99\"} "@ + metric.p99@ + "\n\n"@
}

/// How long the server has been up.
pub open spec fn uptime_block(seconds: u64) -> Seq<char> {
    "# HELP lamco_rdp_uptime_seconds Time since server started.\n# TYPE lamco_rdp_uptime_seconds gauge\nlamco_rdp_uptime_seconds "@
        + decimal(seconds as nat) + "\n\n"@
}

/// The first `count` counters.
pub open spec fn counter_blocks(
    names: Seq<Seq<char>>,
    values: Map<Seq<char>, u64>,
    count: int,
) -> Seq<char>
    decreases count,
{
    if count <= 0 {
        seq![]
    } else {
        counter_blocks(names, values, count - 1) + value_block(
            names[count - 1],
            "counter"@,
            decimal(values[names[count - 1]] as nat),
        )
    }
}

/// The first `count` gauges.
pub open spec fn gauge_blocks(gauges: Seq<TextMetric>, count: int) -> Seq<char>
    decreases count,
{
    if count <= 0 {
        seq![]
    } else {
        gauge_blocks(gauges, count - 1) + value_block(
            gauges[count - 1].name@,
            "gauge"@,
            gauges[count - 1].value@,
        )
    }
}

/// The first `count` summaries.
pub open spec fn summary_blocks(summaries: Seq<SummaryMetric>, count: int) -> Seq<char>
    decreases count,
{
    if count <= 0 {
        seq![]
    } else {
        summary_blocks(summaries, count - 1) + summary_block(summaries[count - 1])
    }
}

/// Everything that is exported, in order.
pub open spec fn exported_text(
    names: Seq<Seq<char>>,
    values: Map<Seq<char>, u64>,
    uptime_seconds: u64,
    gauges: Seq<TextMetric>,
    summaries: Seq<SummaryMetric>,
) -> Seq<char> {
    uptime_block(uptime_seconds) + counter_blocks(names, values, names.len() as int) + gauge_blocks(
        gauges,
        gauges.len() as int,
    ) + summary_blocks(summaries, summaries.len() as int)
}

proof fn lemma_counter_block_occurs(
    names: Seq<Seq<char>>,
    values: Map<Seq<char>, u64>,
    count: int,
    i: int,
)
    requires
        0 <= i < count <= names.len(),
    ensures
        occurs(
            counter_blocks(names, values, count),
            value_block(names[i], "counter"@, decimal(values[names[i]] as nat)),
        ),
    decreases count,
{
    let earlier = counter_blocks(names, values, count - 1);
    let own = value_block(names[i], "counter"@, decimal(values[names[i]] as nat));
    let last = value_block(
        names[count - 1],
        "counter"@,
        decimal(values[names[count - 1]] as nat),
    );
    let none: Seq<char> = seq![];
    assert(earlier + last =~= none + earlier + last);
    assert(earlier + last =~= earlier + last + none);
    lemma_parts_occur(none, earlier, last);
    lemma_parts_occur(earlier, last, none);
    if i < count - 1 {
        lemma_counter_block_occurs(names, values, count - 1, i);
        lemma_occurs_in_a_part(earlier + last, earlier, own);
    }
}

proof fn lemma_gauge_block_occurs(gauges: Seq<TextMetric>, count: int, i: int)
    requires
        0 <= i < count <= gauges.len(),
    ensures
        occurs(
            gauge_blocks(gauges, count),
            value_block(gauges[i].name@, "gauge"@, gauges[i].value@),
        ),
    decreases count,
{
    let earlier = gauge_blocks(gauges, count - 1);
    let own = value_block(gauges[i].name@, "gauge"@, gauges[i].value@);
    let last = value_block(gauges[count - 1].name@, "gauge"@, gauges[count - 1].value@);
    let none: Seq<char> = seq![];
    assert(earlier + last =~= none + earlier + last);
    assert(earlier + last =~= earlier + last + none);
    lemma_parts_occur(none, earlier, last);
    lemma_parts_occur(earlier, last, none);
    if i < count - 1 {
        lemma_gauge_block_occurs(gauges, count - 1, i);
        lemma_occurs_in_a_part(earlier + last, earlier, own);
    }
}

proof fn lemma_summary_block_occurs(summaries: Seq<SummaryMetric>, count: int, i: int)
    requires
        0 <= i < count <= summaries.len(),
    ensures
        occurs(summary_blocks(summaries, count), summary_block(summaries[i])),
    decreases count,
{
    let earlier = summary_blocks(summaries, count - 1);
    let own = summary_block(summaries[i]);
    let last = summary_block(summaries[count - 1]);
    let none: Seq<char> = seq![];
    assert(earlier + last =~= none + earlier + last);
    assert(earlier + last =~= earlier + last + none);
    lemma_parts_occur(none, earlier, last);
    lemma_parts_occur(earlier, last, none);
    if i < count - 1 {
        lemma_summary_block_occurs(summaries, count - 1, i);
        lemma_occurs_in_a_part(earlier + last, earlier, own);
    }
}

proof fn lemma_sections_occur(
    names: Seq<Seq<char>>,
    values: Map<Seq<char>, u64>,
    uptime_seconds: u64,
    gauges: Seq<TextMetric>,
    summaries: Seq<SummaryMetric>,
)
    ensures
        ({
            let text = exported_text(names, values, uptime_seconds, gauges, summaries);
            &&& occurs(text, uptime_block(uptime_seconds))
            &&& occurs(text, counter_blocks(names, values, names.len() as int))
            &&& occurs(text, gauge_blocks(gauges, gauges.len() as int))
            &&& occurs(text, summary_blocks(summaries, summaries.len() as int))
        }),
{
    let text = exported_text(names, values, uptime_seconds, gauges, summaries);
    let a = uptime_block(uptime_seconds);
    let b = counter_blocks(names, values, names.len() as int);
    let c = gauge_blocks(gauges, gauges.len() as int);
    let d = summary_blocks(summaries, summaries.len() as int);
    let none: Seq<char> = seq![];
    assert(text =~= none + a + (b + c + d));
    assert(text =~= a + b + (c + d));
    assert(text =~= (a + b) + c + d);
    assert(text =~= (a + b + c) + d + none);
    lemma_parts_occur(none, a, b + c + d);
    lemma_parts_occur(a, b, c + d);
    lemma_parts_occur(a + b, c, d);
    lemma_parts_occur(a + b + c, d, none);
}

/// The line with the value of a metric stands in its block, and so do the two lines
/// that say what it is.
pub proof fn lemma_a_metric_has_its_lines(name: Seq<char>, kind: Seq<char>, value: Seq<char>)
    ensures
        occurs(
            value_block(name, kind, value),
            "\n"@ + namespaced(name) + " "@ + value + "\n"@,
        ),
        occurs(
            value_block(name, kind, value),
            "# HELP "@ + namespaced(name) + " "@ + help_text(name) + "\n"@,
        ),
        occurs(
            value_block(name, kind, value),
            "\n# TYPE "@ + namespaced(name) + " "@ + kind + "\n"@,
        ),
{
    let full = namespaced(name);
    let help = "# HELP "@ + full + " "@ + help_text(name);
    let kinds = "\n# TYPE "@ + full + " "@ + kind;
    let line = "\n"@ + full + " "@ + value;
    let end = "\n\n"@;
    lemma_line_breaks();
    lemma_join(help, "\n# TYPE "@, full, " "@, kind);
    lemma_join(help + kinds, "\n"@, full, " "@, value);
    assert(value_block(name, kind, value) == help + kinds + line + end);
    lemma_lines_at_the_start(help, kinds);
    lemma_line_in_lines(help, kinds, line);
    lemma_line_in_lines(help + kinds, line, end);
    lemma_occurs_stays(help + kinds, line, help + "\n"@);
    lemma_occurs_stays(help + kinds + line, end, help + "\n"@);
    lemma_occurs_stays(help + kinds + line, end, kinds + "\n"@);
}

/// How long the server is up is exported, on a line of its own.
pub proof fn lemma_uptime_is_exported(
    names: Seq<Seq<char>>,
    values: Map<Seq<char>, u64>,
    uptime_seconds: u64,
    gauges: Seq<TextMetric>,
    summaries: Seq<SummaryMetric>,
)
    ensures
        occurs(
            exported_text(names, values, uptime_seconds, gauges, summaries),
            "\nlamco_rdp_uptime_seconds "@ + decimal(uptime_seconds as nat) + "\n"@,
        ),
{
    lemma_line_breaks();
    lemma_uptime_heading();
    lemma_sections_occur(names, values, uptime_seconds, gauges, summaries);
    let block = uptime_block(uptime_seconds);
    let heading =
        "# HELP lamco_rdp_uptime_seconds Time since server started.\n# TYPE lamco_rdp_uptime_seconds gauge"@;
    let name = "\nlamco_rdp_uptime_seconds "@;
    let digits = decimal(uptime_seconds as nat);
    assert(heading + name + digits =~= heading + (name + digits));
    lemma_line_in_lines(heading, name + digits, "\n\n"@);
    lemma_occurs_in_a_part(
        exported_text(names, values, uptime_seconds, gauges, summaries),
        block,
        name + digits + "\n"@,
    );
}

proof fn lemma_uptime_heading()
    ensures
        "# HELP lamco_rdp_uptime_seconds Time since server started.\n# TYPE lamco_rdp_uptime_seconds gauge\nlamco_rdp_uptime_seconds "@
            == "# HELP lamco_rdp_uptime_seconds Time since server started.\n# TYPE lamco_rdp_uptime_seconds gauge"@
            + "\nlamco_rdp_uptime_seconds "@,
{
    reveal_strlit("\nlamco_rdp_uptime_seconds ");
    reveal_strlit(
        "# HELP lamco_rdp_uptime_seconds Time since server started.\n# TYPE lamco_rdp_uptime_seconds gauge",
    );
    reveal_strlit(
        "# HELP lamco_rdp_uptime_seconds Time since server started.\n# TYPE lamco_rdp_uptime_seconds gauge\nlamco_rdp_uptime_seconds ",
    );
    assert("# HELP lamco_rdp_uptime_seconds Time since server started.\n# TYPE lamco_rdp_uptime_seconds gauge\nlamco_rdp_uptime_seconds "@
        =~= "# HELP lamco_rdp_uptime_seconds Time since server started.\n# TYPE lamco_rdp_uptime_seconds gauge"@
        + "\nlamco_rdp_uptime_seconds "@);
}

/// Every counter is exported with its own value: its name in the namespace, a space and
/// the digits of the value, on a line of their own; and with the line of its type.
pub proof fn lemma_every_counter_is_exported(
    names: Seq<Seq<char>>,
    values: Map<Seq<char>, u64>,
    uptime_seconds: u64,
    gauges: Seq<TextMetric>,
    summaries: Seq<SummaryMetric>,
    name: Seq<char>,
)
    requires
        names.contains(name),
    ensures
        occurs(
            exported_text(names, values, uptime_seconds, gauges, summaries),
            "\n"@ + namespaced(name) + " "@ + decimal(values[name] as nat) + "\n"@,
        ),
        occurs(
            exported_text(names, values, uptime_seconds, gauges, summaries),
            "\n# TYPE "@ + namespaced(name) + " "@ + "counter"@ + "\n"@,
        ),
        occurs(
            exported_text(names, values, uptime_seconds, gauges, summaries),
            "# HELP "@ + namespaced(name) + " "@ + help_text(name) + "\n"@,
        ),
{
    let text = exported_text(names, values, uptime_seconds, gauges, summaries);
    let blocks = counter_blocks(names, values, names.len() as int);
    let i = choose|i: int| 0 <= i < names.len() && names[i] == name;
    let block = value_block(name, "counter"@, decimal(values[name] as nat));
    lemma_sections_occur(names, values, uptime_seconds, gauges, summaries);
    lemma_counter_block_occurs(names, values, names.len() as int, i);
    lemma_a_metric_has_its_lines(name, "counter"@, decimal(values[name] as nat));
    lemma_occurs_in_a_part(text, blocks, block);
    lemma_occurs_in_a_part(
        text,
        block,
        "\n"@ + namespaced(name) + " "@ + decimal(values[name] as nat) + "\n"@,
    );
    lemma_occurs_in_a_part(text, block, "\n# TYPE "@ + namespaced(name) + " "@ + "counter"@ + "\n"@);
    lemma_occurs_in_a_part(
        text,
        block,
        "# HELP "@ + namespaced(name) + " "@ + help_text(name) + "\n"@,
    );
}

/// Every gauge is exported with its own value and the line of its type.
pub proof fn lemma_every_gauge_is_exported(
    names: Seq<Seq<char>>,
    values: Map<Seq<char>, u64>,
    uptime_seconds: u64,
    gauges: Seq<TextMetric>,
    summaries: Seq<SummaryMetric>,
    i: int,
)
    requires
        0 <= i < gauges.len(),
    ensures
        occurs(
            exported_text(names, values, uptime_seconds, gauges, summaries),
            "\n"@ + namespaced(gauges[i].name@) + " "@ + gauges[i].value@ + "\n"@,
        ),
        occurs(
            exported_text(names, values, uptime_seconds, gauges, summaries),
            "\n# TYPE "@ + namespaced(gauges[i].name@) + " "@ + "gauge"@ + "\n"@,
        ),
{
    let text = exported_text(names, values, uptime_seconds, gauges, summaries);
    let name = gauges[i].name@;
    let value = gauges[i].value@;
    let block = value_block(name, "gauge"@, value);
    lemma_sections_occur(names, values, uptime_seconds, gauges, summaries);
    lemma_gauge_block_occurs(gauges, gauges.len() as int, i);
    lemma_a_metric_has_its_lines(name, "gauge"@, value);
    lemma_occurs_in_a_part(text, gauge_blocks(gauges, gauges.len() as int), block);
    lemma_occurs_in_a_part(text, block, "\n"@ + namespaced(name) + " "@ + value + "\n"@);
    lemma_occurs_in_a_part(text, block, "\n# TYPE "@ + namespaced(name) + " "@ + "gauge"@ + "\n"@);
}

/// Every summary is exported with its count, its sum and its three quantiles, each on a
/// line of its own.
pub proof fn lemma_every_summary_is_exported(
    names: Seq<Seq<char>>,
    values: Map<Seq<char>, u64>,
    uptime_seconds: u64,
    gauges: Seq<TextMetric>,
    summaries: Seq<SummaryMetric>,
    i: int,
)
    requires
        0 <= i < summaries.len(),
    ensures
        ({
            let text = exported_text(names, values, uptime_seconds, gauges, summaries);
            let name = "\n"@ + namespaced(summaries[i].name@);
            &&& occurs(text, name + "_count "@ + decimal(summaries[i].count as nat) + "\n"@)
            &&& occurs(text, name + "_sum "@ + summaries[i].sum@ + "\n"@)
            &&& occurs(text, name + "{quantile=\"0.5\"} "@ + summaries[i].p50@ + "\n"@)
            &&& occurs(text, name + "{quantile=\"0.95\"} "@ + summaries[i].p95@ + "\n"@)
            &&& occurs(text, name + "{quantile=\"0.99\"} "@ + summaries[i].p99@ + "\n"@)
            &&& occurs(
                text,
                "\n# TYPE "@ + namespaced(summaries[i].name@) + " "@ + "summary"@ + "\n"@,
            )
        }),
{
    let text = exported_text(names, values, uptime_seconds, gauges, summaries);
    let blocks = summary_blocks(summaries, summaries.len() as int);
    let block = summary_block(summaries[i]);
    lemma_sections_occur(names, values, uptime_seconds, gauges, summaries);
    lemma_summary_block_occurs(summaries, summaries.len() as int, i);
    lemma_occurs_in_a_part(text, blocks, block);
    lemma_a_summary_has_its_lines(summaries[i]);
    let name = "\n"@ + namespaced(summaries[i].name@);
    lemma_occurs_in_a_part(
        text,
        block,
        name + "_count "@ + decimal(summaries[i].count as nat) + "\n"@,
    );
    lemma_occurs_in_a_part(text, block, name + "_sum "@ + summaries[i].sum@ + "\n"@);
    lemma_occurs_in_a_part(text, block, name + "{quantile=\"0.5\"} "@ + summaries[i].p50@ + "\n"@);
    lemma_occurs_in_a_part(text, block, name + "{quantile=\"0.95\"} "@ + summaries[i].p95@ + "\n"@);
    lemma_occurs_in_a_part(text, block, name + "{quantile=\"0.99\"} "@ + summaries[i].p99@ + "\n"@);
    lemma_occurs_in_a_part(
        text,
        block,
        "\n# TYPE "@ + namespaced(summaries[i].name@) + " "@ + "summary"@ + "\n"@,
    );
}

proof fn lemma_a_summary_has_its_lines(metric: SummaryMetric)
    ensures
        ({
            let block = summary_block(metric);
            let name = "\n"@ + namespaced(metric.name@);
            &&& occurs(block, name + "_count "@ + decimal(metric.count as nat) + "\n"@)
            &&& occurs(block, name + "_sum "@ + metric.sum@ + "\n"@)
            &&& occurs(block, name + "{quantile=\"0.5\"} "@ + metric.p50@ + "\n"@)
            &&& occurs(block, name + "{quantile=\"0.95\"} "@ + metric.p95@ + "\n"@)
            &&& occurs(block, name + "{quantile=\"0.99\"} "@ + metric.p99@ + "\n"@)
            &&& occurs(
                block,
                "\n# TYPE "@ + namespaced(metric.name@) + " "@ + "summary"@ + "\n"@,
            )
        }),
{
    let full = namespaced(metric.name@);
    let number = decimal(metric.count as nat);
    let end = "\n\n"@;
    let help = "# HELP "@ + full + " "@ + help_text(metric.name@);
    let kind = "\n# TYPE "@ + full + " "@ + "summary"@;
    let count = "\n"@ + full + "_count "@ + number;
    let sum = "\n"@ + full + "_sum "@ + metric.sum@;
    let p50 = "\n"@ + full + "{quantile=\"0.5\"} "@ + metric.p50@;
    let p95 = "\n"@ + full + "{quantile=\"0.95\"} "@ + metric.p95@;
    let p99 = "\n"@ + full + "{quantile=\"0.99\"} "@ + metric.p99@;
    lemma_line_breaks();
    let a = help + kind;
    let b = a + count;
    let c = b + sum;
    let d = c + p50;
    let e = d + p95;
    let f = e + p99;
    lemma_join(help, "\n# TYPE "@, full, " "@, "summary"@);
    lemma_join(a, "\n"@, full, "_count "@, number);
    lemma_join(b, "\n"@, full, "_sum "@, metric.sum@);
    lemma_join(c, "\n"@, full, "{quantile=\"0.5\"} "@, metric.p50@);
    lemma_join(d, "\n"@, full, "{quantile=\"0.95\"} "@, metric.p95@);
    lemma_join(e, "\n"@, full, "{quantile=\"0.99\"} "@, metric.p99@);
    assert(summary_block(metric) == f + end);
    lemma_line_in_lines(help, kind, count);
    lemma_line_in_lines(a, count, sum);
    lemma_line_in_lines(b, sum, p50);
    lemma_line_in_lines(c, p50, p95);
    lemma_line_in_lines(d, p95, p99);
    lemma_line_in_lines(e, p99, end);
    let nl = "\n"@;
    lemma_occurs_stays(b, sum, kind + nl);
    lemma_occurs_stays(c, p50, kind + nl);
    lemma_occurs_stays(d, p95, kind + nl);
    lemma_occurs_stays(e, p99, kind + nl);
    lemma_occurs_stays(f, end, kind + nl);
    lemma_occurs_stays(c, p50, count + nl);
    lemma_occurs_stays(d, p95, count + nl);
    lemma_occurs_stays(e, p99, count + nl);
    lemma_occurs_stays(f, end, count + nl);
    lemma_occurs_stays(d, p95, sum + nl);
    lemma_occurs_stays(e, p99, sum + nl);
    lemma_occurs_stays(f, end, sum + nl);
    lemma_occurs_stays(e, p99, p50 + nl);
    lemma_occurs_stays(f, end, p50 + nl);
    lemma_occurs_stays(f, end, p95 + nl);
}

proof fn lemma_line_breaks()
    ensures
        "\n"@ == seq!['\n'],
        "\n\n"@ == seq!['\n', '\n'],
        "\n# TYPE "@.len() > 0,
        "\n# TYPE "@[0] == '\n',
{
    reveal_strlit("\n");
    reveal_strlit("\n\n");
    reveal_strlit("\n# TYPE ");
    assert("\n"@ =~= seq!['\n']);
    assert("\n\n"@ =~= seq!['\n', '\n']);
}

proof fn lemma_join(
    start: Seq<char>,
    a: Seq<char>,
    b: Seq<char>,
    c: Seq<char>,
    d: Seq<char>,
)
    ensures
        start + a + b + c + d == start + (a + b + c + d),
{
    assert(start + a + b + c + d =~= start + (a + b + c + d));
}

proof fn lemma_occurs_stays(text: Seq<char>, more: Seq<char>, part: Seq<char>)
    requires
        occurs(text, part),
    ensures
        occurs(text + more, part),
{
    let none: Seq<char> = seq![];
    assert(text + more =~= none + text + more);
    lemma_parts_occur(none, text, more);
    lemma_occurs_in_a_part(text + more, text, part);
}

proof fn lemma_lines_at_the_start(line: Seq<char>, after: Seq<char>)
    requires
        after.len() > 0,
        after[0] == '\n',
    ensures
        occurs(line + after, line + "\n"@),
{
    let none: Seq<char> = seq![];
    lemma_line_in_lines(none, line, after);
    assert(none + line + after =~= line + after);
}

/// A line ends where the next one begins.
proof fn lemma_line_in_lines(before: Seq<char>, line: Seq<char>, after: Seq<char>)
    requires
        after.len() > 0,
        after[0] == '\n',
    ensures
        occurs(before + line + after, line + "\n"@),
{
    reveal_strlit("\n");
    assert(before + line + after =~= before + (line + "\n"@) + after.skip(1));
    lemma_parts_occur(before, line + "\n"@, after.skip(1));
}

/// A name gets the namespace where it lacks it, and stays readable behind it.
pub proof fn lemma_names_are_found_in_the_namespace(name: Seq<char>, rest: Seq<char>)
    ensures
        namespaced("lamco_rdp_"@ + rest) == "lamco_rdp_"@ + rest,
        !"lamco_rdp_"@.is_prefix_of(name) ==> namespaced(name) == "lamco_rdp_"@ + name,
        namespaced(name).skip(namespaced(name).len() - name.len()) == name,
{
    assert(("lamco_rdp_"@ + rest).subrange(0, "lamco_rdp_"@.len() as int) =~= "lamco_rdp_"@);
    let full = namespaced(name);
    assert(full.skip(full.len() - name.len()) =~= name);
}

/// The words of a name are the name, with spaces where it has underscores and a full
/// stop at the end.
pub proof fn lemma_words_follow_the_name(name: Seq<char>, i: int)
    requires
        0 <= i < name.len(),
    ensures
        humanized(name).len() == name.len() + 1,
        humanized(name).last() == '.',
        name[i] == '_' ==> humanized(name)[i] == ' ',
        name[i] != '_' ==> humanized(name)[i] == name[i],
{
}

fn write_metadata(name: &str, kind: &str) -> (text: String)
    ensures
        text@ == metadata_lines(name@, kind@),
{
    let full: String = namespace_metric(name);
    let mut text: String = "# HELP ".to_owned();
    text.append(full.as_str());
    text.append(" ");
    let help: String = metric_help(name);
    text.append(help.as_str());
    text.append("\n# TYPE ");
    text.append(full.as_str());
    text.append(" ");
    text.append(kind);
    text.append("\n");
    text
}

fn write_value(name: &str, kind: &str, value: &str) -> (text: String)
    ensures
        text@ == value_block(name@, kind@, value@),
{
    let full: String = namespace_metric(name);
    let mut text: String = write_metadata(name, kind);
    text.append(full.as_str());
    text.append(" ");
    text.append(value);
    text.append("\n\n");
    text
}

fn write_summary(metric: &SummaryMetric) -> (text: String)
    ensures
        text@ == summary_block(*metric),
{
    let full: String = namespace_metric(metric.name.as_str());
    let count: String = to_decimal(metric.count);
    let mut text: String = write_metadata(metric.name.as_str(), "summary");
    text.append(full.as_str());
    text.append("_count ");
    text.append(count.as_str());
    text.append("\n");
    text.append(full.as_str());
    text.append("_sum ");
    text.append(metric.sum.as_str());
    text.append("\n");
    text.append(full.as_str());
    text.append("{quantile=\"0.5\"} ");
    text.append(metric.p50.as_str());
    text.append("\n");
    text.append(full.as_str());
    text.append("{quantile=\"0.95\"} ");
    text.append(metric.p95.as_str());
    text.append("\n");
    text.append(full.as_str());
    text.append("{quantile=\"0.99\"} ");
    text.append(metric.p99.as_str());
    text.append("\n\n");
    text
}

// ---------------------------------------------------------------------------
// Timer
// ---------------------------------------------------------------------------

/// Measures from a moment on. Moments are nanoseconds of the caller's steady clock.
#[derive(Clone, Copy, Debug)]
pub struct Timer {
    start: u128,
}

impl Timer {
    pub closed spec fn start(&self) -> u128 {
        self.start
    }

    /// Starts to measure.
    pub fn new(now: u128) -> (timer: Self)
        ensures
            timer.start() == now,
    {
        Timer { start: now }
    }

    /// Nanoseconds since the start, as 64 bits.
    pub fn elapsed_ns(&self, now: u128) -> (elapsed: u64)
        ensures
            elapsed == if now > self.start() {
                (now - self.start()) % 0x1_0000_0000_0000_0000
            } else {
                0
            },
    {
        if now > self.start {
            ((now - self.start) % 0x1_0000_0000_0000_0000) as u64
        } else {
            0
        }
    }
}

// ---------------------------------------------------------------------------
// Laws of the collector
// ---------------------------------------------------------------------------

/// A window holds the end of a history, unchanged and in order: all of it, or the last
/// `count` samples.
pub proof fn lemma_windows_hold_the_end_of_a_history(history: Seq<u64>, count: int, i: int)
    requires
        0 <= count,
        0 <= i < most_recent(history, count).len(),
    ensures
        most_recent(history, count).len() == if history.len() <= count {
            history.len() as int
        } else {
            count
        },
        most_recent(history, count)[i] == history[history.len() - most_recent(
            history,
            count,
        ).len() + i],
{
}

/// A counter that was never used stands at zero, one that is set stands at its value,
/// and the other counters do not change.
pub proof fn lemma_counters_stand_on_their_own(
    counters: Map<Seq<char>, u64>,
    name: Seq<char>,
    other: Seq<char>,
    value: u64,
)
    ensures
        counter_value(counters.insert(name, value), name) == value,
        other != name ==> counter_value(counters.insert(name, value), other) == counter_value(
            counters,
            other,
        ),
        !counters.contains_key(name) ==> counter_value(counters, name) == 0,
        counters.contains_key(name) ==> counter_value(counters, name) == counters[name],
{
}

/// A histogram that was never used is empty, and every other one shows what it holds.
pub proof fn lemma_histograms_stand_on_their_own(
    histograms: Map<Seq<char>, Histogram>,
    name: Seq<char>,
)
    ensures
        !histograms.contains_key(name) ==> samples_of(histograms, name).len() == 0 && total_of(
            histograms,
            name,
        ) == 0,
        histograms.contains_key(name) ==> samples_of(histograms, name)
            == histograms[name].samples() && total_of(histograms, name) == histograms[name].total(),
{
}

/// A window shows what its histogram holds: how many samples there ever were, and those that
/// are kept.
pub proof fn lemma_windows_show_their_histogram(
    window: HistogramWindow,
    histogram: Histogram,
    history: Seq<u64>,
)
    requires
        shows(window, histogram),
        histogram.remembers(history),
    ensures
        window.total_count == history.len(),
        history.len() <= 10_000 ==> window.samples@ == history,
        history.len() > 10_000 ==> window.samples@ == history.skip(history.len() - 10_000),
{
}

/// The metrics whose help is more than their name in words.
pub open spec fn explained_metrics() -> Seq<(Seq<char>, Seq<char>)> {
    seq![
        ("frames_received_total"@, "Total video frames received from PipeWire."@),
        ("frames_processed_total"@, "Total video frames successfully processed."@),
        ("frames_dropped_total"@, "Total video frames dropped."@),
        ("frame_processing_time_ms"@, "Frame processing time in milliseconds."@),
        ("conversions_total"@, "Total format conversions performed."@),
        ("conversion_time_ms"@, "Conversion time in milliseconds."@),
        ("frames_dispatched_total"@, "Total frames dispatched to RDP clients."@),
        ("frames_queued"@, "Current frames waiting in dispatch queue."@),
        ("bytes_sent_total"@, "Total bytes sent to RDP clients."@),
        ("bytes_received_total"@, "Total bytes received from RDP clients."@),
        ("connections_active"@, "Currently active RDP connections."@),
        ("connections_total"@, "Total RDP connections since server start."@),
        ("connection_errors_total"@, "Total connection errors."@),
        ("egfx_queue_depth"@, "EGFX frame acknowledgement queue depth."@),
        ("egfx_frame_acks_total"@, "Total EGFX frame acknowledgements received."@),
        ("client_decode_render_us"@, "Client-reported decode+render time in microseconds."@),
        ("encoder_fps"@, "Current encoder frames per second."@),
        ("encoder_bitrate_kbps"@, "Current encoder bitrate in kbps."@),
        ("encode_duration_ms"@, "Encoding duration per frame in milliseconds."@),
    ]
}

/// An explained metric is helped by its own explanation, and any other by its name in words.
pub proof fn lemma_help_is_of_the_metric(i: int, name: Seq<char>)
    requires
        0 <= i < explained_metrics().len(),
    ensures
        help_text(explained_metrics()[i].0) == explained_metrics()[i].1,
        (forall|k: int|
            0 <= k < explained_metrics().len() ==> (#[trigger] explained_metrics()[k]).0 != name)
            ==> help_text(name) == humanized(name),
{
    reveal_strlit("frames_received_total");
    reveal_strlit("frames_processed_total");
    reveal_strlit("frames_dropped_total");
    reveal_strlit("frame_processing_time_ms");
    reveal_strlit("conversions_total");
    reveal_strlit("conversion_time_ms");
    reveal_strlit("frames_dispatched_total");
    reveal_strlit("frames_queued");
    reveal_strlit("bytes_sent_total");
    reveal_strlit("bytes_received_total");
    reveal_strlit("connections_active");
    reveal_strlit("connections_total");
    reveal_strlit("connection_errors_total");
    reveal_strlit("egfx_queue_depth");
    reveal_strlit("egfx_frame_acks_total");
    reveal_strlit("client_decode_render_us");
    reveal_strlit("encoder_fps");
    reveal_strlit("encoder_bitrate_kbps");
    reveal_strlit("encode_duration_ms");
    assert("frames_received_total"@.len() == 21);
    assert("frames_processed_total"@.len() == 22);
    assert("frames_dropped_total"@.len() == 20);
    assert("frame_processing_time_ms"@.len() == 24);
    assert("conversions_total"@.len() == 17);
    assert("conversion_time_ms"@.len() == 18);
    assert("frames_dispatched_total"@.len() == 23);
    assert("frames_queued"@.len() == 13);
    assert("bytes_sent_total"@.len() == 16);
    assert("bytes_received_total"@.len() == 20);
    assert("connections_active"@.len() == 18);
    assert("connections_total"@.len() == 17);
    assert("connection_errors_total"@.len() == 23);
    assert("egfx_queue_depth"@.len() == 16);
    assert("egfx_frame_acks_total"@.len() == 21);
    assert("client_decode_render_us"@.len() == 23);
    assert("encoder_fps"@.len() == 11);
    assert("encoder_bitrate_kbps"@.len() == 20);
    assert("encode_duration_ms"@.len() == 18);
    assert("frames_received_total"@[0] == 'f');
    assert("egfx_frame_acks_total"@[0] == 'e');
    assert("frames_dropped_total"@[0] == 'f');
    assert("bytes_received_total"@[0] == 'b');
    assert("encoder_bitrate_kbps"@[0] == 'e');
    assert("conversions_total"@[3] == 'v');
    assert("connections_total"@[3] == 'n');
    assert("conversion_time_ms"@[0] == 'c');
    assert("connections_active"@[0] == 'c');
    assert("encode_duration_ms"@[0] == 'e');
    assert("conversion_time_ms"@[3] == 'v');
    assert("connections_active"@[3] == 'n');
    assert("encode_duration_ms"@[3] == 'o');
    assert("frames_dispatched_total"@[0] == 'f');
    assert("connection_errors_total"@[0] == 'c');
    assert("client_decode_render_us"@[0] == 'c');
    assert("frames_dispatched_total"@[1] == 'r');
    assert("connection_errors_total"@[1] == 'o');
    assert("client_decode_render_us"@[1] == 'l');
    assert("bytes_sent_total"@[0] == 'b');
    assert("egfx_queue_depth"@[0] == 'e');
    let all = explained_metrics();
    if forall|k: int| 0 <= k < all.len() ==> (#[trigger] all[k]).0 != name {
        assert(all[0].0 != name);
        assert(all[1].0 != name);
        assert(all[2].0 != name);
        assert(all[3].0 != name);
        assert(all[4].0 != name);
        assert(all[5].0 != name);
        assert(all[6].0 != name);
        assert(all[7].0 != name);
        assert(all[8].0 != name);
        assert(all[9].0 != name);
        assert(all[10].0 != name);
        assert(all[11].0 != name);
        assert(all[12].0 != name);
        assert(all[13].0 != name);
        assert(all[14].0 != name);
        assert(all[15].0 != name);
        assert(all[16].0 != name);
        assert(all[17].0 != name);
        assert(all[18].0 != name);
    }
}

} // verus!
