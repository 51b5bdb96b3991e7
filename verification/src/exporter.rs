//! The collection cycle: per-source bookkeeping, decoder dispatch, and the
//! exporter's own health metrics. The timer and the fetches live outside;
//! this module makes every decision between them.
use vstd::prelude::*;
use vstd::string::*;
use crate::decode::{decode, decoded_spec};
use crate::gauges::{counted_keys, leaf_text, prefixed_eligible, GaugeMap};
use crate::Format;

verus! {

/// `n + 1`, held at the top of the range instead of wrapping.
pub open spec fn sat_inc(n: u64) -> u64 {
    if n < u64::MAX {
        (n + 1) as u64
    } else {
        u64::MAX
    }
}

/// `n`, held at the top of the signed 64-bit range the instruments take.
pub open spec fn clamp_i64(n: u64) -> u64 {
    if n <= i64::MAX as u64 {
        n
    } else {
        i64::MAX as u64
    }
}

/// `a + b`, held at the top of the range instead of wrapping.
pub open spec fn sat_add(a: u64, b: u64) -> u64 {
    if a + b <= u64::MAX {
        (a + b) as u64
    } else {
        u64::MAX
    }
}

/// The exact sum of a cycle's per-source counts.
pub open spec fn count_sum(counts: Seq<u64>) -> int
    decreases counts.len(),
{
    if counts.len() == 0 {
        0
    } else {
        count_sum(counts.drop_last()) + counts.last()
    }
}

/// A cycle's running total: zero at `begin_cycle`, then one saturating add
/// per ingested source, as the collector accumulates it.
pub open spec fn cycle_fold(counts: Seq<u64>) -> u64
    decreases counts.len(),
{
    if counts.len() == 0 {
        0
    } else {
        sat_add(cycle_fold(counts.drop_last()), counts.last())
    }
}

/// Owns one `prometheus::IntGauge`; the gauge type's generics carry a
/// trait bound Verus cannot declare.
#[verifier::external_body]
pub struct IntGaugeHandle {
    g: prometheus::IntGauge,
}

/// Owns one `prometheus::IntCounter`; declared as the gauge handle is.
#[verifier::external_body]
pub struct IntCounterHandle {
    c: prometheus::IntCounter,
}

/// Relies on `prometheus::IntGauge::new`: a fresh unregistered gauge, or
/// nothing when the name or help text is rejected.
#[verifier::external_body]
fn new_int_gauge(name: &str, help: &str) -> (r: Option<IntGaugeHandle>) {
    match prometheus::IntGauge::new(name, help) {
        Ok(g) => Some(IntGaugeHandle { g }),
        Err(_) => None,
    }
}

/// Relies on `prometheus::IntCounter::new`: a fresh unregistered counter,
/// or nothing when the name or help text is rejected.
#[verifier::external_body]
fn new_int_counter(name: &str, help: &str) -> (r: Option<IntCounterHandle>) {
    match prometheus::IntCounter::new(name, help) {
        Ok(c) => Some(IntCounterHandle { c }),
        Err(_) => None,
    }
}

/// Relies on `prometheus::Registry::register`: whether the gauge was
/// accepted by the registry.
#[verifier::external_body]
fn register_int_gauge(registry: &prometheus::Registry, h: &IntGaugeHandle) -> (ok: bool) {
    registry.register(Box::new(h.g.clone())).is_ok()
}

/// Relies on `prometheus::Registry::register`: whether the counter was
/// accepted by the registry.
#[verifier::external_body]
fn register_int_counter(registry: &prometheus::Registry, h: &IntCounterHandle) -> (ok: bool) {
    registry.register(Box::new(h.c.clone())).is_ok()
}

/// Relies on `prometheus::IntGauge::set`.
#[verifier::external_body]
fn int_gauge_set(h: &IntGaugeHandle, v: i64) {
    h.g.set(v)
}

/// Relies on `prometheus::IntCounter::inc`.
#[verifier::external_body]
fn int_counter_inc(h: &IntCounterHandle) {
    h.c.inc()
}

/// The exporter's own health metrics: configured source count, cumulative
/// read attempts and failures, and the latest cycle's metric count. The
/// integer fields mirror, for the contracts, what the registered
/// instruments hold.
pub struct InternalMetrics {
    sources_total: IntGaugeHandle,
    source_reads_total: IntCounterHandle,
    source_read_failures_total: IntCounterHandle,
    metrics_total: IntGaugeHandle,
    reads: u64,
    read_failures: u64,
    published_sources: u64,
    published_total: u64,
}

impl InternalMetrics {
    /// Cumulative source read attempts recorded.
    pub closed spec fn attempts(&self) -> u64 {
        self.reads
    }

    /// Cumulative source read failures recorded.
    pub closed spec fn failures(&self) -> u64 {
        self.read_failures
    }

    /// The configured source count published to the sources gauge.
    pub closed spec fn published_sources(&self) -> u64 {
        self.published_sources
    }

    /// The cycle metric count last published to the metrics-total gauge.
    pub closed spec fn published_total(&self) -> u64 {
        self.published_total
    }

    /// Builds and registers the four health instruments; nothing when the
    /// registry refuses one, which the caller treats as a startup failure.
    pub fn new(registry: &prometheus::Registry, n_sources: usize) -> (r: Option<InternalMetrics>)
        ensures
            match r {
                Some(im) => im.attempts() == 0 && im.failures() == 0 && im.published_sources()
                    == clamp_i64(n_sources as u64) && im.published_total() == 0,
                None => true,
            },
    {
        let sources_total = match new_int_gauge(
            "epimetheus_sources_total",
            "Total number of file/url sources",
        ) {
            Some(h) => h,
            None => {
                return None;
            },
        };
        let source_reads_total = match new_int_counter(
            "epimetheus_source_reads_total",
            "Total number of source read attempts",
        ) {
            Some(h) => h,
            None => {
                return None;
            },
        };
        let source_read_failures_total = match new_int_counter(
            "epimetheus_source_read_failures_total",
            "Total number of source read failures",
        ) {
            Some(h) => h,
            None => {
                return None;
            },
        };
        let metrics_total = match new_int_gauge(
            "epimetheus_metrics_total",
            "Total number of metrics being tracked",
        ) {
            Some(h) => h,
            None => {
                return None;
            },
        };
        if !register_int_gauge(registry, &sources_total) {
            return None;
        }
        if !register_int_counter(registry, &source_reads_total) {
            return None;
        }
        if !register_int_counter(registry, &source_read_failures_total) {
            return None;
        }
        if !register_int_gauge(registry, &metrics_total) {
            return None;
        }
        let n = if n_sources as u64 <= i64::MAX as u64 {
            n_sources as i64
        } else {
            i64::MAX
        };
        int_gauge_set(&sources_total, n);
        Some(
            InternalMetrics {
                sources_total,
                source_reads_total,
                source_read_failures_total,
                metrics_total,
                reads: 0,
                read_failures: 0,
                published_sources: n as u64,
                published_total: 0,
            },
        )
    }
}

/// Drives one collection cycle after another: the caller owns the timer and
/// the fetches, and reports each source's outcome here in the configured
/// order.
pub struct Collector {
    gauges: GaugeMap,
    internal: InternalMetrics,
    registry: prometheus::Registry,
    ignore: Vec<String>,
    prefix: String,
    cycle_total: u64,
}

impl Collector {
    /// The gauge map holds one gauge per name.
    pub closed spec fn wf(&self) -> bool {
        self.gauges.wf()
    }

    /// The set of metric names with a registered gauge.
    pub closed spec fn gauge_names(&self) -> Set<Seq<char>> {
        self.gauges.names()
    }

    /// Cumulative source read attempts.
    pub closed spec fn attempts(&self) -> u64 {
        self.internal.attempts()
    }

    /// Cumulative source read failures.
    pub closed spec fn failures(&self) -> u64 {
        self.internal.failures()
    }

    /// Metric updates seen so far in the running cycle.
    pub closed spec fn cycle_total(&self) -> u64 {
        self.cycle_total
    }

    /// The configured ignore list.
    pub closed spec fn ignore_keys(&self) -> Seq<Seq<char>> {
        self.ignore.deep_view()
    }

    /// The configured metric name prefix.
    pub closed spec fn metric_prefix(&self) -> Seq<char> {
        self.prefix@
    }

    /// The configured source count published to the sources gauge.
    pub closed spec fn published_sources(&self) -> u64 {
        self.internal.published_sources()
    }

    /// The cycle metric count last published to the metrics-total gauge.
    pub closed spec fn published_total(&self) -> u64 {
        self.internal.published_total()
    }

    /// The text the gauge under `name` was last set from.
    pub closed spec fn gauge_value_text(&self, name: Seq<char>) -> Seq<char> {
        self.gauges.value_text(name)
    }

    /// Sets up the collector and its health instruments; nothing when the
    /// registry refuses an instrument, a startup failure.
    pub fn new(
        registry: prometheus::Registry,
        ignore: Vec<String>,
        prefix: String,
        n_sources: usize,
    ) -> (r: Option<Collector>)
        ensures
            match r {
                Some(c) => c.wf() && c.attempts() == 0 && c.failures() == 0 && c.cycle_total()
                    == 0 && c.gauge_names() == Set::<Seq<char>>::empty() && c.ignore_keys()
                    == ignore.deep_view() && c.metric_prefix() == prefix@
                    && c.published_sources() == clamp_i64(n_sources as u64)
                    && c.published_total() == 0,
                None => true,
            },
    {
        let internal = match InternalMetrics::new(&registry, n_sources) {
            Some(im) => im,
            None => {
                return None;
            },
        };
        Some(
            Collector {
                gauges: GaugeMap::new(),
                internal,
                registry,
                ignore,
                prefix,
                cycle_total: 0,
            },
        )
    }

    /// Enters a new collection cycle with a fresh metric count.
    pub fn begin_cycle(&mut self)
        requires
            old(self).wf(),
        ensures
            final(self).wf(),
            final(self).cycle_total() == 0,
            final(self).attempts() == old(self).attempts(),
            final(self).failures() == old(self).failures(),
            final(self).gauge_names() == old(self).gauge_names(),
            final(self).ignore_keys() == old(self).ignore_keys(),
            final(self).metric_prefix() == old(self).metric_prefix(),
            final(self).published_sources() == old(self).published_sources(),
            final(self).published_total() == old(self).published_total(),
    {
        self.cycle_total = 0;
    }

    /// Counts one source read attempt, before its outcome is known.
    pub fn record_attempt(&mut self)
        requires
            old(self).wf(),
        ensures
            final(self).wf(),
            final(self).attempts() == sat_inc(old(self).attempts()),
            final(self).failures() == old(self).failures(),
            final(self).cycle_total() == old(self).cycle_total(),
            final(self).gauge_names() == old(self).gauge_names(),
            final(self).ignore_keys() == old(self).ignore_keys(),
            final(self).metric_prefix() == old(self).metric_prefix(),
            final(self).published_sources() == old(self).published_sources(),
            final(self).published_total() == old(self).published_total(),
    {
        int_counter_inc(&self.internal.source_reads_total);
        if self.internal.reads < u64::MAX {
            self.internal.reads = self.internal.reads + 1;
        }
    }

    /// Counts one failed source read; the source contributes nothing this
    /// cycle and the cycle goes on with the next source.
    pub fn record_fetch_failure(&mut self)
        requires
            old(self).wf(),
        ensures
            final(self).wf(),
            final(self).failures() == sat_inc(old(self).failures()),
            final(self).attempts() == old(self).attempts(),
            final(self).cycle_total() == old(self).cycle_total(),
            final(self).gauge_names() == old(self).gauge_names(),
            final(self).ignore_keys() == old(self).ignore_keys(),
            final(self).metric_prefix() == old(self).metric_prefix(),
            final(self).published_sources() == old(self).published_sources(),
            final(self).published_total() == old(self).published_total(),
    {
        int_counter_inc(&self.internal.source_read_failures_total);
        if self.internal.read_failures < u64::MAX {
            self.internal.read_failures = self.internal.read_failures + 1;
        }
    }

    /// Decodes fetched content under its format tag and reconciles the
    /// resulting flat map into the gauge registry; content that does not
    /// decode, or an unknown tag, contributes zero.
    pub fn ingest(&mut self, content: &str, format: Format) -> (count: usize)
        requires
            old(self).wf(),
        ensures
            final(self).wf(),
            final(self).attempts() == old(self).attempts(),
            final(self).failures() == old(self).failures(),
            final(self).ignore_keys() == old(self).ignore_keys(),
            final(self).metric_prefix() == old(self).metric_prefix(),
            final(self).published_sources() == old(self).published_sources(),
            final(self).published_total() == old(self).published_total(),
            final(self).cycle_total() == sat_add(old(self).cycle_total(), count as u64),
            match decoded_spec(format, content@) {
                Some(m) => {
                    &&& old(self).gauge_names().subset_of(final(self).gauge_names())
                    &&& final(self).gauge_names().subset_of(
                        old(self).gauge_names().union(
                            prefixed_eligible(
                                m,
                                old(self).ignore_keys(),
                                old(self).metric_prefix(),
                            ),
                        ),
                    )
                    &&& count == counted_keys(
                        m,
                        old(self).ignore_keys(),
                        old(self).metric_prefix(),
                        final(self).gauge_names(),
                    ).len()
                    &&& forall|k: Seq<char>|
                        #[trigger] counted_keys(
                            m,
                            old(self).ignore_keys(),
                            old(self).metric_prefix(),
                            final(self).gauge_names(),
                        ).contains(k) ==> final(self).gauge_value_text(
                            old(self).metric_prefix() + k,
                        ) == leaf_text(m[k])
                },
                None => final(self).gauge_names() == old(self).gauge_names() && count == 0,
            },
    {
        let decoded = decode(content, format);
        let count: usize = match decoded {
            Some(fm) => {
                crate::gauges::reconcile(
                    &mut self.gauges,
                    &self.registry,
                    &fm,
                    &self.ignore,
                    self.prefix.as_str(),
                )
            },
            None => 0,
        };
        let c64 = count as u64;
        if self.cycle_total <= u64::MAX - c64 {
            self.cycle_total = self.cycle_total + c64;
        } else {
            self.cycle_total = u64::MAX;
        }
        count
    }

    /// Leaves the cycle: publishes the cycle's metric count to the
    /// metrics-total gauge, overwriting the previous cycle's value.
    pub fn end_cycle(&mut self)
        requires
            old(self).wf(),
        ensures
            final(self).wf(),
            final(self).published_total() == clamp_i64(old(self).cycle_total()),
            final(self).attempts() == old(self).attempts(),
            final(self).failures() == old(self).failures(),
            final(self).cycle_total() == old(self).cycle_total(),
            final(self).gauge_names() == old(self).gauge_names(),
            final(self).ignore_keys() == old(self).ignore_keys(),
            final(self).metric_prefix() == old(self).metric_prefix(),
            final(self).published_sources() == old(self).published_sources(),
    {
        let clamped = if self.cycle_total <= i64::MAX as u64 {
            self.cycle_total
        } else {
            i64::MAX as u64
        };
        int_gauge_set(&self.internal.metrics_total, clamped as i64);
        self.internal.published_total = clamped;
    }
}

} // verus!
