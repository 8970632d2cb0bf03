//! The registry of metrics and the metrics in it.

use prometheus_client::metrics::counter::Counter;
use prometheus_client::metrics::family::Family;
use prometheus_client::metrics::gauge::Gauge;
use prometheus_client::metrics::histogram::Histogram;
use prometheus_client::registry::Registry;
use vstd::prelude::*;

use crate::base::text::decimal;

verus! {

#[verifier::external_type_specification]
#[verifier::external_body]
pub struct ExRegistry(Registry);

#[verifier::external_type_specification]
#[verifier::external_body]
#[verifier::reject_recursive_types(N)]
#[verifier::reject_recursive_types(A)]
pub struct ExCounter<N, A>(Counter<N, A>);

#[verifier::external_type_specification]
#[verifier::external_body]
#[verifier::reject_recursive_types(N)]
#[verifier::reject_recursive_types(A)]
pub struct ExGauge<N, A>(Gauge<N, A>);

#[verifier::external_type_specification]
#[verifier::external_body]
pub struct ExHistogram(Histogram);

/// The labels of a metric: names and values.
pub type Labels = Vec<(String, String)>;

/// What labels say.
pub open spec fn label_texts(l: Seq<(String, String)>) -> Seq<(Seq<char>, Seq<char>)> {
    Seq::new(l.len(), |i: int| (l[i].0@, l[i].1@))
}

/// A counter for each set of labels.
#[verifier::external_body]
pub struct CounterFamily {
    family: Family<Labels, Counter>,
}

/// A gauge for each set of labels.
#[verifier::external_body]
pub struct GaugeFamily {
    family: Family<Labels, Gauge>,
}

/// A metric in a registry. All clones of a metric count as that metric: they
/// share one value.
pub enum Metric {
    Counter(Counter),
    Gauge(Gauge),
    Histogram(Histogram),
    CounterFamily(CounterFamily),
    GaugeFamily(GaugeFamily),
}

/// A metric with its name and its help text.
pub struct Registration {
    pub name: Seq<char>,
    pub help: Seq<char>,
    pub metric: Metric,
}

/// The registration of a counter.
pub open spec fn counter_entry(name: Seq<char>, help: Seq<char>, c: Counter) -> Registration {
    Registration { name, help, metric: Metric::Counter(c) }
}

/// The registration of a gauge.
pub open spec fn gauge_entry(name: Seq<char>, help: Seq<char>, g: Gauge) -> Registration {
    Registration { name, help, metric: Metric::Gauge(g) }
}

/// The registration of counters by labels.
pub open spec fn counters_entry(
    name: Seq<char>,
    help: Seq<char>,
    f: CounterFamily,
) -> Registration {
    Registration { name, help, metric: Metric::CounterFamily(f) }
}

/// The registration of gauges by labels.
pub open spec fn gauges_entry(name: Seq<char>, help: Seq<char>, f: GaugeFamily) -> Registration {
    Registration { name, help, metric: Metric::GaugeFamily(f) }
}

/// What a registry holds, oldest first.
pub uninterp spec fn registered(r: Registry) -> Seq<Registration>;

/// Whether a registry is made of metrics of the kinds above alone, without units:
/// it has no prefix and no labels for them, and no collectors or registries
/// below it.
pub uninterp spec fn is_flat(r: Registry) -> bool;

/// How the type of a metric is named.
pub open spec fn type_word(m: Metric) -> Seq<char> {
    match m {
        Metric::Counter(_) => "counter"@,
        Metric::Gauge(_) => "gauge"@,
        Metric::Histogram(_) => "histogram"@,
        Metric::CounterFamily(_) => "counter"@,
        Metric::GaugeFamily(_) => "gauge"@,
    }
}

/// The two lines that introduce a metric.
pub open spec fn descriptor_lines(e: Registration) -> Seq<char> {
    "# HELP "@ + e.name + " "@ + e.help + ".\n"@ + "# TYPE "@ + e.name + " "@ + type_word(e.metric)
        + "\n"@
}

/// The line of a counter that stands at `value`.
pub open spec fn counter_line(name: Seq<char>, value: u64) -> Seq<char> {
    name + "_total "@ + decimal(value as int) + "\n"@
}

/// The line of a gauge that stands at `value`.
pub open spec fn gauge_line(name: Seq<char>, value: i64) -> Seq<char> {
    name + " "@ + (if value < 0 {
        "-"@ + decimal(-value)
    } else {
        decimal(value as int)
    }) + "\n"@
}

/// Whether `text` begins with `start` and ends with a whole line.
pub open spec fn lines_from(start: Seq<char>, text: Seq<char>) -> bool {
    start.is_prefix_of(text) && text.last() == '\n'
}

/// Whether `text` can be the values of a metric at some time: one line for a
/// counter or a gauge, a line for each set of labels of a family, and the lines
/// of a histogram, its sum first.
pub open spec fn sampled(e: Registration, text: Seq<char>) -> bool {
    match e.metric {
        Metric::Counter(_) => exists|value: u64| text == #[trigger] counter_line(e.name, value),
        Metric::Gauge(_) => exists|value: i64| text == #[trigger] gauge_line(e.name, value),
        Metric::Histogram(_) => lines_from(e.name + "_sum "@, text),
        Metric::CounterFamily(_) => text.len() == 0 || lines_from(e.name + "_total{"@, text),
        Metric::GaugeFamily(_) => text.len() == 0 || lines_from(e.name + "{"@, text),
    }
}

/// Each metric with its values `samples`, in order.
pub open spec fn exposition(entries: Seq<Registration>, samples: Seq<Seq<char>>) -> Seq<char>
    decreases entries.len(),
{
    if entries.len() == 0 {
        Seq::empty()
    } else {
        exposition(entries.drop_last(), samples.drop_last()) + descriptor_lines(entries.last())
            + samples.last()
    }
}

/// Whether `text` shows just the metrics `entries`: each is introduced and
/// followed by its values, and an end mark comes last.
pub open spec fn exposes(text: Seq<char>, entries: Seq<Registration>) -> bool {
    exists|samples: Seq<Seq<char>>|
        samples.len() == entries.len() && (forall|i: int|
            0 <= i < entries.len() ==> sampled(entries[i], #[trigger] samples[i])) && text
            == #[trigger] exposition(entries, samples) + "# EOF\n"@
}

/// The counter that a family has for some labels.
pub uninterp spec fn family_counter(
    f: CounterFamily,
    labels: Seq<(Seq<char>, Seq<char>)>,
) -> Counter;

/// The gauge that a family has for some labels.
pub uninterp spec fn family_gauge(f: GaugeFamily, labels: Seq<(Seq<char>, Seq<char>)>) -> Gauge;

/// Calls `prometheus_client::registry::Registry::default`. Claims that the
/// registry is empty, and flat.
#[verifier::external_body]
pub(crate) fn registry_new() -> (r: Registry)
    ensures
        registered(r).len() == 0,
        is_flat(r),
{
    Registry::default()
}

/// Calls `prometheus_client::metrics::counter::Counter::default`. Claims that the
/// counter is a new one: none of those in the registry `r` is it. Its value is
/// shared by all clones, so nothing is claimed of it.
#[verifier::external_body]
fn counter_new(r: &Registry) -> (c: Counter)
    ensures
        forall|i: int|
            0 <= i < registered(*r).len() ==> (#[trigger] registered(*r)[i]).metric
                != Metric::Counter(c),
{
    Counter::default()
}

/// Calls `prometheus_client::metrics::gauge::Gauge::default`. Claims that the
/// gauge is a new one: none of those in the registry `r` is it. Its value is
/// shared by all clones, so nothing is claimed of it.
#[verifier::external_body]
fn gauge_new(r: &Registry) -> (g: Gauge)
    ensures
        forall|i: int|
            0 <= i < registered(*r).len() ==> (#[trigger] registered(*r)[i]).metric
                != Metric::Gauge(g),
{
    Gauge::default()
}

/// Calls `prometheus_client::registry::Registry::register` with a clone of a
/// counter. Claims that the counter goes to the end of the registry,
/// which stays flat if it was.
#[verifier::external_body]
fn register_counter(r: &mut Registry, name: &str, help: &str, c: &Counter)
    ensures
        registered(*final(r)) == registered(*old(r)).push(counter_entry(name@, help@, *c)),
        is_flat(*final(r)) == is_flat(*old(r)),
{
    r.register(name, help, c.clone());
}

/// Calls `prometheus_client::registry::Registry::register` with a clone of a
/// gauge. Claims that the gauge goes to the end of the registry,
/// which stays flat if it was.
#[verifier::external_body]
fn register_gauge(r: &mut Registry, name: &str, help: &str, g: &Gauge)
    ensures
        registered(*final(r)) == registered(*old(r)).push(gauge_entry(name@, help@, *g)),
        is_flat(*final(r)) == is_flat(*old(r)),
{
    r.register(name, help, g.clone());
}

/// Calls `prometheus_client::registry::Registry::register` with a clone of a
/// histogram. Claims that the histogram goes to the end of the registry,
/// which stays flat if it was.
#[verifier::external_body]
fn register_histogram(r: &mut Registry, name: &str, help: &str, h: &Histogram)
    ensures
        registered(*final(r)) == registered(*old(r)).push(
            (Registration { name: name@, help: help@, metric: Metric::Histogram(*h) }),
        ),
        is_flat(*final(r)) == is_flat(*old(r)),
{
    r.register(name, help, h.clone());
}

/// Calls `prometheus_client::encoding::text::encode`. Claims that the text of a
/// flat registry holds its metrics in order, each with its help text, its type
/// and its values, and ends with an end mark. The values are those at the time:
/// they change while other threads count, so which ones they are is left
/// unsaid, and so are the labels of families, in whatever order they come, and
/// the buckets of histograms.
#[verifier::external_body]
pub(crate) fn encode_text(r: &Registry) -> (text: String)
    ensures
        is_flat(*r) ==> exposes(text@, registered(*r)),
{
    let mut buf = String::new();
    prometheus_client::encoding::text::encode(&mut buf, r).unwrap();
    buf
}

impl CounterFamily {
    /// Calls `prometheus_client::metrics::family::Family::default`. Claims that
    /// the family is a new one: none of those in the registry `r` is it.
    #[verifier::external_body]
    fn new(r: &Registry) -> (f: CounterFamily)
        ensures
            forall|i: int|
                0 <= i < registered(*r).len() ==> (#[trigger] registered(*r)[i]).metric
                    != Metric::CounterFamily(f),
    {
        CounterFamily { family: Family::default() }
    }

    /// Calls `prometheus_client::registry::Registry::register` with a clone of
    /// the family. Claims that the family goes to the end of the registry,
    /// which stays flat if it was.
    #[verifier::external_body]
    fn register(&self, r: &mut Registry, name: &str, help: &str)
        ensures
            registered(*final(r)) == registered(*old(r)).push(counters_entry(name@, help@, *self)),
            is_flat(*final(r)) == is_flat(*old(r)),
    {
        r.register(name, help, self.family.clone());
    }

    /// Calls `prometheus_client::metrics::family::Family::get_or_create`.
    /// Claims that a family always has the same counter for the same labels.
    #[verifier::external_body]
    pub(crate) fn counter(&self, labels: &Labels) -> (c: Counter)
        ensures
            c == family_counter(*self, label_texts(labels@)),
    {
        self.family.get_or_create(labels).clone()
    }
}

impl GaugeFamily {
    /// Calls `prometheus_client::metrics::family::Family::default`. Claims that
    /// the family is a new one: none of those in the registry `r` is it.
    #[verifier::external_body]
    fn new(r: &Registry) -> (f: GaugeFamily)
        ensures
            forall|i: int|
                0 <= i < registered(*r).len() ==> (#[trigger] registered(*r)[i]).metric
                    != Metric::GaugeFamily(f),
    {
        GaugeFamily { family: Family::default() }
    }

    /// Calls `prometheus_client::registry::Registry::register` with a clone of
    /// the family. Claims that the family goes to the end of the registry,
    /// which stays flat if it was.
    #[verifier::external_body]
    fn register(&self, r: &mut Registry, name: &str, help: &str)
        ensures
            registered(*final(r)) == registered(*old(r)).push(gauges_entry(name@, help@, *self)),
            is_flat(*final(r)) == is_flat(*old(r)),
    {
        r.register(name, help, self.family.clone());
    }

    /// Calls `prometheus_client::metrics::family::Family::get_or_create`.
    /// Claims that a family always has the same gauge for the same labels.
    #[verifier::external_body]
    pub(crate) fn gauge(&self, labels: &Labels) -> (g: Gauge)
        ensures
            g == family_gauge(*self, label_texts(labels@)),
    {
        self.family.get_or_create(labels).clone()
    }
}

/// Whether no metric from index `from` on is the same as one before it.
/// Histograms are made by the caller, who may hand out one twice, and are left
/// out.
pub open spec fn apart(entries: Seq<Registration>, from: nat) -> bool {
    forall|i: int, j: int|
        #![trigger entries[i], entries[j]]
        0 <= i < j < entries.len() && from <= j && !(entries[j].metric is Histogram)
            ==> entries[i].metric != entries[j].metric
}

proof fn lemma_apart_push(entries: Seq<Registration>, e: Registration)
    requires
        e.metric is Histogram || forall|i: int|
            0 <= i < entries.len() ==> (#[trigger] entries[i]).metric != e.metric,
    ensures
        forall|from: nat| #[trigger] apart(entries, from) ==> apart(entries.push(e), from),
{
    let all = entries.push(e);
    assert forall|from: nat| #[trigger] apart(entries, from) implies apart(all, from) by {
        assert forall|i: int, j: int|
            #![trigger all[i], all[j]]
            0 <= i < j < all.len() && from <= j && !(all[j].metric is Histogram) implies
            all[i].metric != all[j].metric by {
            assert(all[i] == entries[i]);
            if j < entries.len() {
                assert(all[j] == entries[j]);
            }
        }
    }
}

/// What adding the entry `e` to a registry does: it comes last, and it is none
/// of the metrics that were there.
pub open spec fn adds(before: Registry, after: Registry, e: Registration) -> bool {
    &&& registered(after) == registered(before).push(e)
    &&& is_flat(after) == is_flat(before)
    &&& forall|from: nat| #[trigger]
        apart(registered(before), from) ==> apart(registered(after), from)
}

/// Adds a new counter to a registry.
pub(crate) fn add_counter(r: &mut Registry, name: &str, help: &str) -> (c: Counter)
    ensures
        adds(*old(r), *final(r), counter_entry(name@, help@, c)),
{
    let c = counter_new(r);
    proof {
        lemma_apart_push(registered(*r), counter_entry(name@, help@, c));
    }
    register_counter(r, name, help, &c);
    c
}

/// Adds a new gauge to a registry.
pub(crate) fn add_gauge(r: &mut Registry, name: &str, help: &str) -> (g: Gauge)
    ensures
        adds(*old(r), *final(r), gauge_entry(name@, help@, g)),
{
    let g = gauge_new(r);
    proof {
        lemma_apart_push(registered(*r), gauge_entry(name@, help@, g));
    }
    register_gauge(r, name, help, &g);
    g
}

/// Adds the caller's histogram to a registry.
pub(crate) fn add_histogram(r: &mut Registry, name: &str, help: &str, h: &Histogram)
    ensures
        adds(
            *old(r),
            *final(r),
            (Registration { name: name@, help: help@, metric: Metric::Histogram(*h) }),
        ),
{
    proof {
        lemma_apart_push(
            registered(*r),
            Registration { name: name@, help: help@, metric: Metric::Histogram(*h) },
        );
    }
    register_histogram(r, name, help, h);
}

/// Adds a new family of counters to a registry.
pub(crate) fn add_counters(r: &mut Registry, name: &str, help: &str) -> (f: CounterFamily)
    ensures
        adds(*old(r), *final(r), counters_entry(name@, help@, f)),
{
    let f = CounterFamily::new(r);
    proof {
        lemma_apart_push(registered(*r), counters_entry(name@, help@, f));
    }
    f.register(r, name, help);
    f
}

/// Adds a new family of gauges to a registry.
pub(crate) fn add_gauges(r: &mut Registry, name: &str, help: &str) -> (f: GaugeFamily)
    ensures
        adds(*old(r), *final(r), gauges_entry(name@, help@, f)),
{
    let f = GaugeFamily::new(r);
    proof {
        lemma_apart_push(registered(*r), gauges_entry(name@, help@, f));
    }
    f.register(r, name, help);
    f
}

/// One label.
pub(crate) fn label(name: &str, value: String) -> (l: (String, String))
    ensures
        l.0@ == name@,
        l.1 == value,
{
    (name.to_string(), value)
}

} // verus!
