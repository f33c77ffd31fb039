//! The reporting side: the records of one interval, cut to the configured
//! size, summed up per counter name, and rendered as text.

use vstd::prelude::*;
use vstd::string::*;
use crate::message::{views, Counter, CounterView, RecordView, StatisticsRecord};
use crate::text::{append_decimal, decimal};

verus! {

/// How the reporter works: how often it reports, whether a report shows
/// every record or a summary, and how many records a report holds at most.
#[derive(Clone, Copy, Debug, PartialEq, Eq)]
pub struct ReporterConfig {
    /// Length of the reporting interval in seconds; never zero.
    pub interval_secs: u64,
    /// Show every record, not the totals per counter name.
    pub detailed: bool,
    /// The largest number of records in one report; `None` for no limit.
    pub max_stats_per_report: Option<usize>,
}

/// Why the reporting options are refused.
#[derive(Clone, Copy, Debug, PartialEq, Eq)]
pub enum ConfigError {
    /// Reporting is asked for with an interval of zero seconds.
    ZeroInterval,
}

/// The limit that the option `max_stats_per_report` stands for: zero means
/// no limit.
pub open spec fn limit_of(max_stats_per_report: u32) -> Option<usize> {
    if max_stats_per_report == 0 {
        None
    } else {
        Some(max_stats_per_report as usize)
    }
}

/// The reporter's configuration that the options stand for: `None` where
/// reporting is not enabled, whatever the other options say; an error where
/// it is enabled with an interval of zero seconds.
pub open spec fn config_of(
    enable_stats: bool,
    stats_interval: u64,
    detailed_stats: bool,
    max_stats_per_report: u32,
) -> Result<Option<ReporterConfig>, ConfigError> {
    if !enable_stats {
        Ok(None)
    } else if stats_interval == 0 {
        Err(ConfigError::ZeroInterval)
    } else {
        Ok(
            Some(
                ReporterConfig {
                    interval_secs: stats_interval,
                    detailed: detailed_stats,
                    max_stats_per_report: limit_of(max_stats_per_report),
                },
            ),
        )
    }
}

/// Makes the reporter's configuration of the options of the process.
pub fn reporter_config(
    enable_stats: bool,
    stats_interval: u64,
    detailed_stats: bool,
    max_stats_per_report: u32,
) -> (config: Result<Option<ReporterConfig>, ConfigError>)
    ensures
        config == config_of(enable_stats, stats_interval, detailed_stats, max_stats_per_report),
{
    if !enable_stats {
        Ok(None)
    } else if stats_interval == 0 {
        Err(ConfigError::ZeroInterval)
    } else {
        let limit: Option<usize> = if max_stats_per_report == 0 {
            None
        } else {
            Some(max_stats_per_report as usize)
        };
        Ok(
            Some(
                ReporterConfig {
                    interval_secs: stats_interval,
                    detailed: detailed_stats,
                    max_stats_per_report: limit,
                },
            ),
        )
    }
}

/// The records of an interval that a report keeps: all of them, or with a
/// limit the first `limit` ones, those received first.
pub open spec fn kept(received: Seq<RecordView>, limit: Option<usize>) -> Seq<RecordView> {
    match limit {
        Some(most) => if received.len() > most {
            received.take(most as int)
        } else {
            received
        },
        None => received,
    }
}

/// How many records of an interval a report leaves out.
pub open spec fn left_out(received: Seq<RecordView>, limit: Option<usize>) -> nat {
    (received.len() - kept(received, limit).len()) as nat
}

/// The records of one reporting interval as a report shows them: the
/// records that are kept, oldest first, and the number of those left out.
#[derive(Debug, PartialEq, Eq)]
pub struct ReportBatch {
    pub records: Vec<StatisticsRecord>,
    pub omitted: usize,
}

/// The value of a `ReportBatch`.
pub struct BatchView {
    pub records: Seq<RecordView>,
    pub omitted: nat,
}

impl View for ReportBatch {
    type V = BatchView;

    open spec fn view(&self) -> BatchView {
        BatchView { records: views(self.records@), omitted: self.omitted as nat }
    }
}

/// The batch that the records received in an interval make under `limit`.
pub open spec fn batch_of(received: Seq<RecordView>, limit: Option<usize>) -> BatchView {
    BatchView { records: kept(received, limit), omitted: left_out(received, limit) }
}

impl ReportBatch {
    /// Makes the batch of the records received in an interval, in the
    /// order in which they were received.
    pub fn collect(received: Vec<StatisticsRecord>, limit: Option<usize>) -> (batch: ReportBatch)
        ensures
            batch@ == batch_of(views(received@), limit),
    {
        let mut records = received;
        let total = records.len();
        let mut omitted: usize = 0;
        match limit {
            Some(most) => {
                if total > most {
                    records.truncate(most);
                    omitted = total - most;
                    assert(views(records@) =~= views(received@).take(most as int));
                }
            },
            None => {},
        }
        ReportBatch { records, omitted }
    }
}

/// The sum of two totals, held at the largest 64-bit value.
pub open spec fn sum_held(left: u64, right: u64) -> u64 {
    if left + right <= u64::MAX {
        (left + right) as u64
    } else {
        u64::MAX
    }
}

/// The total of one counter name over a batch: how many values were seen
/// under the name, and their sum. Both are held at the largest 64-bit
/// value.
#[derive(Debug, PartialEq, Eq)]
pub struct CounterTotal {
    pub name: String,
    pub samples: u64,
    pub total: u64,
}

/// The value of a `CounterTotal`.
pub struct TotalView {
    pub name: Seq<char>,
    pub samples: u64,
    pub total: u64,
}

impl View for CounterTotal {
    type V = TotalView;

    open spec fn view(&self) -> TotalView {
        TotalView { name: self.name@, samples: self.samples, total: self.total }
    }
}

/// The index of the first total of `name` at or after `from`.
pub open spec fn total_index(totals: Seq<TotalView>, name: Seq<char>, from: int) -> Option<int>
    decreases totals.len() - from,
{
    if from < 0 || from >= totals.len() {
        None
    } else if totals[from].name == name {
        Some(from)
    } else {
        total_index(totals, name, from + 1)
    }
}

/// The totals after one more counter: the total of its name has one more
/// sample and the value added; a name seen for the first time gets a total
/// of its own behind the others.
pub open spec fn with_sample(totals: Seq<TotalView>, counter: CounterView) -> Seq<TotalView> {
    match total_index(totals, counter.name, 0) {
        Some(at) => totals.update(
            at,
            TotalView {
                name: counter.name,
                samples: sum_held(totals[at].samples, 1),
                total: sum_held(totals[at].total, counter.value),
            },
        ),
        None => totals.push(TotalView { name: counter.name, samples: 1, total: counter.value }),
    }
}

/// The totals after the counters `counters[from..]`, taken in order.
pub open spec fn with_counters(
    totals: Seq<TotalView>,
    counters: Seq<CounterView>,
    from: int,
) -> Seq<TotalView>
    decreases counters.len() - from,
{
    if from < 0 || from >= counters.len() {
        totals
    } else {
        with_counters(with_sample(totals, counters[from]), counters, from + 1)
    }
}

/// The totals after the records `records[from..]`, taken in order.
pub open spec fn with_records(totals: Seq<TotalView>, records: Seq<RecordView>, from: int) -> Seq<
    TotalView,
>
    decreases records.len() - from,
{
    if from < 0 || from >= records.len() {
        totals
    } else {
        with_records(with_counters(totals, records[from].counters, 0), records, from + 1)
    }
}

/// The totals of a batch: one per counter name, in the order in which the
/// names first occur.
pub open spec fn totals_of(records: Seq<RecordView>) -> Seq<TotalView> {
    with_records(Seq::empty(), records, 0)
}

fn add_held(left: u64, right: u64) -> (sum: u64)
    ensures
        sum == sum_held(left, right),
{
    if left <= u64::MAX - right {
        left + right
    } else {
        u64::MAX
    }
}

fn find_total(totals: &Vec<CounterTotal>, name: &String) -> (found: Option<usize>)
    ensures
        match found {
            Some(at) => total_index(views(totals@), name@, 0) == Some(at as int) && at
                < totals@.len() && totals@[at as int].name@ == name@,
            None => total_index(views(totals@), name@, 0).is_none(),
        },
{
    let mut i: usize = 0;
    while i < totals.len()
        invariant
            i <= totals@.len(),
            total_index(views(totals@), name@, 0) == total_index(views(totals@), name@, i as int),
        decreases totals@.len() - i,
    {
        if totals[i].name == *name {
            return Some(i);
        }
        i += 1;
    }
    None
}

fn add_sample(totals: &mut Vec<CounterTotal>, name: &String, value: u64)
    ensures
        views(final(totals)@) == with_sample(
            views(old(totals)@),
            CounterView { name: name@, value },
        ),
{
    match find_total(totals, name) {
        Some(at) => {
            let samples = add_held(totals[at].samples, 1);
            let total = add_held(totals[at].total, value);
            totals[at].samples = samples;
            totals[at].total = total;
            assert(views(totals@) =~= with_sample(
                views(old(totals)@),
                CounterView { name: name@, value },
            ));
        },
        None => {
            totals.push(CounterTotal { name: name.clone(), samples: 1, total: value });
            assert(views(totals@) =~= with_sample(
                views(old(totals)@),
                CounterView { name: name@, value },
            ));
        },
    }
}

impl ReportBatch {
    /// The totals per counter name over the records of the batch.
    pub fn totals(&self) -> (totals: Vec<CounterTotal>)
        ensures
            views(totals@) == totals_of(self@.records),
    {
        let mut totals: Vec<CounterTotal> = Vec::new();
        let mut i: usize = 0;
        assert(views(totals@) =~= Seq::<TotalView>::empty());
        while i < self.records.len()
            invariant
                i <= self.records@.len(),
                totals_of(self@.records) == with_records(views(totals@), self@.records, i as int),
            decreases self.records@.len() - i,
        {
            let record = &self.records[i];
            let mut j: usize = 0;
            let ghost start = views(totals@);
            while j < record.counters.len()
                invariant
                    j <= record.counters@.len(),
                    with_counters(start, record@.counters, 0) == with_counters(
                        views(totals@),
                        record@.counters,
                        j as int,
                    ),
                decreases record.counters@.len() - j,
            {
                add_sample(&mut totals, &record.counters[j].name, record.counters[j].value);
                j += 1;
            }
            i += 1;
        }
        totals
    }
}

/// The line of one counter in a detailed report.
pub open spec fn counter_line(counter: CounterView) -> Seq<char> {
    "  "@ + counter.name + ": "@ + decimal(counter.value as nat) + "\n"@
}

/// The lines of the counters of a record, in their order.
pub open spec fn counter_lines(counters: Seq<CounterView>) -> Seq<char>
    decreases counters.len(),
{
    if counters.len() == 0 {
        Seq::empty()
    } else {
        counter_lines(counters.drop_last()) + counter_line(counters.last())
    }
}

/// The heading of a record in a detailed report.
pub open spec fn record_heading(record: RecordView) -> Seq<char> {
    "record domain="@ + decimal(record.observation_domain as nat) + " template="@ + decimal(
        record.template_id as nat,
    ) + " revision="@ + decimal(record.template_revision as nat) + " export_time="@ + decimal(
        record.export_time as nat,
    ) + " sequence="@ + decimal(record.sequence_number as nat) + "\n"@
}

/// The text of the records of a detailed report: of each record its
/// heading and the lines of its counters.
pub open spec fn records_text(records: Seq<RecordView>) -> Seq<char>
    decreases records.len(),
{
    if records.len() == 0 {
        Seq::empty()
    } else {
        records_text(records.drop_last()) + record_heading(records.last()) + counter_lines(
            records.last().counters,
        )
    }
}

/// The line of one total in a condensed report.
pub open spec fn total_line(total: TotalView) -> Seq<char> {
    "  "@ + total.name + ": samples="@ + decimal(total.samples as nat) + " total="@ + decimal(
        total.total as nat,
    ) + "\n"@
}

/// The lines of the totals of a condensed report, in their order.
pub open spec fn total_lines(totals: Seq<TotalView>) -> Seq<char>
    decreases totals.len(),
{
    if totals.len() == 0 {
        Seq::empty()
    } else {
        total_lines(totals.drop_last()) + total_line(totals.last())
    }
}

/// The first line of a report: how many records it holds.
pub open spec fn report_heading(count: nat) -> Seq<char> {
    "statistics report: "@ + decimal(count) + " records\n"@
}

/// The last line of a report that leaves records out: how many. A report
/// that leaves none out has no such line.
pub open spec fn omitted_line(omitted: nat) -> Seq<char> {
    if omitted == 0 {
        Seq::empty()
    } else {
        "omitted: "@ + decimal(omitted) + "\n"@
    }
}

/// The text of a report: the heading, then every record of the batch where
/// the report is detailed and the totals per counter name where it is not,
/// then the number of records that were left out, if any.
pub open spec fn report_text(batch: BatchView, detailed: bool) -> Seq<char> {
    report_heading(batch.records.len()) + (if detailed {
        records_text(batch.records)
    } else {
        total_lines(totals_of(batch.records))
    }) + omitted_line(batch.omitted)
}

fn append_counter_lines(out: &mut String, counters: &Vec<Counter>)
    ensures
        final(out)@ == old(out)@ + counter_lines(views(counters@)),
{
    let mut i: usize = 0;
    assert(views(counters@).take(0) =~= Seq::<CounterView>::empty());
    assert(out@ =~= old(out)@ + counter_lines(views(counters@).take(0)));
    while i < counters.len()
        invariant
            i <= counters@.len(),
            out@ == old(out)@ + counter_lines(views(counters@).take(i as int)),
        decreases counters@.len() - i,
    {
        let ghost before = out@;
        out.append("  ");
        out.append(counters[i].name.as_str());
        out.append(": ");
        append_decimal(out, counters[i].value);
        out.append("\n");
        proof {
            let taken = views(counters@).take(i + 1);
            assert(taken.drop_last() =~= views(counters@).take(i as int));
            assert(taken.last() == counters@[i as int]@);
            assert(out@ =~= before + counter_line(counters@[i as int]@));
            assert(out@ =~= old(out)@ + counter_lines(taken));
        }
        i += 1;
    }
    assert(views(counters@).take(i as int) =~= views(counters@));
}

fn append_record_heading(out: &mut String, record: &StatisticsRecord)
    ensures
        final(out)@ == old(out)@ + record_heading(record@),
{
    out.append("record domain=");
    append_decimal(out, record.observation_domain as u64);
    out.append(" template=");
    append_decimal(out, record.template_id as u64);
    out.append(" revision=");
    append_decimal(out, record.template_revision);
    out.append(" export_time=");
    append_decimal(out, record.export_time as u64);
    out.append(" sequence=");
    append_decimal(out, record.sequence_number as u64);
    out.append("\n");
    assert(out@ =~= old(out)@ + record_heading(record@));
}

fn append_records(out: &mut String, records: &Vec<StatisticsRecord>)
    ensures
        final(out)@ == old(out)@ + records_text(views(records@)),
{
    let mut i: usize = 0;
    assert(views(records@).take(0) =~= Seq::<RecordView>::empty());
    assert(out@ =~= old(out)@ + records_text(views(records@).take(0)));
    while i < records.len()
        invariant
            i <= records@.len(),
            out@ == old(out)@ + records_text(views(records@).take(i as int)),
        decreases records@.len() - i,
    {
        let ghost before = out@;
        append_record_heading(out, &records[i]);
        append_counter_lines(out, &records[i].counters);
        proof {
            let taken = views(records@).take(i + 1);
            assert(taken.drop_last() =~= views(records@).take(i as int));
            assert(taken.last() == records@[i as int]@);
            assert(out@ =~= old(out)@ + records_text(taken));
        }
        i += 1;
    }
    assert(views(records@).take(i as int) =~= views(records@));
}

fn append_totals(out: &mut String, totals: &Vec<CounterTotal>)
    ensures
        final(out)@ == old(out)@ + total_lines(views(totals@)),
{
    let mut i: usize = 0;
    assert(views(totals@).take(0) =~= Seq::<TotalView>::empty());
    assert(out@ =~= old(out)@ + total_lines(views(totals@).take(0)));
    while i < totals.len()
        invariant
            i <= totals@.len(),
            out@ == old(out)@ + total_lines(views(totals@).take(i as int)),
        decreases totals@.len() - i,
    {
        let ghost before = out@;
        out.append("  ");
        out.append(totals[i].name.as_str());
        out.append(": samples=");
        append_decimal(out, totals[i].samples);
        out.append(" total=");
        append_decimal(out, totals[i].total);
        out.append("\n");
        proof {
            let taken = views(totals@).take(i + 1);
            assert(taken.drop_last() =~= views(totals@).take(i as int));
            assert(taken.last() == totals@[i as int]@);
            assert(out@ =~= before + total_line(totals@[i as int]@));
            assert(out@ =~= old(out)@ + total_lines(taken));
        }
        i += 1;
    }
    assert(views(totals@).take(i as int) =~= views(totals@));
}

impl ReportBatch {
    /// Renders the batch as the text of a report.
    pub fn render(&self, detailed: bool) -> (text: String)
        ensures
            text@ == report_text(self@, detailed),
    {
        let mut text = String::new();
        text.append("statistics report: ");
        append_decimal(&mut text, self.records.len() as u64);
        text.append(" records\n");
        assert(text@ =~= report_heading(self@.records.len()));
        if detailed {
            append_records(&mut text, &self.records);
        } else {
            let totals = self.totals();
            append_totals(&mut text, &totals);
        }
        let ghost body = text@;
        if self.omitted > 0 {
            text.append("omitted: ");
            append_decimal(&mut text, self.omitted as u64);
            text.append("\n");
        }
        assert(text@ =~= body + omitted_line(self@.omitted));
        text
    }
}

/// What the reporter's run loop is handed.
#[derive(Debug, PartialEq, Eq)]
pub enum ReporterEvent {
    /// A record of the decoder.
    Record(StatisticsRecord),
    /// The reporting interval has ended.
    Tick,
    /// The decoder has closed the channel.
    Closed,
}

/// The value of a `ReporterEvent`.
pub enum ReporterEventView {
    Record(RecordView),
    Tick,
    Closed,
}

impl View for ReporterEvent {
    type V = ReporterEventView;

    open spec fn view(&self) -> ReporterEventView {
        match self {
            ReporterEvent::Record(record) => ReporterEventView::Record(record@),
            ReporterEvent::Tick => ReporterEventView::Tick,
            ReporterEvent::Closed => ReporterEventView::Closed,
        }
    }
}

/// What the run loop does after an event: it hands `report`, if there is
/// one, to the report sink, and goes on only where `proceed` holds.
#[derive(Debug, PartialEq, Eq)]
pub struct ReporterStep {
    pub report: Option<String>,
    pub proceed: bool,
}

/// The value of a reporter: its configuration, and the records received in
/// the current interval, oldest first.
pub struct ReporterView {
    pub config: ReporterConfig,
    pub pending: Seq<RecordView>,
}

/// The reporter after an event, with what the run loop does next.
pub struct ReporterStepView {
    pub reporter: ReporterView,
    pub report: Option<Seq<char>>,
    pub proceed: bool,
}

impl ReporterView {
    /// The text of the report of the records received in the interval.
    pub open spec fn flushed(self) -> Seq<char> {
        report_text(batch_of(self.pending, self.config.max_stats_per_report), self.config.detailed)
    }

    /// The reporter with an empty interval.
    pub open spec fn emptied(self) -> ReporterView {
        ReporterView { config: self.config, pending: Seq::empty() }
    }

    /// The step that `event` makes. A record joins those of the interval.
    /// The end of an interval gives the report of its records and starts an
    /// empty interval. A closed channel gives the report of the records
    /// received since the last report, if there are any, and ends the loop.
    pub open spec fn step(self, event: ReporterEventView) -> ReporterStepView {
        match event {
            ReporterEventView::Record(record) => ReporterStepView {
                reporter: ReporterView { config: self.config, pending: self.pending.push(record) },
                report: None,
                proceed: true,
            },
            ReporterEventView::Tick => ReporterStepView {
                reporter: self.emptied(),
                report: Some(self.flushed()),
                proceed: true,
            },
            ReporterEventView::Closed => ReporterStepView {
                reporter: self.emptied(),
                report: if self.pending.len() > 0 {
                    Some(self.flushed())
                } else {
                    None
                },
                proceed: false,
            },
        }
    }
}

/// The text of an optional string.
pub open spec fn text_of(report: Option<String>) -> Option<Seq<char>> {
    match report {
        Some(text) => Some(text@),
        None => None,
    }
}

/// The reporting actor's state: the records of the current interval.
pub struct Reporter {
    config: ReporterConfig,
    pending: Vec<StatisticsRecord>,
}

impl View for Reporter {
    type V = ReporterView;

    closed spec fn view(&self) -> ReporterView {
        ReporterView { config: self.config, pending: views(self.pending@) }
    }
}

impl Reporter {
    /// A reporter at the start of its first interval.
    pub fn new(config: ReporterConfig) -> (reporter: Reporter)
        ensures
            reporter@ == (ReporterView { config, pending: Seq::empty() }),
    {
        let reporter = Reporter { config, pending: Vec::new() };
        assert(reporter@.pending =~= Seq::empty());
        reporter
    }

    /// The reporter's configuration.
    pub fn config(&self) -> (config: ReporterConfig)
        ensures
            config == self@.config,
    {
        self.config
    }

    /// The number of records received in the current interval.
    pub fn pending(&self) -> (count: usize)
        ensures
            count == self@.pending.len(),
    {
        self.pending.len()
    }

    fn flush(&mut self) -> (text: String)
        ensures
            text@ == old(self)@.flushed(),
            final(self)@ == old(self)@.emptied(),
    {
        let mut received: Vec<StatisticsRecord> = Vec::new();
        core::mem::swap(&mut received, &mut self.pending);
        assert(views(self.pending@) =~= Seq::<RecordView>::empty());
        let batch = ReportBatch::collect(received, self.config.max_stats_per_report);
        batch.render(self.config.detailed)
    }

    /// Takes one event of the run loop.
    pub fn handle_event(&mut self, event: ReporterEvent) -> (step: ReporterStep)
        ensures
            old(self)@.step(event@) == (ReporterStepView {
                reporter: final(self)@,
                report: text_of(step.report),
                proceed: step.proceed,
            }),
    {
        match event {
            ReporterEvent::Record(record) => {
                self.pending.push(record);
                assert(views(self.pending@) =~= old(self)@.pending.push(record@));
                ReporterStep { report: None, proceed: true }
            },
            ReporterEvent::Tick => {
                let text = self.flush();
                ReporterStep { report: Some(text), proceed: true }
            },
            ReporterEvent::Closed => {
                if self.pending.len() > 0 {
                    let text = self.flush();
                    ReporterStep { report: Some(text), proceed: false }
                } else {
                    assert(self@.pending =~= Seq::empty());
                    ReporterStep { report: None, proceed: false }
                }
            },
        }
    }
}

/// Report truncation: a report under a limit holds the records received
/// first, up to the limit, and counts every other record as left out;
/// without a limit, or with no more records than the limit, it holds all
/// and leaves none out.
pub proof fn lemma_batch_keeps_the_oldest(received: Seq<RecordView>, limit: Option<usize>)
    ensures
        batch_of(received, limit).records.len() + batch_of(received, limit).omitted
            == received.len(),
        batch_of(received, limit).records == received.take(
            batch_of(received, limit).records.len() as int,
        ),
        limit matches Some(most) ==> batch_of(received, limit).records.len() == if received.len()
            > most {
            most as nat
        } else {
            received.len()
        },
        limit is None ==> batch_of(received, limit).records == received,
{
    assert(received.take(received.len() as int) =~= received);
}

/// How many of `counters` bear the name `name`.
pub open spec fn samples_in(counters: Seq<CounterView>, name: Seq<char>) -> nat
    decreases counters.len(),
{
    if counters.len() == 0 {
        0
    } else {
        samples_in(counters.drop_last(), name) + if counters.last().name == name {
            1nat
        } else {
            0nat
        }
    }
}

/// The sum of the values of those of `counters` that bear the name `name`.
pub open spec fn sum_in(counters: Seq<CounterView>, name: Seq<char>) -> nat
    decreases counters.len(),
{
    if counters.len() == 0 {
        0
    } else {
        sum_in(counters.drop_last(), name) + if counters.last().name == name {
            counters.last().value as nat
        } else {
            0nat
        }
    }
}

/// `n`, held at the largest 64-bit value.
pub open spec fn held(n: nat) -> u64 {
    if n <= u64::MAX {
        n as u64
    } else {
        u64::MAX
    }
}

/// The counters of the records `records[from..]`, all in one sequence.
pub open spec fn all_counters(records: Seq<RecordView>, from: int) -> Seq<CounterView>
    decreases records.len() - from,
{
    if from < 0 || from >= records.len() {
        Seq::empty()
    } else {
        records[from].counters + all_counters(records, from + 1)
    }
}

/// Whether `totals` are the totals of `counters`: one total for each name
/// that occurs, none for any other, each with the number of the counters of
/// its name and the sum of their values.
pub open spec fn tallies(totals: Seq<TotalView>, counters: Seq<CounterView>) -> bool {
    &&& forall|i: int, j: int|
        0 <= i < j < totals.len() ==> (#[trigger] totals[i]).name != (#[trigger] totals[j]).name
    &&& forall|i: int|
        0 <= i < totals.len() ==> {
            &&& samples_in(counters, (#[trigger] totals[i]).name) > 0
            &&& totals[i].samples == held(samples_in(counters, totals[i].name))
            &&& totals[i].total == held(sum_in(counters, totals[i].name))
        }
    &&& forall|name: Seq<char>| #[trigger]
        samples_in(counters, name) > 0 ==> exists|i: int|
            0 <= i < totals.len() && (#[trigger] totals[i]).name == name
}

proof fn lemma_total_index_finds_the_name(totals: Seq<TotalView>, name: Seq<char>, from: int)
    requires
        0 <= from,
    ensures
        match total_index(totals, name, from) {
            Some(at) => from <= at < totals.len() && totals[at].name == name,
            None => forall|j: int| from <= j < totals.len() ==> (#[trigger] totals[j]).name != name,
        },
    decreases totals.len() - from,
{
    if from < totals.len() && totals[from].name != name {
        lemma_total_index_finds_the_name(totals, name, from + 1);
    }
}

proof fn lemma_no_sample_no_sum(counters: Seq<CounterView>, name: Seq<char>)
    ensures
        samples_in(counters, name) == 0 ==> sum_in(counters, name) == 0,
    decreases counters.len(),
{
    if counters.len() > 0 {
        lemma_no_sample_no_sum(counters.drop_last(), name);
    }
}

proof fn lemma_sample_keeps_tally(
    totals: Seq<TotalView>,
    counters: Seq<CounterView>,
    counter: CounterView,
)
    requires
        tallies(totals, counters),
    ensures
        tallies(with_sample(totals, counter), counters.push(counter)),
{
    let after = with_sample(totals, counter);
    let all = counters.push(counter);
    assert(all.drop_last() =~= counters);
    assert(all.last() == counter);
    lemma_total_index_finds_the_name(totals, counter.name, 0);
    lemma_no_sample_no_sum(counters, counter.name);
    assert forall|name: Seq<char>| #[trigger] samples_in(all, name) > 0 implies exists|i: int|
        0 <= i < after.len() && (#[trigger] after[i]).name == name by {
        if name == counter.name {
            match total_index(totals, counter.name, 0) {
                Some(at) => {
                    assert(after[at].name == name);
                },
                None => {
                    assert(after[after.len() - 1].name == name);
                },
            }
        } else {
            assert(samples_in(counters, name) > 0);
            let i = choose|i: int| 0 <= i < totals.len() && (#[trigger] totals[i]).name == name;
            assert(after[i].name == name);
        }
    }
    match total_index(totals, counter.name, 0) {
        Some(at) => {
            assert forall|i: int| 0 <= i < after.len() implies {
                &&& samples_in(all, (#[trigger] after[i]).name) > 0
                &&& after[i].samples == held(samples_in(all, after[i].name))
                &&& after[i].total == held(sum_in(all, after[i].name))
            } by {
                if i != at {
                    assert(totals[i].name != totals[at].name);
                    assert(after[i] == totals[i]);
                } else {
                    assert(totals[at].samples == held(samples_in(counters, counter.name)));
                }
            }
            assert forall|i: int, j: int| 0 <= i < j < after.len() implies (
            #[trigger] after[i]).name != (#[trigger] after[j]).name by {
                assert(after[i].name == totals[i].name);
                assert(after[j].name == totals[j].name);
            }
        },
        None => {
            if samples_in(counters, counter.name) > 0 {
                let i = choose|i: int|
                    0 <= i < totals.len() && (#[trigger] totals[i]).name == counter.name;
                assert(false);
            }
            assert forall|i: int| 0 <= i < after.len() implies {
                &&& samples_in(all, (#[trigger] after[i]).name) > 0
                &&& after[i].samples == held(samples_in(all, after[i].name))
                &&& after[i].total == held(sum_in(all, after[i].name))
            } by {
                if i < totals.len() {
                    assert(after[i] == totals[i]);
                    assert(totals[i].name != counter.name);
                }
            }
            assert forall|i: int, j: int| 0 <= i < j < after.len() implies (
            #[trigger] after[i]).name != (#[trigger] after[j]).name by {
                assert(after[i] == totals[i]);
                if j < totals.len() {
                    assert(after[j] == totals[j]);
                }
            }
        },
    }
}

proof fn lemma_counters_keep_tally(
    totals: Seq<TotalView>,
    seen: Seq<CounterView>,
    counters: Seq<CounterView>,
    from: int,
)
    requires
        tallies(totals, seen),
        0 <= from <= counters.len(),
    ensures
        tallies(with_counters(totals, counters, from), seen + counters.skip(from)),
    decreases counters.len() - from,
{
    if from == counters.len() {
        assert(seen + counters.skip(from) =~= seen);
    } else {
        lemma_sample_keeps_tally(totals, seen, counters[from]);
        lemma_counters_keep_tally(
            with_sample(totals, counters[from]),
            seen.push(counters[from]),
            counters,
            from + 1,
        );
        assert(seen.push(counters[from]) + counters.skip(from + 1) =~= seen + counters.skip(from));
    }
}

proof fn lemma_records_keep_tally(
    totals: Seq<TotalView>,
    seen: Seq<CounterView>,
    records: Seq<RecordView>,
    from: int,
)
    requires
        tallies(totals, seen),
        0 <= from <= records.len(),
    ensures
        tallies(with_records(totals, records, from), seen + all_counters(records, from)),
    decreases records.len() - from,
{
    if from == records.len() {
        assert(seen + all_counters(records, from) =~= seen);
    } else {
        let counters = records[from].counters;
        lemma_counters_keep_tally(totals, seen, counters, 0);
        assert(counters.skip(0) =~= counters);
        lemma_records_keep_tally(
            with_counters(totals, counters, 0),
            seen + counters,
            records,
            from + 1,
        );
        assert((seen + counters) + all_counters(records, from + 1) =~= seen + all_counters(
            records,
            from,
        ));
    }
}

/// What the totals of a batch are: one total for each counter name that
/// occurs in the records, each with the number of the counters of that name
/// and the sum of their values, both held at the largest 64-bit value.
pub proof fn lemma_totals_tally_the_records(records: Seq<RecordView>)
    ensures
        tallies(totals_of(records), all_counters(records, 0)),
{
    let nothing = Seq::<CounterView>::empty();
    assert(tallies(Seq::<TotalView>::empty(), nothing));
    lemma_records_keep_tally(Seq::empty(), nothing, records, 0);
    assert(nothing + all_counters(records, 0) =~= all_counters(records, 0));
}

} // verus!
