//! The sequential capture batch: a state machine that is told the outcome of
//! each capture and answers with the next thing to do, while it writes the
//! progress lines to a sink that only grows.
//!
//! The machine never captures anything itself. Its caller performs the capture
//! that [`Step::Capture`] names and hands the result to [`BatchRunner::record`];
//! a failed capture is recorded like a successful one and the batch goes on.

use crate::text::{decimal_text, push_decimal};
use crate::url_handler::{websites_from_text, websites_text};
use vstd::prelude::*;
use vstd::string::StringExecFns;

verus! {

/// Where a batch stands.
#[derive(Clone, Copy, PartialEq, Eq, Structural, Debug)]
pub enum Phase {
    /// Nothing was emitted or attempted yet.
    Idle,
    /// A capture is awaited.
    Running,
    /// Every URL was attempted, or there was none.
    Completed,
}

/// The counts of a batch.
#[derive(Clone, Copy, PartialEq, Eq, Structural, Debug)]
pub struct BatchSummary {
    pub total_attempted: usize,
    pub succeeded_count: usize,
}

/// The recorded result of one capture attempt.
#[derive(Debug)]
pub struct CaptureOutcome {
    pub url: String,
    pub succeeded: bool,
    pub error_detail: Option<String>,
}

/// A recorded result, as mathematics sees it.
pub struct OutcomeView {
    pub url: Seq<char>,
    pub succeeded: bool,
    pub error_detail: Option<Seq<char>>,
}

impl OutcomeView {
    /// A success carries no detail and a failure carries one.
    pub open spec fn wf(self) -> bool {
        self.succeeded <==> self.error_detail is None
    }
}

impl View for CaptureOutcome {
    type V = OutcomeView;

    open spec fn view(&self) -> OutcomeView {
        OutcomeView {
            url: self.url@,
            succeeded: self.succeeded,
            error_detail: match self.error_detail {
                Some(detail) => Some(detail@),
                None => None,
            },
        }
    }
}

/// What the caller found where the address list is kept.
#[derive(Debug)]
pub enum AddressSource {
    /// No file is there.
    Missing,
    /// A file is there and could not be read; the reason.
    Unreadable(String),
    /// The text of the file.
    Content(String),
}

/// The address list cannot be had: the batch is over before any capture,
/// with this final status line.
#[derive(Debug)]
pub struct InputUnavailable {
    pub status: String,
}

/// What the caller of a batch has to do next.
#[derive(Debug)]
pub enum Step {
    /// Capture this URL and report the result with [`BatchRunner::record`].
    Capture(String),
    /// The batch is over: its counts and its final status line.
    Done { summary: BatchSummary, status: String },
}

/// The failure detail of a capture result, `None` for a success.
pub open spec fn failure_of(result: Result<(), String>) -> Option<Seq<char>> {
    match result {
        Ok(_) => None,
        Err(detail) => Some(detail@),
    }
}

/// The outcome that is recorded for `url` on a result with this failure detail.
pub open spec fn outcome_of(url: Seq<char>, failure: Option<Seq<char>>) -> OutcomeView {
    OutcomeView { url, succeeded: failure is None, error_detail: failure }
}

/// How many of the outcomes are successes.
pub open spec fn succeeded_among(outcomes: Seq<OutcomeView>) -> nat
    decreases outcomes.len(),
{
    if outcomes.len() == 0 {
        0
    } else {
        succeeded_among(outcomes.drop_last()) + if outcomes.last().succeeded {
            1nat
        } else {
            0nat
        }
    }
}

/// The line written before the capture of the `position`-th of `total` URLs.
pub open spec fn processing_line(position: nat, total: nat, url: Seq<char>) -> Seq<char> {
    "processing "@ + decimal_text(position) + "/"@ + decimal_text(total) + ": "@ + url
}

/// The line written after a capture that succeeded.
pub open spec fn success_line(position: nat, total: nat, url: Seq<char>) -> Seq<char> {
    "succeeded "@ + decimal_text(position) + "/"@ + decimal_text(total) + ": "@ + url
}

/// The line written after a capture that failed, with the failure's detail.
pub open spec fn failure_line(position: nat, total: nat, url: Seq<char>, detail: Seq<char>) -> Seq<
    char,
> {
    "failed "@ + decimal_text(position) + "/"@ + decimal_text(total) + ": "@ + url + ": "@ + detail
}

/// The line written after the capture of the `position`-th URL.
pub open spec fn outcome_line(position: nat, total: nat, outcome: OutcomeView) -> Seq<char> {
    match outcome.error_detail {
        None => success_line(position, total, outcome.url),
        Some(detail) => failure_line(position, total, outcome.url, detail),
    }
}

/// The marker written once the last URL was attempted.
pub open spec fn completion_line() -> Seq<char> {
    "batch complete"@
}

/// The line that follows the completion marker.
pub open spec fn summary_line(succeeded: nat, total: nat) -> Seq<char> {
    "summary: succeeded "@ + decimal_text(succeeded) + "/"@ + decimal_text(total) + " sites"@
}

/// The only line of a batch without URLs.
pub open spec fn nothing_to_do_line() -> Seq<char> {
    "nothing to do: no address was found"@
}

/// The final status of a batch with URLs.
pub open spec fn done_status(succeeded: nat, total: nat) -> Seq<char> {
    "done! succeeded "@ + decimal_text(succeeded) + "/"@ + decimal_text(total) + " sites"@
}

/// The final status of a batch without URLs.
pub open spec fn nothing_to_capture_status() -> Seq<char> {
    "nothing to capture"@
}

/// The report written where no file is at `path`.
pub open spec fn missing_report(path: Seq<char>) -> Seq<char> {
    "error: file not found - "@ + path
}

/// The final status where no file is at `path`.
pub open spec fn missing_status(path: Seq<char>) -> Seq<char> {
    "file not found: "@ + path
}

/// The report written where the file could not be read.
pub open spec fn unreadable_report(detail: Seq<char>) -> Seq<char> {
    "error: cannot read the address file - "@ + detail
}

/// The final status where the file could not be read.
pub open spec fn unreadable_status(detail: Seq<char>) -> Seq<char> {
    "cannot read the address file: "@ + detail
}

/// The state of a batch, as mathematics sees it: the URLs in processing order,
/// the outcomes recorded so far and whether the batch was started. Phase,
/// counts, transcript and status all derive from these three.
pub struct RunnerView {
    pub urls: Seq<Seq<char>>,
    pub outcomes: Seq<OutcomeView>,
    pub started: bool,
}

impl RunnerView {
    /// The state before anything happened.
    pub open spec fn idle(urls: Seq<Seq<char>>) -> RunnerView {
        RunnerView { urls, outcomes: Seq::empty(), started: false }
    }

    /// Outcomes are recorded in URL order, one per URL, none before the start.
    pub open spec fn wf(self) -> bool {
        &&& self.outcomes.len() <= self.urls.len()
        &&& forall|i: int|
            0 <= i < self.outcomes.len() ==> (#[trigger] self.outcomes[i]).url == self.urls[i]
        &&& forall|i: int| 0 <= i < self.outcomes.len() ==> (#[trigger] self.outcomes[i]).wf()
        &&& (!self.started ==> self.outcomes.len() == 0)
    }

    pub open spec fn phase(self) -> Phase {
        if !self.started {
            Phase::Idle
        } else if self.outcomes.len() < self.urls.len() {
            Phase::Running
        } else {
            Phase::Completed
        }
    }

    pub open spec fn total(self) -> nat {
        self.urls.len()
    }

    pub open spec fn attempted(self) -> nat {
        self.outcomes.len()
    }

    pub open spec fn succeeded(self) -> nat {
        succeeded_among(self.outcomes)
    }

    /// The URL whose capture is awaited, while the batch is running.
    pub open spec fn current_url(self) -> Seq<char> {
        self.urls[self.outcomes.len() as int]
    }

    /// The state after the start.
    pub open spec fn start(self) -> RunnerView {
        RunnerView { started: true, ..self }
    }

    /// The state after the awaited capture ended with this failure detail.
    pub open spec fn record(self, failure: Option<Seq<char>>) -> RunnerView {
        RunnerView { outcomes: self.outcomes.push(outcome_of(self.current_url(), failure)), ..self }
    }

    /// The state after the captures that were still awaited ended, in order,
    /// with these failure details.
    pub open spec fn record_all(self, failures: Seq<Option<Seq<char>>>) -> RunnerView
        decreases failures.len(),
    {
        if failures.len() == 0 {
            self
        } else {
            self.record_all(failures.drop_last()).record(failures.last())
        }
    }

    /// What is written on arriving in this state: the line of the capture that
    /// is awaited next, or the completion marker and the summary.
    pub open spec fn arrival_lines(self) -> Seq<Seq<char>> {
        if self.outcomes.len() < self.urls.len() {
            seq![processing_line(self.attempted() + 1, self.total(), self.current_url())]
        } else if self.urls.len() == 0 {
            seq![nothing_to_do_line()]
        } else {
            seq![completion_line(), summary_line(self.succeeded(), self.total())]
        }
    }

    /// What the start writes.
    pub open spec fn lines_on_start(self) -> Seq<Seq<char>> {
        self.start().arrival_lines()
    }

    /// What the recording of a capture result writes: the outcome, then the
    /// lines of the state that is reached.
    pub open spec fn lines_on_record(self, failure: Option<Seq<char>>) -> Seq<Seq<char>> {
        seq![
            outcome_line(
                self.attempted() + 1,
                self.total(),
                outcome_of(self.current_url(), failure),
            ),
        ] + self.record(failure).arrival_lines()
    }

    /// The two lines of each of the first `count` attempts, in order.
    pub open spec fn attempt_lines(self, count: nat) -> Seq<Seq<char>>
        decreases count,
    {
        if count == 0 {
            Seq::empty()
        } else {
            let i = (count - 1) as nat;
            self.attempt_lines(i) + seq![
                processing_line(count, self.total(), self.urls[i as int]),
                outcome_line(count, self.total(), self.outcomes[i as int]),
            ]
        }
    }

    /// Every line written since the batch was created.
    pub open spec fn transcript(self) -> Seq<Seq<char>> {
        if !self.started {
            Seq::empty()
        } else {
            self.attempt_lines(self.attempted()) + self.arrival_lines()
        }
    }

    /// The final status line of a completed batch.
    pub open spec fn status_text(self) -> Seq<char> {
        if self.urls.len() == 0 {
            nothing_to_capture_status()
        } else {
            done_status(self.succeeded(), self.total())
        }
    }
}

/// Appends one line to the sink.
fn emit(sink: &mut Vec<String>, line: String)
    ensures
        final(sink).deep_view() == old(sink).deep_view().push(line@),
{
    sink.push(line);
    assert(sink.deep_view() =~= old(sink).deep_view().push(line@));
}

fn push_position(line: &mut String, position: usize, total: usize)
    ensures
        final(line)@ == old(line)@ + decimal_text(position as nat) + "/"@ + decimal_text(
            total as nat,
        ),
{
    push_decimal(line, position);
    line.append("/");
    push_decimal(line, total);
}

fn render_processing(position: usize, total: usize, url: &str) -> (line: String)
    ensures
        line@ == processing_line(position as nat, total as nat, url@),
{
    let mut line = "processing ".to_owned();
    push_position(&mut line, position, total);
    line.append(": ");
    line.append(url);
    line
}

fn render_success(position: usize, total: usize, url: &str) -> (line: String)
    ensures
        line@ == success_line(position as nat, total as nat, url@),
{
    let mut line = "succeeded ".to_owned();
    push_position(&mut line, position, total);
    line.append(": ");
    line.append(url);
    line
}

fn render_failure(position: usize, total: usize, url: &str, detail: &str) -> (line: String)
    ensures
        line@ == failure_line(position as nat, total as nat, url@, detail@),
{
    let mut line = "failed ".to_owned();
    push_position(&mut line, position, total);
    line.append(": ");
    line.append(url);
    line.append(": ");
    line.append(detail);
    line
}

fn render_summary(succeeded: usize, total: usize) -> (line: String)
    ensures
        line@ == summary_line(succeeded as nat, total as nat),
{
    let mut line = "summary: succeeded ".to_owned();
    push_position(&mut line, succeeded, total);
    line.append(" sites");
    line
}

fn prefixed(prefix: &str, rest: &str) -> (text: String)
    ensures
        text@ == prefix@ + rest@,
{
    let mut text = prefix.to_owned();
    text.append(rest);
    text
}

/// The URLs of a batch from what was found at `path`. The text of a file
/// gives the URLs that are tried for its address lines, and nothing is
/// written. A file that is missing or cannot be read gives one report line
/// and the final status: no capture is to be attempted then.
pub fn load_websites(path: &str, source: &AddressSource, sink: &mut Vec<String>) -> (loaded: Result<
    Vec<String>,
    InputUnavailable,
>)
    ensures
        match *source {
            AddressSource::Missing => {
                &&& loaded is Err
                &&& loaded->Err_0.status@ == missing_status(path@)
                &&& final(sink).deep_view() == old(sink).deep_view().push(missing_report(path@))
            },
            AddressSource::Unreadable(detail) => {
                &&& loaded is Err
                &&& loaded->Err_0.status@ == unreadable_status(detail@)
                &&& final(sink).deep_view() == old(sink).deep_view().push(
                    unreadable_report(detail@),
                )
            },
            AddressSource::Content(text) => {
                &&& loaded is Ok
                &&& loaded->Ok_0.deep_view() == websites_text(text@)
                &&& final(sink).deep_view() == old(sink).deep_view()
            },
        },
{
    match source {
        AddressSource::Missing => {
            emit(sink, prefixed("error: file not found - ", path));
            Err(InputUnavailable { status: prefixed("file not found: ", path) })
        },
        AddressSource::Unreadable(detail) => {
            emit(sink, prefixed("error: cannot read the address file - ", detail.as_str()));
            Err(
                InputUnavailable {
                    status: prefixed("cannot read the address file: ", detail.as_str()),
                },
            )
        },
        AddressSource::Content(text) => Ok(websites_from_text(text.as_str())),
    }
}

impl BatchSummary {
    /// The final status line of a batch with these counts: the status of an
    /// empty batch where nothing was attempted.
    pub fn status_text(&self) -> (status: String)
        ensures
            status@ == if self.total_attempted == 0 {
                nothing_to_capture_status()
            } else {
                done_status(self.succeeded_count as nat, self.total_attempted as nat)
            },
    {
        if self.total_attempted == 0 {
            "nothing to capture".to_owned()
        } else {
            let mut status = "done! succeeded ".to_owned();
            push_position(&mut status, self.succeeded_count, self.total_attempted);
            status.append(" sites");
            status
        }
    }
}

/// A batch over an ordered list of URLs.
pub struct BatchRunner {
    urls: Vec<String>,
    outcomes: Vec<CaptureOutcome>,
    succeeded: usize,
    started: bool,
}

impl View for BatchRunner {
    type V = RunnerView;

    closed spec fn view(&self) -> RunnerView {
        RunnerView {
            urls: self.urls.deep_view(),
            outcomes: Seq::new(self.outcomes@.len(), |i: int| self.outcomes@[i]@),
            started: self.started,
        }
    }
}

impl BatchRunner {
    /// The representation is consistent: the state is well formed and the
    /// running count of successes is the count of the recorded successes.
    pub closed spec fn wf(&self) -> bool {
        &&& self@.wf()
        &&& self.succeeded == self@.succeeded()
    }

    /// An idle batch over `urls`, in this order.
    pub fn new(urls: Vec<String>) -> (runner: BatchRunner)
        ensures
            runner.wf(),
            runner@.wf(),
            runner@ == RunnerView::idle(urls.deep_view()),
    {
        let runner = BatchRunner { urls, outcomes: Vec::new(), succeeded: 0, started: false };
        assert(runner@.outcomes =~= Seq::empty());
        runner
    }

    /// Where the batch stands.
    pub fn phase(&self) -> (phase: Phase)
        requires
            self.wf(),
        ensures
            phase == self@.phase(),
    {
        if !self.started {
            Phase::Idle
        } else if self.outcomes.len() < self.urls.len() {
            Phase::Running
        } else {
            Phase::Completed
        }
    }

    /// The counts so far: the attempts that were recorded and the successes
    /// among them. Once the batch is completed, the attempts are all the URLs.
    pub fn summary(&self) -> (summary: BatchSummary)
        requires
            self.wf(),
        ensures
            summary.total_attempted == self@.attempted(),
            summary.succeeded_count == self@.succeeded(),
            summary.succeeded_count <= summary.total_attempted,
            self@.phase() == Phase::Completed ==> summary.total_attempted == self@.total(),
    {
        proof {
            lemma_succeeded_bounded(self@.outcomes);
        }
        BatchSummary { total_attempted: self.outcomes.len(), succeeded_count: self.succeeded }
    }

    /// The outcomes recorded so far, in the order of the attempts.
    pub fn outcomes(&self) -> (outcomes: &Vec<CaptureOutcome>)
        requires
            self.wf(),
        ensures
            outcomes@.len() == self@.outcomes.len(),
            forall|i: int|
                0 <= i < outcomes@.len() ==> (#[trigger] outcomes@[i])@ == self@.outcomes[i],
    {
        &self.outcomes
    }

    /// What is to be done in the state the runner is in, once it was started.
    fn next_step(&self) -> (step: Step)
        requires
            self.wf(),
            self.started,
        ensures
            match step {
                Step::Capture(url) => self@.phase() == Phase::Running && url@
                    == self@.current_url(),
                Step::Done { summary, status } => {
                    &&& self@.phase() == Phase::Completed
                    &&& summary.total_attempted == self@.total()
                    &&& summary.succeeded_count == self@.succeeded()
                    &&& status@ == self@.status_text()
                },
            },
    {
        let done = self.outcomes.len();
        if done < self.urls.len() {
            Step::Capture(self.urls[done].clone())
        } else {
            let summary = self.summary();
            let status = summary.status_text();
            Step::Done { summary, status }
        }
    }

    /// Writes the lines of the state the runner has arrived in.
    fn announce(&self, sink: &mut Vec<String>)
        requires
            self.wf(),
            self.started,
        ensures
            final(sink).deep_view() == old(sink).deep_view() + self@.arrival_lines(),
    {
        let done = self.outcomes.len();
        let total = self.urls.len();
        if done < total {
            emit(sink, render_processing(done + 1, total, self.urls[done].as_str()));
        } else if total == 0 {
            emit(sink, "nothing to do: no address was found".to_owned());
        } else {
            emit(sink, "batch complete".to_owned());
            emit(sink, render_summary(self.succeeded, total));
        }
        assert(sink.deep_view() =~= old(sink).deep_view() + self@.arrival_lines());
    }

    /// Starts the batch. With no URL the batch is over at once, after a single
    /// line that says so; otherwise the first URL is announced and handed out.
    pub fn start(&mut self, sink: &mut Vec<String>) -> (step: Step)
        requires
            old(self).wf(),
            old(self)@.phase() == Phase::Idle,
        ensures
            final(self).wf(),
            final(self)@.wf(),
            final(self)@ == old(self)@.start(),
            final(sink).deep_view() == old(sink).deep_view() + old(self)@.lines_on_start(),
            match step {
                Step::Capture(url) => old(self)@.total() > 0 && url@ == old(self)@.urls[0],
                Step::Done { summary, status } => {
                    &&& old(self)@.total() == 0
                    &&& summary.total_attempted == 0
                    &&& summary.succeeded_count == 0
                    &&& status@ == nothing_to_capture_status()
                },
            },
    {
        self.started = true;
        self.announce(sink);
        self.next_step()
    }

    /// Records the result of the capture that was awaited and moves on: the
    /// outcome is written, then either the next URL is announced and handed
    /// out, or the completion marker and the summary are written and the
    /// batch is over. A failure is recorded and never ends the batch early.
    pub fn record(&mut self, result: Result<(), String>, sink: &mut Vec<String>) -> (step: Step)
        requires
            old(self).wf(),
            old(self)@.phase() == Phase::Running,
        ensures
            final(self).wf(),
            final(self)@.wf(),
            final(self)@ == old(self)@.record(failure_of(result)),
            final(sink).deep_view() == old(sink).deep_view() + old(self)@.lines_on_record(
                failure_of(result),
            ),
            match step {
                Step::Capture(url) => {
                    &&& final(self)@.phase() == Phase::Running
                    &&& url@ == final(self)@.current_url()
                },
                Step::Done { summary, status } => {
                    &&& final(self)@.phase() == Phase::Completed
                    &&& summary.total_attempted == final(self)@.total()
                    &&& summary.succeeded_count == final(self)@.succeeded()
                    &&& summary.succeeded_count <= summary.total_attempted
                    &&& status@ == final(self)@.status_text()
                },
            },
    {
        let done = self.outcomes.len();
        let total = self.urls.len();
        let url = self.urls[done].clone();
        let ghost before = self@;
        let ghost failure = failure_of(result);
        let outcome = match result {
            Ok(_) => {
                emit(sink, render_success(done + 1, total, url.as_str()));
                proof {
                    lemma_succeeded_bounded(before.outcomes);
                }
                self.succeeded = self.succeeded + 1;
                CaptureOutcome { url, succeeded: true, error_detail: None }
            },
            Err(detail) => {
                emit(sink, render_failure(done + 1, total, url.as_str(), detail.as_str()));
                CaptureOutcome { url, succeeded: false, error_detail: Some(detail) }
            },
        };
        assert(outcome@ == outcome_of(before.current_url(), failure));
        self.outcomes.push(outcome);
        proof {
            assert(self@.outcomes =~= before.outcomes.push(outcome@));
            assert(self@.outcomes.drop_last() =~= before.outcomes);
            lemma_succeeded_bounded(self@.outcomes);
        }
        self.announce(sink);
        self.next_step()
    }
}

/// The failure details of capture results, in order.
pub open spec fn failures_of(results: Seq<Result<(), String>>) -> Seq<Option<Seq<char>>> {
    results.map_values(|result: Result<(), String>| failure_of(result))
}

/// Whether `results` are what `capture` may return for `urls`, one by one:
/// each is a possible result of the call on a text equal to the URL.
pub open spec fn captured_by<F: Fn(&String) -> Result<(), String>>(
    capture: F,
    urls: Seq<Seq<char>>,
    asked: Seq<String>,
    results: Seq<Result<(), String>>,
) -> bool {
    &&& asked.len() == urls.len()
    &&& results.len() == urls.len()
    &&& forall|i: int|
        0 <= i < urls.len() ==> (#[trigger] asked[i])@ == urls[i] && call_ensures(
            capture,
            (&asked[i],),
            results[i],
        )
}

/// Runs a batch over `urls` to its end: `capture` is called once for each
/// URL, in order and never before the call for the URL before it has
/// returned, and what it returns is recorded. Whatever the calls return,
/// every URL is attempted and the lines of a whole batch are written; a call
/// that fails costs no other URL its attempt.
pub fn run<F>(urls: Vec<String>, capture: F, sink: &mut Vec<String>) -> (summary: BatchSummary)
    where
    F: Fn(&String) -> Result<(), String>,

    requires
        forall|url: &String| call_requires(capture, (url,)),
    ensures
        summary.total_attempted == urls.len(),
        summary.succeeded_count <= summary.total_attempted,
        exists|asked: Seq<String>, results: Seq<Result<(), String>>|
            {
                let end = RunnerView::idle(urls.deep_view()).start().record_all(
                    failures_of(results),
                );
                &&& #[trigger] captured_by(capture, urls.deep_view(), asked, results)
                &&& summary.succeeded_count == end.succeeded()
                &&& final(sink).deep_view() == old(sink).deep_view() + end.transcript()
            },
        (forall|url: &String, result: Result<(), String>|
            call_ensures(capture, (url,), result) ==> result is Err) ==> summary.succeeded_count
            == 0,
        (forall|url: &String, result: Result<(), String>|
            call_ensures(capture, (url,), result) ==> result is Ok) ==> summary.succeeded_count
            == urls.len(),
{
    let ghost all = urls.deep_view();
    let ghost begun = RunnerView::idle(all).start();
    let ghost mut asked: Seq<String> = Seq::empty();
    let ghost mut results: Seq<Result<(), String>> = Seq::empty();
    let mut runner = BatchRunner::new(urls);
    proof {
        lemma_start_extends_transcript(runner@);
        assert(failures_of(results) =~= Seq::empty());
    }
    let mut step = runner.start(sink);
    assert(sink.deep_view() =~= old(sink).deep_view() + runner@.transcript());
    loop
        invariant
            forall|url: &String| call_requires(capture, (url,)),
            all == urls.deep_view(),
            begun == RunnerView::idle(all).start(),
            runner.wf(),
            runner@.wf(),
            runner@ == begun.record_all(failures_of(results)),
            runner@.urls == all,
            asked.len() == runner@.attempted(),
            results.len() == runner@.attempted(),
            forall|i: int|
                0 <= i < asked.len() ==> (#[trigger] asked[i])@ == all[i] && call_ensures(
                    capture,
                    (&asked[i],),
                    results[i],
                ),
            sink.deep_view() == old(sink).deep_view() + runner@.transcript(),
            (forall|url: &String, result: Result<(), String>|
                call_ensures(capture, (url,), result) ==> result is Err) ==> runner@.succeeded()
                == 0,
            (forall|url: &String, result: Result<(), String>|
                call_ensures(capture, (url,), result) ==> result is Ok) ==> runner@.succeeded()
                == runner@.attempted(),
            match step {
                Step::Capture(url) => runner@.phase() == Phase::Running && url@
                    == runner@.current_url(),
                Step::Done { summary, status } => {
                    &&& runner@.phase() == Phase::Completed
                    &&& summary.total_attempted == runner@.total()
                    &&& summary.succeeded_count == runner@.succeeded()
                    &&& summary.succeeded_count <= summary.total_attempted
                },
            },
        decreases runner@.total() - runner@.attempted(),
    {
        match step {
            Step::Capture(url) => {
                let result = capture(&url);
                let ghost before = runner@;
                let ghost failure = failure_of(result);
                proof {
                    lemma_record_extends_transcript(before, failure);
                    assert(failures_of(results.push(result)) =~= failures_of(results).push(
                        failure,
                    ));
                    assert(failures_of(results).push(failure).drop_last() =~= failures_of(
                        results,
                    ));
                    asked = asked.push(url);
                    results = results.push(result);
                }
                step = runner.record(result, sink);
                proof {
                    assert(runner@.outcomes.drop_last() =~= before.outcomes);
                    assert(sink.deep_view() =~= old(sink).deep_view() + runner@.transcript());
                }
            },
            Step::Done { summary, status } => {
                assert(captured_by(capture, all, asked, results));
                return summary;
            },
        }
    }
}

/// No more outcomes are successes than there are outcomes.
pub proof fn lemma_succeeded_bounded(outcomes: Seq<OutcomeView>)
    ensures
        succeeded_among(outcomes) <= outcomes.len(),
    decreases outcomes.len(),
{
    if outcomes.len() > 0 {
        lemma_succeeded_bounded(outcomes.drop_last());
    }
}

/// Where no outcome is a success, the count of successes is zero.
pub proof fn lemma_no_success_counts_zero(outcomes: Seq<OutcomeView>)
    requires
        forall|i: int| 0 <= i < outcomes.len() ==> !(#[trigger] outcomes[i]).succeeded,
    ensures
        succeeded_among(outcomes) == 0,
    decreases outcomes.len(),
{
    if outcomes.len() > 0 {
        lemma_no_success_counts_zero(outcomes.drop_last());
    }
}

/// The lines of the first `count` attempts depend on the total, on the first
/// `count` URLs and on the first `count` outcomes only.
proof fn lemma_attempt_lines_agree(a: RunnerView, b: RunnerView, count: nat)
    requires
        a.urls == b.urls,
        count <= a.outcomes.len(),
        count <= b.outcomes.len(),
        forall|i: int| 0 <= i < count ==> a.outcomes[i] == b.outcomes[i],
    ensures
        a.attempt_lines(count) == b.attempt_lines(count),
    decreases count,
{
    if count > 0 {
        lemma_attempt_lines_agree(a, b, (count - 1) as nat);
    }
}

/// Whether `lines` hold, at the place of the attempt with index `i`, the
/// announcement of the URL and then the line of this outcome.
pub open spec fn logs_attempt(
    lines: Seq<Seq<char>>,
    i: int,
    total: nat,
    outcome: OutcomeView,
) -> bool {
    &&& 0 <= i && 2 * i + 1 < lines.len()
    &&& lines[2 * i] == processing_line((i + 1) as nat, total, outcome.url)
    &&& lines[2 * i + 1] == outcome_line((i + 1) as nat, total, outcome)
}

/// The first `count` attempts take two lines each: the announcement of the
/// URL, then its outcome.
pub proof fn lemma_attempt_lines_shape(state: RunnerView, count: nat)
    requires
        state.wf(),
        count <= state.outcomes.len(),
    ensures
        state.attempt_lines(count).len() == 2 * count,
        forall|i: int|
            0 <= i < count ==> #[trigger] logs_attempt(
                state.attempt_lines(count),
                i,
                state.total(),
                state.outcomes[i],
            ),
    decreases count,
{
    if count > 0 {
        let shorter = (count - 1) as nat;
        let lines = state.attempt_lines(count);
        let before = state.attempt_lines(shorter);
        lemma_attempt_lines_shape(state, shorter);
        assert(lines.len() == before.len() + 2);
        assert forall|i: int| 0 <= i < count implies #[trigger] logs_attempt(
            lines,
            i,
            state.total(),
            state.outcomes[i],
        ) by {
            if i < shorter {
                assert(logs_attempt(before, i, state.total(), state.outcomes[i]));
                assert(lines[2 * i] == before[2 * i]);
                assert(lines[2 * i + 1] == before[2 * i + 1]);
            } else {
                assert(lines[2 * i] == processing_line(count, state.total(), state.urls[i]));
                assert(lines[2 * i + 1] == outcome_line(count, state.total(), state.outcomes[i]));
                assert(state.outcomes[i].url == state.urls[i]);
            }
        }
    }
}

/// The start writes what the transcript gains by it.
pub proof fn lemma_start_extends_transcript(state: RunnerView)
    requires
        state.wf(),
        state.phase() == Phase::Idle,
    ensures
        state.start().wf(),
        state.start().transcript() == state.transcript() + state.lines_on_start(),
{
    assert(state.start().attempt_lines(0) =~= Seq::empty());
    assert(state.start().transcript() =~= state.transcript() + state.lines_on_start());
}

/// The recording of a result writes what the transcript gains by it: no
/// line that was written is changed or taken back.
pub proof fn lemma_record_extends_transcript(state: RunnerView, failure: Option<Seq<char>>)
    requires
        state.wf(),
        state.phase() == Phase::Running,
    ensures
        state.record(failure).wf(),
        state.record(failure).transcript() == state.transcript() + state.lines_on_record(failure),
{
    let next = state.record(failure);
    let done = state.attempted();
    lemma_attempt_lines_agree(state, next, done);
    assert(next.transcript() =~= state.transcript() + state.lines_on_record(failure));
}

/// What a started batch has become after more results were recorded: the
/// URLs are the same, the earlier outcomes are kept and each result is
/// recorded for the URL whose turn it was.
pub proof fn lemma_record_all(state: RunnerView, failures: Seq<Option<Seq<char>>>)
    requires
        state.wf(),
        state.started,
        state.attempted() + failures.len() <= state.total(),
    ensures
        ({
            let end = state.record_all(failures);
            &&& end.wf()
            &&& end.started
            &&& end.urls == state.urls
            &&& end.attempted() == state.attempted() + failures.len()
            &&& forall|i: int| 0 <= i < state.attempted() ==> end.outcomes[i] == state.outcomes[i]
            &&& forall|j: int|
                0 <= j < failures.len() ==> end.outcomes[state.attempted() + j] == outcome_of(
                    state.urls[state.attempted() + j],
                    #[trigger] failures[j],
                )
        }),
    decreases failures.len(),
{
    if failures.len() > 0 {
        let earlier = failures.drop_last();
        let before = state.record_all(earlier);
        let end = state.record_all(failures);
        lemma_record_all(state, earlier);
        assert(end == before.record(failures.last()));
        assert forall|j: int| 0 <= j < failures.len() implies end.outcomes[state.attempted() + j]
            == outcome_of(state.urls[state.attempted() + j], #[trigger] failures[j]) by {
            if j < earlier.len() {
                assert(earlier[j] == failures[j]);
            }
        }
    }
}

/// Whatever the captures return, a batch that was started and was told the
/// result of each capture is completed; it has attempted every URL, in
/// order, and counts no more successes than attempts.
pub proof fn lemma_every_url_is_attempted(urls: Seq<Seq<char>>, failures: Seq<Option<Seq<char>>>)
    requires
        failures.len() == urls.len(),
    ensures
        ({
            let end = RunnerView::idle(urls).start().record_all(failures);
            &&& end.wf()
            &&& end.phase() == Phase::Completed
            &&& end.attempted() == urls.len()
            &&& end.succeeded() <= end.attempted()
            &&& forall|i: int|
                0 <= i < urls.len() ==> #[trigger] end.outcomes[i] == outcome_of(
                    urls[i],
                    failures[i],
                )
        }),
{
    let begun = RunnerView::idle(urls).start();
    lemma_record_all(begun, failures);
    lemma_succeeded_bounded(begun.record_all(failures).outcomes);
}

/// A batch in which every capture fails still runs to its end: no success
/// is counted, each URL has its announcement and its failure line, in URL
/// order, and the completion marker and the summary close the transcript.
pub proof fn lemma_failures_do_not_stop_the_batch(
    urls: Seq<Seq<char>>,
    failures: Seq<Option<Seq<char>>>,
)
    requires
        urls.len() > 0,
        failures.len() == urls.len(),
        forall|i: int| 0 <= i < failures.len() ==> (#[trigger] failures[i]) is Some,
    ensures
        ({
            let end = RunnerView::idle(urls).start().record_all(failures);
            let total = urls.len() as int;
            &&& end.phase() == Phase::Completed
            &&& end.succeeded() == 0
            &&& end.transcript().len() == 2 * total + 2
            &&& forall|i: int|
                0 <= i < total ==> #[trigger] logs_attempt(
                    end.transcript(),
                    i,
                    urls.len(),
                    outcome_of(urls[i], failures[i]),
                )
            &&& end.transcript()[2 * total] == completion_line()
            &&& end.transcript()[2 * total + 1] == summary_line(0, urls.len())
        }),
{
    let end = RunnerView::idle(urls).start().record_all(failures);
    let total = urls.len() as int;
    let attempts = end.attempt_lines(urls.len());
    lemma_every_url_is_attempted(urls, failures);
    assert forall|i: int| 0 <= i < end.outcomes.len() implies !(
    #[trigger] end.outcomes[i]).succeeded by {
        assert(failures[i] is Some);
    }
    lemma_no_success_counts_zero(end.outcomes);
    lemma_attempt_lines_shape(end, urls.len());
    assert(end.transcript() == attempts + end.arrival_lines());
    assert(attempts.len() == 2 * total);
    assert(end.arrival_lines() == seq![completion_line(), summary_line(0, urls.len())]);
    assert forall|i: int| 0 <= i < total implies #[trigger] logs_attempt(
        end.transcript(),
        i,
        urls.len(),
        outcome_of(urls[i], failures[i]),
    ) by {
        assert(logs_attempt(attempts, i, end.total(), end.outcomes[i]));
        assert(end.outcomes[i] == outcome_of(urls[i], failures[i]));
        assert(end.transcript()[2 * i] == attempts[2 * i]);
        assert(end.transcript()[2 * i + 1] == attempts[2 * i + 1]);
    }
}

} // verus!
