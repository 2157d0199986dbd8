//! Running a program: what is reported at each stage, how it goes on, and what is kept.
use crate::evaluation::MOST_NESTED_CALLS;
use crate::ids::{identity_text, ulid_name};
use crate::plan::FunctionRegistry;
use crate::program::{
    Evaluated, EvaluatedProgram, evaluate_with_registry, evaluated_program, expression_seq,
    program,
};
use crate::static_expression::{PersistenceId, Span, SpannedExpression};
use crate::text::text_eq;
use crate::text_map::{TextMap, ordered_pairs, pairs_map};
use crate::values::text_seq;
use vstd::prelude::*;
use vstd::string::*;

verus! {

/// What is wrong with a piece of the source, and why.
#[derive(Debug, PartialEq, Eq)]
pub struct SourceError {
    pub span: Span,
    pub message: String,
    pub reason: String,
}

/// The mathematical value of a [`SourceError`].
#[verifier::ext_equal]
pub struct SourceErrorView {
    pub span: Span,
    pub message: Seq<char>,
    pub reason: Seq<char>,
}

impl View for SourceError {
    type V = SourceErrorView;

    open spec fn view(&self) -> SourceErrorView {
        SourceErrorView { span: self.span, message: self.message@, reason: self.reason@ }
    }
}

/// The report that `ariadne` writes of an error in a file: its message, and its reason at a place
/// in the source.
pub uninterp spec fn ariadne_report(
    filename: Seq<char>,
    source: Seq<char>,
    start: u64,
    end: u64,
    message: Seq<char>,
    reason: Seq<char>,
) -> Seq<char>;

/// The longest source that reports are written for: `ariadne` counts with numbers of 32 bits how
/// many digits the numbers of the lines have.
pub const LONGEST_SOURCE: usize = 999_999_998;

/// `ariadne::Report::write` into memory, for an error without colours and with one label. The
/// text is a function of what is handed over; what it looks like is left unsaid.
#[verifier::external_body]
fn write_report(
    filename: &str,
    source: &str,
    start: usize,
    end: usize,
    message: &str,
    reason: &str,
) -> (r: String)
    requires
        start <= end,
        source@.len() <= LONGEST_SOURCE,
    ensures
        r@ == ariadne_report(filename@, source@, start as u64, end as u64, message@, reason@),
{
    let mut bytes: Vec<u8> = Vec::new();
    let written = ariadne::Report::build(ariadne::ReportKind::Error, (filename, start..end))
        .with_config(ariadne::Config::default().with_color(false))
        .with_message(message)
        .with_label(ariadne::Label::new((filename, start..end)).with_message(reason))
        .finish()
        .write((filename, ariadne::Source::from(source)), &mut bytes);
    written.expect("writing into memory succeeds");
    String::from_utf8(bytes).expect("a report is a text")
}

/// The report of an error.
pub open spec fn error_report(
    error: SourceErrorView,
    filename: Seq<char>,
    source: Seq<char>,
) -> Seq<
    char,
> {
    ariadne_report(
        filename,
        source,
        error.span.start,
        error.span.end,
        error.message,
        error.reason,
    )
}

/// The reports of errors, in their order.
pub open spec fn error_reports(
    errors: Seq<SourceErrorView>,
    filename: Seq<char>,
    source: Seq<char>,
) -> Seq<Seq<char>> {
    Seq::new(errors.len(), |i: int| error_report(errors[i], filename, source))
}

/// Whether an error can be reported: its place starts before it ends, at numbers that a size can
/// hold.
pub open spec fn reportable(error: SourceErrorView) -> bool {
    error.span.start <= error.span.end && error.span.end <= usize::MAX
}

/// The values of errors.
pub open spec fn error_seq(errors: Seq<SourceError>) -> Seq<SourceErrorView> {
    errors.map_values(|x: SourceError| x@)
}

/// The reports of errors, in their order.
pub fn report_errors(errors: &Vec<SourceError>, filename: &str, source_code: &str) -> (r: Vec<
    String,
>)
    requires
        source_code@.len() <= LONGEST_SOURCE,
        forall|i: int| 0 <= i < errors@.len() ==> reportable((#[trigger] errors@[i])@),
    ensures
        text_seq(r@) == error_reports(error_seq(errors@), filename@, source_code@),
{
    let mut out: Vec<String> = Vec::new();
    let mut i: usize = 0;
    while i < errors.len()
        invariant
            i <= errors@.len(),
            source_code@.len() <= LONGEST_SOURCE,
            forall|i: int| 0 <= i < errors@.len() ==> reportable((#[trigger] errors@[i])@),
            out@.len() == i,
            forall|j: int|
                0 <= j < i ==> (#[trigger] out@[j])@ == error_report(
                    errors@[j]@,
                    filename@,
                    source_code@,
                ),
        decreases errors@.len() - i,
    {
        let error = &errors[i];
        assert(reportable(error@));
        out.push(
            write_report(
                filename,
                source_code,
                error.span.start as usize,
                error.span.end as usize,
                error.message.as_str(),
                error.reason.as_str(),
            ),
        );
        i += 1;
    }
    assert(text_seq(out@) =~= error_reports(error_seq(errors@), filename@, source_code@));
    out
}

/// The stages of running a program. The source that was run last goes through the first three.
#[derive(Debug, Clone, Copy, PartialEq, Eq, Structural)]
pub enum RunStage {
    Lex,
    Parse,
    References,
    Persistence,
}

/// How a run goes on after a stage.
#[derive(Debug, Clone, Copy, PartialEq, Eq, Structural)]
pub enum RunAction {
    Enter(RunStage),
    Finish,
    Stop,
}

/// How a run goes on: it stops after a stage that gave nothing.
pub open spec fn next_action(stage: RunStage, passed: bool, old_source: bool) -> RunAction {
    if !passed {
        RunAction::Stop
    } else {
        match stage {
            RunStage::Lex => RunAction::Enter(RunStage::Parse),
            RunStage::Parse => RunAction::Enter(RunStage::References),
            RunStage::References => if old_source {
                RunAction::Finish
            } else {
                RunAction::Enter(RunStage::Persistence)
            },
            RunStage::Persistence => RunAction::Finish,
        }
    }
}

/// What is said before the errors of a stage.
pub open spec fn stage_heading(stage: RunStage, old_source: bool) -> Seq<char> {
    match (stage, old_source) {
        (RunStage::Lex, false) => "[Lex Errors]"@,
        (RunStage::Lex, true) => "[OLD Lex Errors]"@,
        (RunStage::Parse, false) => "[Parse Errors]"@,
        (RunStage::Parse, true) => "[OLD Parse Errors]"@,
        (RunStage::References, false) => "[Reference Errors]"@,
        (RunStage::References, true) => "[OLD Reference Errors]"@,
        (RunStage::Persistence, _) => "[Persistence Errors]"@,
    }
}

/// Whether a stage is spoken of: the first two if they found errors, the others if they failed.
pub open spec fn stage_speaks(stage: RunStage, passed: bool, errors: nat) -> bool {
    match stage {
        RunStage::Lex | RunStage::Parse => errors > 0,
        RunStage::References | RunStage::Persistence => !passed,
    }
}

/// What is said after a stage.
pub open spec fn stage_lines(
    stage: RunStage,
    passed: bool,
    old_source: bool,
    errors: Seq<SourceErrorView>,
    filename: Seq<char>,
    source: Seq<char>,
) -> Seq<Seq<char>> {
    if stage_speaks(stage, passed, errors.len()) {
        seq![stage_heading(stage, old_source)] + error_reports(errors, filename, source)
    } else {
        Seq::empty()
    }
}

fn heading_text(stage: RunStage, old_source: bool) -> (r: &'static str)
    ensures
        r@ == stage_heading(stage, old_source),
{
    match stage {
        RunStage::Lex => if old_source {
            "[OLD Lex Errors]"
        } else {
            "[Lex Errors]"
        },
        RunStage::Parse => if old_source {
            "[OLD Parse Errors]"
        } else {
            "[Parse Errors]"
        },
        RunStage::References => if old_source {
            "[OLD Reference Errors]"
        } else {
            "[Reference Errors]"
        },
        RunStage::Persistence => "[Persistence Errors]",
    }
}

/// What follows from a stage: what is said, and how the run goes on.
#[derive(Debug, PartialEq, Eq)]
pub struct RunStep {
    pub lines: Vec<String>,
    pub next: RunAction,
}

/// What follows from a stage that gave something (`passed`) or nothing, with its errors.
pub fn after_stage(
    stage: RunStage,
    passed: bool,
    old_source: bool,
    errors: &Vec<SourceError>,
    filename: &str,
    source_code: &str,
) -> (r: RunStep)
    requires
        source_code@.len() <= LONGEST_SOURCE,
        forall|i: int| 0 <= i < errors@.len() ==> reportable((#[trigger] errors@[i])@),
    ensures
        text_seq(r.lines@) == stage_lines(
            stage,
            passed,
            old_source,
            error_seq(errors@),
            filename@,
            source_code@,
        ),
        r.next == next_action(stage, passed, old_source),
{
    let speaks = match stage {
        RunStage::Lex | RunStage::Parse => errors.len() > 0,
        RunStage::References | RunStage::Persistence => !passed,
    };
    let mut lines: Vec<String> = Vec::new();
    if speaks {
        lines.push(heading_text(stage, old_source).to_owned());
        let ghost first = lines@;
        let mut reports = report_errors(errors, filename, source_code);
        let ghost said = reports@;
        lines.append(&mut reports);
        proof {
            assert(lines@ == first + said);
            assert(text_seq(lines@) =~= seq![stage_heading(stage, old_source)] + text_seq(said));
        }
    } else {
        assert(text_seq(lines@) =~= Seq::empty());
    }
    let next = if !passed {
        RunAction::Stop
    } else {
        match stage {
            RunStage::Lex => RunAction::Enter(RunStage::Parse),
            RunStage::Parse => RunAction::Enter(RunStage::References),
            RunStage::References => if old_source {
                RunAction::Finish
            } else {
                RunAction::Enter(RunStage::Persistence)
            },
            RunStage::Persistence => RunAction::Finish,
        }
    };
    RunStep { lines, next }
}

/// What is said of an evaluation that failed.
pub fn evaluation_failed(message: &String) -> (r: Vec<String>)
    ensures
        text_seq(r@) == seq!["[Evaluation Error]"@, message@],
{
    let mut out: Vec<String> = Vec::new();
    out.push("[Evaluation Error]".to_owned());
    out.push(message.clone());
    assert(text_seq(out@) =~= seq!["[Evaluation Error]"@, message@]);
    out
}

/// Whether a stored state is one of a part of the program.
pub open spec fn is_kept(id: Seq<char>, pairs: Seq<(Span, PersistenceId)>) -> bool {
    exists|i: int| 0 <= i < pairs.len() && ulid_name((#[trigger] pairs[i]).1.0) == id
}

/// The stored states without those of parts that the program no longer has.
pub open spec fn kept_states<V>(
    states: Map<Seq<char>, V>,
    pairs: Seq<(Span, PersistenceId)>,
) -> Map<Seq<char>, V> {
    states.restrict(Set::new(|id: Seq<char>| is_kept(id, pairs)))
}

fn identity_texts(pairs: &Vec<(Span, PersistenceId)>) -> (r: Vec<String>)
    ensures
        r@.len() == pairs@.len(),
        forall|i: int| 0 <= i < r@.len() ==> (#[trigger] r@[i])@ == ulid_name(pairs@[i].1.0),
{
    let mut out: Vec<String> = Vec::new();
    let mut i: usize = 0;
    while i < pairs.len()
        invariant
            i <= pairs@.len(),
            out@.len() == i,
            forall|j: int| 0 <= j < i ==> (#[trigger] out@[j])@ == ulid_name(pairs@[j].1.0),
        decreases pairs@.len() - i,
    {
        out.push(identity_text(pairs[i].1));
        i += 1;
    }
    out
}

fn contains_text(texts: &Vec<String>, text: &str) -> (r: bool)
    ensures
        r == (exists|i: int| 0 <= i < texts@.len() && (#[trigger] texts@[i])@ == text@),
{
    let mut i: usize = 0;
    while i < texts.len()
        invariant
            i <= texts@.len(),
            forall|j: int| 0 <= j < i ==> (#[trigger] texts@[j])@ != text@,
        decreases texts@.len() - i,
    {
        if text_eq(texts[i].as_str(), text) {
            assert(texts@[i as int]@ == text@);
            return true;
        }
        i += 1;
    }
    false
}

/// Removes the stored states of parts that the program no longer has.
pub fn retain_states<V>(states: &mut TextMap<V>, pairs: &Vec<(Span, PersistenceId)>)
    ensures
        final(states)@ == kept_states(old(states)@, pairs@),
{
    let ghost start = states@;
    let ghost listed = ordered_pairs(start);
    let ids = identity_texts(pairs);
    let mut dropped: Vec<String> = Vec::new();
    let count: usize = states.len();
    let mut i: usize = 0;
    while i < count
        invariant
            i <= count,
            count == listed.len(),
            states@ == start,
            listed == ordered_pairs(start),
            ids@.len() == pairs@.len(),
            forall|j: int|
                0 <= j < ids@.len() ==> (#[trigger] ids@[j])@ == ulid_name(pairs@[j].1.0),
            forall|j: int| 0 <= j < dropped@.len() ==> !is_kept((#[trigger] dropped@[j])@, pairs@),
            forall|j: int|
                0 <= j < i && !is_kept((#[trigger] listed[j]).0, pairs@) ==> exists|k: int|
                    0 <= k < dropped@.len() && (#[trigger] dropped@[k])@ == listed[j].0,
        decreases count - i,
    {
        let id = states.entry(i).0;
        let kept = contains_text(&ids, id.as_str());
        proof {
            assert(id@ == listed[i as int].0);
            if kept {
                let j = choose|j: int| 0 <= j < ids@.len() && (#[trigger] ids@[j])@ == id@;
                assert(ulid_name(pairs@[j].1.0) == id@);
            } else if is_kept(id@, pairs@) {
                let j = choose|j: int|
                    0 <= j < pairs@.len() && ulid_name((#[trigger] pairs@[j]).1.0) == id@;
                assert(ids@[j]@ == id@);
            }
        }
        if !kept {
            let ghost before = dropped@;
            dropped.push(id.clone());
            proof {
                assert forall|j: int|
                    0 <= j < i + 1 && !is_kept((#[trigger] listed[j]).0, pairs@) implies exists|
                    k: int,
                | 0 <= k < dropped@.len() && (#[trigger] dropped@[k])@ == listed[j].0 by {
                    if j < i {
                        let k = choose|k: int|
                            0 <= k < before.len() && (#[trigger] before[k])@ == listed[j].0;
                        assert(dropped@[k]@ == listed[j].0);
                    } else {
                        assert(dropped@[before.len() as int]@ == listed[j].0);
                    }
                }
            }
        }
        i += 1;
    }
    let mut k: usize = 0;
    while k < dropped.len()
        invariant
            k <= dropped@.len(),
            forall|j: int| 0 <= j < dropped@.len() ==> !is_kept((#[trigger] dropped@[j])@, pairs@),
            states@.submap_of(start),
            forall|id: Seq<char>| #[trigger]
                start.contains_key(id) && !states@.contains_key(id) ==> !is_kept(id, pairs@),
            forall|j: int| 0 <= j < k ==> !states@.contains_key((#[trigger] dropped@[j])@),
        decreases dropped@.len() - k,
    {
        let ghost now = states@;
        let _ = states.take(dropped[k].as_str());
        proof {
            assert(states@ == now.remove(dropped@[k as int]@));
        }
        k += 1;
    }
    proof {
        let kept = kept_states(start, pairs@);
        assert forall|id: Seq<char>| states@.contains_key(id) == kept.contains_key(id) by {
            if start.contains_key(id) && !is_kept(id, pairs@) {
                assert(pairs_map(listed).contains_key(id));
                let j = choose|j: int| 0 <= j < listed.len() && (#[trigger] listed[j]).0 == id;
                let n = choose|n: int|
                    0 <= n < dropped@.len() && (#[trigger] dropped@[n])@ == listed[j].0;
                assert(!states@.contains_key(dropped@[n]@));
            }
        }
        assert(states@ =~= kept);
    }
}

/// What came of a stage: whether it gave something, and its errors.
#[derive(Debug, PartialEq, Eq)]
pub struct StageOutcome {
    pub passed: bool,
    pub errors: Vec<SourceError>,
}

/// The mathematical value of a [`StageOutcome`].
#[verifier::ext_equal]
pub struct StageOutcomeView {
    pub passed: bool,
    pub errors: Seq<SourceErrorView>,
}

impl View for StageOutcome {
    type V = StageOutcomeView;

    open spec fn view(&self) -> StageOutcomeView {
        StageOutcomeView { passed: self.passed, errors: error_seq(self.errors@) }
    }
}

/// The values of outcomes.
pub open spec fn outcome_seq(outcomes: Seq<StageOutcome>) -> Seq<StageOutcomeView> {
    outcomes.map_values(|x: StageOutcome| x@)
}

/// What came of the stages from one on, each of which is entered where the ones before it gave
/// something: what is said, and whether all of them gave something.
pub open spec fn front_end(
    stage: RunStage,
    outcomes: Seq<StageOutcomeView>,
    old_source: bool,
    filename: Seq<char>,
    source: Seq<char>,
) -> (Seq<Seq<char>>, bool)
    decreases outcomes.len(),
{
    if outcomes.len() == 0 {
        (Seq::empty(), false)
    } else {
        let first = outcomes[0];
        let lines = stage_lines(stage, first.passed, old_source, first.errors, filename, source);
        match next_action(stage, first.passed, old_source) {
            RunAction::Stop => (lines, false),
            RunAction::Finish => (lines, true),
            RunAction::Enter(next) => {
                let rest = front_end(next, outcomes.skip(1), old_source, filename, source);
                (lines + rest.0, rest.1)
            },
        }
    }
}

/// Whether all errors of all outcomes can be reported.
pub open spec fn all_reportable(outcomes: Seq<StageOutcomeView>) -> bool {
    forall|i: int, j: int|
        #![trigger outcomes[i].errors[j]]
        0 <= i < outcomes.len() && 0 <= j < outcomes[i].errors.len() ==> reportable(
            outcomes[i].errors[j],
        )
}

fn run_front_end(
    outcomes: &Vec<StageOutcome>,
    old_source: bool,
    filename: &str,
    source_code: &str,
) -> (r: (Vec<String>, bool))
    requires
        source_code@.len() <= LONGEST_SOURCE,
        all_reportable(outcome_seq(outcomes@)),
    ensures
        (text_seq(r.0@), r.1) == front_end(
            RunStage::Lex,
            outcome_seq(outcomes@),
            old_source,
            filename@,
            source_code@,
        ),
{
    let ghost all = outcome_seq(outcomes@);
    let ghost whole = front_end(RunStage::Lex, all, old_source, filename@, source_code@);
    let mut lines: Vec<String> = Vec::new();
    let mut stage = RunStage::Lex;
    let mut i: usize = 0;
    proof {
        assert(all.skip(0) =~= all);
        assert(text_seq(lines@) =~= Seq::empty());
        assert(Seq::<Seq<char>>::empty() + whole.0 =~= whole.0);
    }
    while i < outcomes.len()
        invariant
            i <= outcomes@.len(),
            source_code@.len() <= LONGEST_SOURCE,
            all_reportable(all),
            all == outcome_seq(outcomes@),
            whole == front_end(RunStage::Lex, all, old_source, filename@, source_code@),
            whole == (
                text_seq(lines@) + front_end(
                    stage,
                    all.skip(i as int),
                    old_source,
                    filename@,
                    source_code@,
                ).0,
                front_end(stage, all.skip(i as int), old_source, filename@, source_code@).1,
            ),
        decreases outcomes@.len() - i,
    {
        let outcome = &outcomes[i];
        let ghost before = text_seq(lines@);
        let ghost rest = all.skip(i as int);
        proof {
            assert(rest[0] == outcome@);
            assert(rest.skip(1) =~= all.skip(i + 1));
            assert forall|j: int| 0 <= j < outcome.errors@.len() implies reportable(
                (#[trigger] outcome.errors@[j])@,
            ) by {
                assert(all[i as int].errors[j] == outcome.errors@[j]@);
            }
        }
        let mut step = after_stage(
            stage,
            outcome.passed,
            old_source,
            &outcome.errors,
            filename,
            source_code,
        );
        let ghost said = text_seq(step.lines@);
        let ghost earlier = lines@;
        let ghost added = step.lines@;
        lines.append(&mut step.lines);
        proof {
            assert(lines@ == earlier + added);
            assert(text_seq(lines@) =~= before + said);
        }
        match step.next {
            RunAction::Stop => {
                return (lines, false);
            },
            RunAction::Finish => {
                return (lines, true);
            },
            RunAction::Enter(next) => {
                proof {
                    let more = front_end(
                        next,
                        all.skip(i + 1),
                        old_source,
                        filename@,
                        source_code@,
                    ).0;
                    assert(before + (said + more) =~= before + said + more);
                }
                stage = next;
            },
        }
        i += 1;
    }
    proof {
        assert(text_seq(lines@) + Seq::<Seq<char>>::empty() =~= text_seq(lines@));
    }
    (lines, false)
}

/// What is said of the source that was run last, and whether its tree can be had.
pub fn parse_old(outcomes: &Vec<StageOutcome>, filename: &str, source_code: &str) -> (r: (
    Vec<String>,
    bool,
))
    requires
        source_code@.len() <= LONGEST_SOURCE,
        all_reportable(outcome_seq(outcomes@)),
    ensures
        (text_seq(r.0@), r.1) == front_end(
            RunStage::Lex,
            outcome_seq(outcomes@),
            true,
            filename@,
            source_code@,
        ),
{
    run_front_end(outcomes, true, filename, source_code)
}

/// What is kept of a run that succeeded: the source, the identities of its parts by their
/// places, and the states of these parts.
#[derive(Debug, PartialEq, Eq)]
pub struct KeptRun<V> {
    pub source_code: String,
    pub span_id_pairs: Vec<(Span, PersistenceId)>,
    pub states: Option<TextMap<V>>,
}

/// The mathematical value of a [`KeptRun`].
#[verifier::ext_equal]
pub struct KeptRunView<V> {
    pub source_code: Seq<char>,
    pub span_id_pairs: Seq<(Span, PersistenceId)>,
    pub states: Option<Map<Seq<char>, V>>,
}

impl<V> View for KeptRun<V> {
    type V = KeptRunView<V>;

    open spec fn view(&self) -> KeptRunView<V> {
        KeptRunView {
            source_code: self.source_code@,
            span_id_pairs: self.span_id_pairs@,
            states: opt_map(self.states),
        }
    }
}

/// The value of an optional map.
pub open spec fn opt_map<V>(m: Option<TextMap<V>>) -> Option<Map<Seq<char>, V>> {
    match m {
        Some(x) => Some(x@),
        None => None,
    }
}

/// What came of a run: what is said, the program, and what is kept.
#[derive(Debug)]
pub struct RunOutcome<V> {
    pub lines: Vec<String>,
    pub program: Option<EvaluatedProgram>,
    pub kept: Option<KeptRun<V>>,
}

/// The mathematical value of a [`RunOutcome`].
#[verifier::ext_equal]
pub struct RunOutcomeView<V> {
    pub lines: Seq<Seq<char>>,
    pub program: Option<Evaluated>,
    pub kept: Option<KeptRunView<V>>,
}

impl<V> View for RunOutcome<V> {
    type V = RunOutcomeView<V>;

    open spec fn view(&self) -> RunOutcomeView<V> {
        RunOutcomeView {
            lines: text_seq(self.lines@),
            program: match self.program {
                Some(p) => Some(evaluated_program(p)),
                None => None,
            },
            kept: match self.kept {
                Some(k) => Some(k@),
                None => None,
            },
        }
    }
}

/// What comes of a run. Where a stage gives nothing, or where the evaluation fails, there is no
/// program and nothing is kept.
pub open spec fn run_result<V>(
    front: (Seq<Seq<char>>, bool),
    evaluation: Result<Evaluated, Seq<char>>,
    source: Seq<char>,
    pairs: Seq<(Span, PersistenceId)>,
    states: Option<Map<Seq<char>, V>>,
) -> RunOutcomeView<V> {
    if !front.1 {
        RunOutcomeView { lines: front.0, program: None, kept: None }
    } else {
        match evaluation {
            Ok(evaluated) => RunOutcomeView {
                lines: front.0,
                program: Some(evaluated),
                kept: Some(
                    KeptRunView {
                        source_code: source,
                        span_id_pairs: pairs,
                        states: match states {
                            Some(m) => Some(kept_states(m, pairs)),
                            None => None,
                        },
                    },
                ),
            },
            Err(message) => RunOutcomeView {
                lines: front.0 + seq!["[Evaluation Error]"@, message],
                program: None,
                kept: None,
            },
        }
    }
}

/// Runs a program whose source has gone through the stages before the evaluation, with the
/// functions of other programs, if there are any.
pub fn run_with_registry<V>(
    filename: &str,
    source_code: &str,
    outcomes: &Vec<StageOutcome>,
    expressions: &Vec<SpannedExpression>,
    span_id_pairs: Vec<(Span, PersistenceId)>,
    states: Option<TextMap<V>>,
    function_registry: Option<FunctionRegistry>,
) -> (r: RunOutcome<V>)
    requires
        source_code@.len() <= LONGEST_SOURCE,
        all_reportable(outcome_seq(outcomes@)),
    ensures
        r@ == run_result(
            front_end(
                RunStage::Lex,
                outcome_seq(outcomes@),
                false,
                filename@,
                source_code@,
            ),
            program(
                MOST_NESTED_CALLS as nat,
                expression_seq(expressions@),
                match function_registry {
                    Some(registry) => registry@.functions,
                    None => Map::empty(),
                },
            ),
            source_code@,
            span_id_pairs@,
            opt_map(states),
        ),
{
    let (said, passed) = run_front_end(outcomes, false, filename, source_code);
    if !passed {
        return RunOutcome { lines: said, program: None, kept: None };
    }
    let registry = match function_registry {
        Some(registry) => registry,
        None => FunctionRegistry::new(),
    };
    match evaluate_with_registry(expressions, registry) {
        Ok(evaluated) => {
            let kept = match states {
                Some(mut found) => {
                    retain_states(&mut found, &span_id_pairs);
                    Some(found)
                },
                None => None,
            };
            RunOutcome {
                lines: said,
                program: Some(evaluated),
                kept: Some(
                    KeptRun { source_code: source_code.to_owned(), span_id_pairs, states: kept },
                ),
            }
        },
        Err(message) => {
            let ghost first = said@;
            let mut lines = said;
            let mut failed = evaluation_failed(&message);
            let ghost last = failed@;
            lines.append(&mut failed);
            proof {
                assert(lines@ == first + last);
                assert(text_seq(lines@) =~= text_seq(first) + text_seq(last));
            }
            RunOutcome { lines, program: None, kept: None }
        },
    }
}

/// Runs a program whose source has gone through the stages before the evaluation.
pub fn run<V>(
    filename: &str,
    source_code: &str,
    outcomes: &Vec<StageOutcome>,
    expressions: &Vec<SpannedExpression>,
    span_id_pairs: Vec<(Span, PersistenceId)>,
    states: Option<TextMap<V>>,
) -> (r: RunOutcome<V>)
    requires
        source_code@.len() <= LONGEST_SOURCE,
        all_reportable(outcome_seq(outcomes@)),
    ensures
        r@ == run_result(
            front_end(
                RunStage::Lex,
                outcome_seq(outcomes@),
                false,
                filename@,
                source_code@,
            ),
            program(MOST_NESTED_CALLS as nat, expression_seq(expressions@), Map::empty()),
            source_code@,
            span_id_pairs@,
            opt_map(states),
        ),
{
    run_with_registry(
        filename,
        source_code,
        outcomes,
        expressions,
        span_id_pairs,
        states,
        None,
    )
}

/// The states that are kept are those of parts of the program, as they were, and keeping them
/// again changes nothing.
pub proof fn lemma_kept_states<V>(states: Map<Seq<char>, V>, pairs: Seq<(Span, PersistenceId)>)
    ensures
        forall|id: Seq<char>| #[trigger]
            kept_states(states, pairs).contains_key(id) <==> states.contains_key(id) && is_kept(
                id,
                pairs,
            ),
        forall|id: Seq<char>| #[trigger]
            kept_states(states, pairs).contains_key(id) ==> kept_states(states, pairs)[id]
                == states[id],
        kept_states(kept_states(states, pairs), pairs) == kept_states(states, pairs),
{
    assert(kept_states(kept_states(states, pairs), pairs) =~= kept_states(states, pairs));
}

/// A run without a program keeps nothing and says why: a stage gave nothing, or the evaluation
/// failed and its message is said last.
pub proof fn lemma_failed_run<V>(
    front: (Seq<Seq<char>>, bool),
    evaluation: Result<Evaluated, Seq<char>>,
    source: Seq<char>,
    pairs: Seq<(Span, PersistenceId)>,
    states: Option<Map<Seq<char>, V>>,
)
    ensures
        ({
            let done = run_result(front, evaluation, source, pairs, states);
            &&& done.kept is Some <==> done.program is Some
            &&& done.program is Some <==> front.1 && evaluation is Ok
            &&& front.1 && evaluation is Err ==> done.lines.len() > 0 && done.lines.last()
                == evaluation->Err_0
        }),
{
}

} // verus!
