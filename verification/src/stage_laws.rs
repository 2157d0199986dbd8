//! What a run does stage by stage, and what modules and links are.
use crate::expression_view::{AliasView, ExpressionView, ModuleDataView, SpannedExpressionView};
use crate::fields::link_path;
use crate::ids::ulid_name;
use crate::interpreter::{
    RunStage, SourceErrorView, StageOutcomeView, ariadne_report, error_reports, front_end,
    is_kept, kept_states, lemma_kept_states, run_result, stage_lines,
};
use crate::modules::{
    ModuleLoaderView, after_loading, first_module, loaded_module, module_files, module_of,
    module_parsed,
};
use crate::plan::AliasRoot;
use crate::plan_view::EvaluationContextView;
use crate::program::Evaluated;
use crate::static_expression::{PersistenceId, Span};
use crate::text::nat_text;
use vstd::prelude::*;

verus! {

proof fn lemma_front_end_unfolds(
    stage: RunStage,
    outcomes: Seq<StageOutcomeView>,
    old_source: bool,
    filename: Seq<char>,
    source: Seq<char>,
)
    ensures
        front_end(stage, outcomes, old_source, filename, source).1 == (outcomes.len() > 0
            && outcomes[0].passed && match stage {
            RunStage::Lex => front_end(
                RunStage::Parse,
                outcomes.skip(1),
                old_source,
                filename,
                source,
            ).1,
            RunStage::Parse => front_end(
                RunStage::References,
                outcomes.skip(1),
                old_source,
                filename,
                source,
            ).1,
            RunStage::References => old_source || front_end(
                RunStage::Persistence,
                outcomes.skip(1),
                old_source,
                filename,
                source,
            ).1,
            RunStage::Persistence => true,
        }),
{
}

/// The sources are ready once they have passed all stages: of a present source these are four, of
/// an old one three, and what comes after them does not matter.
pub proof fn lemma_stages_passed(
    outcomes: Seq<StageOutcomeView>,
    filename: Seq<char>,
    source: Seq<char>,
)
    ensures
        front_end(RunStage::Lex, outcomes, false, filename, source).1 <==> outcomes.len() >= 4
            && outcomes[0].passed && outcomes[1].passed && outcomes[2].passed
            && outcomes[3].passed,
        front_end(RunStage::Lex, outcomes, true, filename, source).1 <==> outcomes.len() >= 3
            && outcomes[0].passed && outcomes[1].passed && outcomes[2].passed,
{
    let a = outcomes.skip(1);
    let b = a.skip(1);
    let c = b.skip(1);
    lemma_front_end_unfolds(RunStage::Lex, outcomes, false, filename, source);
    lemma_front_end_unfolds(RunStage::Parse, a, false, filename, source);
    lemma_front_end_unfolds(RunStage::References, b, false, filename, source);
    lemma_front_end_unfolds(RunStage::Persistence, c, false, filename, source);
    lemma_front_end_unfolds(RunStage::Lex, outcomes, true, filename, source);
    lemma_front_end_unfolds(RunStage::Parse, a, true, filename, source);
    lemma_front_end_unfolds(RunStage::References, b, true, filename, source);
    if outcomes.len() > 1 {
        assert(a[0] == outcomes[1]);
    }
    if outcomes.len() > 2 {
        assert(b[0] == outcomes[2]);
    }
    if outcomes.len() > 3 {
        assert(c[0] == outcomes[3]);
    }
}

/// A stage that reports its errors has one line for each of them, in their order, under a heading
/// of its own. Reading and parsing report whatever errors there are; the others only report where
/// they did not pass.
pub proof fn lemma_stage_reports(
    stage: RunStage,
    passed: bool,
    old_source: bool,
    errors: Seq<SourceErrorView>,
    filename: Seq<char>,
    source: Seq<char>,
)
    ensures
        ({
            let lines = stage_lines(stage, passed, old_source, errors, filename, source);
            let reports = match stage {
                RunStage::Lex | RunStage::Parse => errors.len() > 0,
                RunStage::References | RunStage::Persistence => !passed,
            };
            &&& !reports ==> lines.len() == 0
            &&& reports ==> {
                &&& lines.len() == errors.len() + 1
                &&& stage == RunStage::Lex ==> lines[0] == if old_source {
                    "[OLD Lex Errors]"@
                } else {
                    "[Lex Errors]"@
                }
                &&& stage == RunStage::Parse ==> lines[0] == if old_source {
                    "[OLD Parse Errors]"@
                } else {
                    "[Parse Errors]"@
                }
                &&& stage == RunStage::References ==> lines[0] == if old_source {
                    "[OLD Reference Errors]"@
                } else {
                    "[Reference Errors]"@
                }
                &&& stage == RunStage::Persistence ==> lines[0] == "[Persistence Errors]"@
                &&& forall|i: int|
                    #![trigger errors[i]]
                    0 <= i < errors.len() ==> lines[i + 1] == ariadne_report(
                        filename,
                        source,
                        errors[i].span.start,
                        errors[i].span.end,
                        errors[i].message,
                        errors[i].reason,
                    )
            }
        }),
{
    let lines = stage_lines(stage, passed, old_source, errors, filename, source);
    let reports = match stage {
        RunStage::Lex | RunStage::Parse => errors.len() > 0,
        RunStage::References | RunStage::Persistence => !passed,
    };
    if reports {
        assert forall|i: int| #![trigger errors[i]] 0 <= i < errors.len() implies lines[i + 1]
            == ariadne_report(
            filename,
            source,
            errors[i].span.start,
            errors[i].span.end,
            errors[i].message,
            errors[i].reason,
        ) by {
            assert(lines[i + 1] == error_reports(errors, filename, source)[i]);
        }
    }
}

/// The lines of a stage come before those of the stages behind it, which there are only where it
/// has passed.
pub proof fn lemma_lines_in_order(
    stage: RunStage,
    first: StageOutcomeView,
    rest: Seq<StageOutcomeView>,
    old_source: bool,
    filename: Seq<char>,
    source: Seq<char>,
)
    ensures
        ({
            let lines = front_end(stage, seq![first] + rest, old_source, filename, source).0;
            let own = stage_lines(
                stage,
                first.passed,
                old_source,
                first.errors,
                filename,
                source,
            );
            let behind = |next: RunStage| front_end(next, rest, old_source, filename, source).0;
            &&& !first.passed ==> lines == own
            &&& first.passed && stage == RunStage::Lex ==> lines == own + behind(RunStage::Parse)
            &&& first.passed && stage == RunStage::Parse ==> lines == own + behind(
                RunStage::References,
            )
            &&& first.passed && stage == RunStage::References ==> lines == if old_source {
                own
            } else {
                own + behind(RunStage::Persistence)
            }
            &&& first.passed && stage == RunStage::Persistence ==> lines == own
        }),
{
    let all = seq![first] + rest;
    assert(all[0] == first);
    assert(all.skip(1) =~= rest);
}

/// A run that does not get to its end keeps nothing and has no program; one whose evaluation fails
/// says so in two more lines; and one that succeeds keeps its source, its identities and the states
/// of those that are still there.
pub proof fn lemma_outcomes_of_runs<V>(
    lines: Seq<Seq<char>>,
    evaluation: Result<Evaluated, Seq<char>>,
    source: Seq<char>,
    pairs: Seq<(Span, PersistenceId)>,
    states: Map<Seq<char>, V>,
    id: Seq<char>,
)
    ensures
        ({
            let stopped = run_result((lines, false), evaluation, source, pairs, Some(states));
            let done = run_result((lines, true), evaluation, source, pairs, Some(states));
            let stateless = run_result((lines, true), evaluation, source, pairs, None::<
                Map<Seq<char>, V>,
            >);
            &&& stopped.lines == lines && stopped.program is None && stopped.kept is None
            &&& match evaluation {
                Err(message) => {
                    &&& done.lines.len() == lines.len() + 2
                    &&& done.lines.take(lines.len() as int) == lines
                    &&& done.lines[lines.len() as int] == "[Evaluation Error]"@
                    &&& done.lines[(lines.len() + 1) as int] == message
                    &&& done.program is None && done.kept is None
                },
                Ok(program) => {
                    &&& done.lines == lines
                    &&& done.program == Some(program)
                    &&& done.kept matches Some(kept) && {
                        &&& kept.source_code == source
                        &&& kept.span_id_pairs == pairs
                        &&& kept.states matches Some(left) && {
                            &&& left.contains_key(id) <==> states.contains_key(id) && exists|i: int|
                                0 <= i < pairs.len() && ulid_name((#[trigger] pairs[i]).1.0) == id
                            &&& left.contains_key(id) ==> left[id] == states[id]
                        }
                    }
                    &&& stateless.kept matches Some(kept) && kept.states is None
                },
            }
        }),
{
    let done = run_result((lines, true), evaluation, source, pairs, Some(states));
    if evaluation is Err {
        assert(done.lines.take(lines.len() as int) =~= lines);
    } else {
        lemma_kept_states(states, pairs);
        let left = kept_states(states, pairs);
        assert(left.contains_key(id) <==> states.contains_key(id) && is_kept(id, pairs));
    }
}

/// A module has the functions and variables that its source defines, and of several of the same
/// name the last. Other expressions add nothing.
pub proof fn lemma_definitions_of_modules(
    before: Seq<SpannedExpressionView>,
    e: SpannedExpressionView,
    name: Seq<char>,
)
    ensures
        ({
            let was = module_of(before);
            let is = module_of(before.push(e));
            let none = module_of(Seq::empty());
            &&& !none.functions.contains_key(name) && !none.variables.contains_key(name)
            &&& match e.node {
                ExpressionView::Function { name: defined, parameters, body } => {
                    &&& is.functions.contains_key(defined)
                    &&& is.functions[defined].parameters == parameters
                    &&& is.functions[defined].body == *body
                    &&& name != defined ==> (is.functions.contains_key(name)
                        <==> was.functions.contains_key(name)) && is.functions[name]
                        == was.functions[name]
                    &&& is.variables == was.variables
                },
                ExpressionView::Variable(variable) => {
                    &&& is.variables.contains_key(variable.name)
                    &&& is.variables[variable.name] == variable.value
                    &&& name != variable.name ==> (is.variables.contains_key(name)
                        <==> was.variables.contains_key(name)) && is.variables[name]
                        == was.variables[name]
                    &&& is.functions == was.functions
                },
                _ => is == was,
            }
        }),
{
    assert(before.push(e).drop_last() =~= before);
}

/// A module is looked for in the current directory, if there is one, and then below the base
/// directory; in each of them as a file of its name, in a directory of its name, and among the
/// generated files.
pub proof fn lemma_places_of_modules(base: Seq<char>, module: Seq<char>, current: Seq<char>)
    requires
        base.len() > 0,
        current.len() > 0,
    ensures
        ({
            let below = module_files(base, module, Some(current));
            let without = module_files(base, module, None);
            let plain = module_files(Seq::empty(), module, None);
            &&& below.len() == 6
            &&& below[0] == current + "/"@ + (module + ".bn"@)
            &&& below[1] == current + "/"@ + (module + "/"@ + module + ".bn"@)
            &&& below[2] == current + "/"@ + ("Generated/"@ + module + ".bn"@)
            &&& below[3] == base + "/"@ + (module + ".bn"@)
            &&& below[4] == base + "/"@ + (module + "/"@ + module + ".bn"@)
            &&& below[5] == base + "/"@ + ("Generated/"@ + module + ".bn"@)
            &&& without.len() == 6
            &&& without[0] == below[3]
            &&& without[1] == below[4]
            &&& without[2] == below[5]
            &&& plain.len() == 6
            &&& plain[0] == module + ".bn"@
        }),
{
}

/// A module that is known is taken as it is. Another one is that of the first place where there is
/// one, and is then known; without any it stays unknown.
pub proof fn lemma_first_place_counts(
    loader: ModuleLoaderView,
    module: Seq<char>,
    current: Option<Seq<char>>,
    parsed: Map<Seq<char>, ModuleDataView>,
    i: int,
)
    ensures
        ({
            let places = module_files(loader.base_dir, module, current);
            let data = loaded_module(loader, module, current, parsed);
            let after = after_loading(loader, module, current, parsed);
            &&& loader.cache.contains_key(module) ==> data == Some(loader.cache[module])
            &&& !loader.cache.contains_key(module) ==> {
                &&& 0 <= i < places.len() && parsed.contains_key(places[i]) && (forall|j: int|
                    0 <= j < i ==> !parsed.contains_key(#[trigger] places[j])) ==> data == Some(
                    parsed[places[i]],
                )
                &&& (forall|j: int|
                    0 <= j < places.len() ==> !parsed.contains_key(#[trigger] places[j]))
                    ==> data is None
            }
            &&& data matches Some(found) ==> after.cache.contains_key(module)
                && after.cache[module] == found
            &&& data is None ==> after == loader
        }),
{
    let places = module_files(loader.base_dir, module, current);
    lemma_first_of(places, parsed, i);
}

proof fn lemma_first_of(
    places: Seq<Seq<char>>,
    parsed: Map<Seq<char>, ModuleDataView>,
    i: int,
)
    ensures
        0 <= i < places.len() && parsed.contains_key(places[i]) && (forall|j: int|
            0 <= j < i ==> !parsed.contains_key(#[trigger] places[j])) ==> first_module(
            places,
            parsed,
        ) == Some(parsed[places[i]]),
        (forall|j: int| 0 <= j < places.len() ==> !parsed.contains_key(#[trigger] places[j]))
            ==> first_module(places, parsed) is None,
    decreases places.len(),
{
    if places.len() > 0 {
        let rest = places.skip(1);
        lemma_first_of(rest, parsed, i - 1);
        if forall|j: int| 0 <= j < places.len() ==> !parsed.contains_key(#[trigger] places[j]) {
            assert forall|j: int| 0 <= j < rest.len() implies !parsed.contains_key(
                #[trigger] rest[j],
            ) by {
                assert(rest[j] == places[j + 1]);
            }
            assert(!parsed.contains_key(places[0]));
        }
        if 0 < i < places.len() && parsed.contains_key(places[i]) && (forall|j: int|
            0 <= j < i ==> !parsed.contains_key(#[trigger] places[j])) {
            assert forall|j: int| 0 <= j < i - 1 implies !parsed.contains_key(#[trigger] rest[j]) by {
                assert(rest[j] == places[j + 1]);
            }
            assert(rest[i - 1] == places[i]);
            assert(!parsed.contains_key(places[0]));
        }
    }
}

/// A link is looked for below what is passed, below the parameter of its first name, below the
/// variable that it refers to where that is near, and else below what the connector knows; a single
/// name is no link.
pub proof fn lemma_links_are_found(
    name: Seq<char>,
    rest: Seq<Seq<char>>,
    referenced: Option<Span>,
    ctx: EvaluationContextView,
)
    requires
        rest.len() > 0,
    ensures
        ({
            let c = ctx.actor_context;
            let passed = AliasView::WithPassed { extra_parts: rest };
            let short = AliasView::WithoutPassed { parts: seq![name], referenced_span: referenced };
            let long = AliasView::WithoutPassed {
                parts: seq![name] + rest,
                referenced_span: referenced,
            };
            let near = |span: Span| nat_text(span.start as nat) + ".."@ + nat_text(span.end as nat);
            &&& link_path(passed, ctx) == match c.passed {
                Some(actor) => Some((AliasRoot::Actor(actor), rest)),
                None => None,
            }
            &&& link_path(short, ctx) is None
            &&& c.parameters.contains_key(name) ==> link_path(long, ctx) == Some(
                (AliasRoot::Actor(c.parameters[name]), rest),
            )
            &&& !c.parameters.contains_key(name) && referenced is None ==> link_path(
                long,
                ctx,
            ) is None
            &&& !c.parameters.contains_key(name) && referenced is Some ==> {
                let span = referenced->0;
                &&& c.object_locals.contains_key(near(span)) ==> link_path(long, ctx) == Some(
                    (AliasRoot::Actor(c.object_locals[near(span)]), rest),
                )
                &&& !c.object_locals.contains_key(near(span)) && ctx.reference_connector
                    ==> link_path(long, ctx) == Some((AliasRoot::Reference(span), rest))
                &&& !c.object_locals.contains_key(near(span)) && !ctx.reference_connector
                    ==> link_path(long, ctx) is None
            }
        }),
{
    assert((seq![name] + rest).skip(1) =~= rest);
    assert((seq![name] + rest)[0] == name);
}


/// A module is read where it passes three stages, the first two of them without any error.
pub proof fn lemma_modules_that_are_read(
    lexed: StageOutcomeView,
    parsed: StageOutcomeView,
    resolved: StageOutcomeView,
    more: StageOutcomeView,
)
    ensures
        module_parsed(seq![lexed, parsed, resolved]) <==> lexed.passed && parsed.passed
            && resolved.passed && lexed.errors.len() == 0 && parsed.errors.len() == 0,
        !module_parsed(seq![lexed, parsed]),
        !module_parsed(seq![lexed, parsed, resolved, more]),
{
}

} // verus!
