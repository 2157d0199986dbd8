//! Patterns, fields, identities, modules and the stages of a run.
use boon::fields::{extract_field_path, extract_link, get_link_path_from_alias};
use boon::ids::{draw_ids, identity_text, scope_text, segment_text};
use boon::interpreter::{
    after_stage, evaluation_failed, parse_old, report_errors, retain_states, run,
    run_with_registry, RunAction, RunStage, SourceError, StageOutcome,
};
use boon::matching::match_pattern;
use boon::modules::{collect_module, parse_module, ModuleLoader};
use boon::plan::{
    ActorContext, AliasRoot, EvaluationContext, FunctionRegistry, PersistenceKey, Scope,
    ScopeSegment,
};
use boon::static_expression::{
    Alias, Expression, Literal, ModuleData, Pattern, PatternVariable, PersistenceId, Span,
    SpannedExpression, StaticFunctionDefinition, Variable,
};
use boon::text_map::TextMap;
use boon::value::{Field, ListEntry, Value};

fn s(text: &str) -> String {
    text.to_string()
}

fn text(content: &str) -> Value {
    Value::Text(s(content))
}

fn field(name: &str, value: Option<Value>) -> Field {
    Field { name: s(name), value, link: None }
}

fn object(fields: Vec<Field>) -> Value {
    Value::Object { fields }
}

fn bind(name: &str) -> PatternVariable {
    PatternVariable { name: s(name), value: None }
}

fn bindings(pattern: &Pattern, value: &Value) -> Option<Vec<(String, Value)>> {
    let found = match_pattern(pattern, value)?;
    Some((0..found.bindings.len()).map(|i| {
        let (name, value) = found.bindings.entry(i);
        (name.clone(), value.clone())
    }).collect())
}

#[test]
fn wild_cards_and_names_match_everything() {
    assert_eq!(bindings(&Pattern::WildCard, &text("a")), Some(vec![]));
    assert_eq!(
        bindings(&Pattern::Alias { name: s("x") }, &text("a")),
        Some(vec![(s("x"), text("a"))]),
    );
    assert_eq!(bindings(&Pattern::MapEntries, &text("a")), None);
}

#[test]
fn literals_match_their_own_kind() {
    let tag = Pattern::Literal(Literal::Tag(s("True")));
    assert_eq!(bindings(&tag, &Value::Tag(s("True"))), Some(vec![]));
    assert_eq!(bindings(&tag, &Value::Tag(s("False"))), None);
    assert_eq!(bindings(&tag, &text("True")), None);
    let word = Pattern::Literal(Literal::Text(s("a")));
    assert_eq!(bindings(&word, &text("a")), Some(vec![]));
    assert_eq!(bindings(&word, &text("b")), None);
    let number = Pattern::Literal(Literal::Number(1.0f64.to_bits()));
    let found = match_pattern(&number, &Value::Number(2.0f64.to_bits())).expect("up to its number");
    assert_eq!(found.numbers, vec![(1.0f64.to_bits(), 2.0f64.to_bits())]);
}

#[test]
fn objects_match_by_their_fields() {
    let pattern = Pattern::Object {
        variables: vec![
            bind("a"),
            PatternVariable { name: s("b"), value: Some(Pattern::Alias { name: s("inner") }) },
        ],
    };
    let value = object(vec![field("b", Some(text("2"))), field("a", Some(text("1"))), field("c", None)]);
    assert_eq!(
        bindings(&pattern, &value),
        Some(vec![(s("a"), text("1")), (s("inner"), text("2"))]),
    );
    assert_eq!(bindings(&pattern, &object(vec![field("a", Some(text("1")))])), None);
    assert_eq!(
        bindings(&pattern, &object(vec![field("a", Some(text("1"))), field("b", None)])),
        None,
    );
    let tagged = Value::TaggedObject {
        tag: s("Point"),
        fields: vec![field("a", Some(text("1"))), field("b", Some(text("2")))],
    };
    assert!(bindings(&pattern, &tagged).is_some());
    let named = |tag: &str| Pattern::TaggedObject { tag: s(tag), variables: vec![bind("a")] };
    assert_eq!(bindings(&named("Point"), &tagged), Some(vec![(s("a"), text("1"))]));
    assert_eq!(bindings(&named("Line"), &tagged), None);
    assert_eq!(bindings(&named("Point"), &value), None);
}

#[test]
fn lists_match_item_by_item() {
    let pattern = Pattern::List {
        items: vec![Pattern::Alias { name: s("x") }, Pattern::Alias { name: s("x") }],
    };
    let list = |values: Vec<Option<Value>>| Value::List {
        items: values.into_iter().map(|value| ListEntry { value }).collect(),
    };
    assert_eq!(
        bindings(&pattern, &list(vec![Some(text("1")), Some(text("2"))])),
        Some(vec![(s("x"), text("2"))]),
    );
    assert_eq!(bindings(&pattern, &list(vec![Some(text("1"))])), None);
    assert_eq!(bindings(&pattern, &list(vec![Some(text("1")), None])), None);
    assert_eq!(bindings(&pattern, &text("1")), None);
}

#[test]
fn paths_lead_through_fields() {
    let mut inner = field("link", Some(text("old")));
    inner.link = Some(9);
    let value = object(vec![
        field("elements", Some(object(vec![inner]))),
        field("empty", None),
    ]);
    let path = |names: &[&str]| names.iter().map(|name| s(name)).collect::<Vec<_>>();
    assert_eq!(extract_field_path(&value, &path(&[])), Some(value.clone()));
    assert_eq!(extract_field_path(&value, &path(&["elements", "link"])), Some(text("old")));
    assert_eq!(extract_field_path(&value, &path(&["elements", "other"])), None);
    assert_eq!(extract_field_path(&value, &path(&["empty"])), None);
    assert_eq!(extract_field_path(&text("a"), &path(&["x"])), None);
    assert_eq!(extract_link(&value, &path(&["elements", "link"])), Some(9));
    assert_eq!(extract_link(&value, &path(&["elements"])), None);
    assert_eq!(extract_link(&value, &path(&[])), None);
}

#[test]
fn the_way_to_a_link_starts_at_what_is_known() {
    let mut ctx = EvaluationContext::new(ActorContext::default());
    let alias = |parts: &[&str], referenced_span: Option<Span>| Alias::WithoutPassed {
        parts: parts.iter().map(|part| s(part)).collect(),
        referenced_span,
    };
    let place = Span { start: 1, end: 2 };
    assert_eq!(get_link_path_from_alias(&alias(&["item", "button"], None), &ctx), None);
    assert_eq!(
        get_link_path_from_alias(&alias(&["store", "button"], Some(place)), &ctx),
        Some((AliasRoot::Reference(place), vec![s("button")])),
    );
    ctx.actor_context.object_locals.insert(s("1..2"), 4);
    assert_eq!(
        get_link_path_from_alias(&alias(&["store", "button"], Some(place)), &ctx),
        Some((AliasRoot::Actor(4), vec![s("button")])),
    );
    ctx.actor_context.parameters.insert(s("store"), 5);
    assert_eq!(
        get_link_path_from_alias(&alias(&["store", "button"], Some(place)), &ctx),
        Some((AliasRoot::Actor(5), vec![s("button")])),
    );
    assert_eq!(get_link_path_from_alias(&alias(&["store"], Some(place)), &ctx), None);
    let passed = Alias::WithPassed { extra_parts: vec![s("elements"), s("button")] };
    assert_eq!(get_link_path_from_alias(&passed, &ctx), None);
    let passing = ctx.with_passed(6);
    assert_eq!(
        get_link_path_from_alias(&passed, &passing),
        Some((AliasRoot::Actor(6), vec![s("elements"), s("button")])),
    );
}

#[test]
fn identities_are_written_in_base_32() {
    assert_eq!(identity_text(PersistenceId(0)), "00000000000000000000000000");
    assert_eq!(identity_text(PersistenceId(31)), "0000000000000000000000000Z");
    assert_eq!(identity_text(PersistenceId(32)), "00000000000000000000000010");
    assert_eq!(identity_text(PersistenceId(u128::MAX)), "7ZZZZZZZZZZZZZZZZZZZZZZZZZ");
    assert_eq!(identity_text(PersistenceId(0x1234)), "000000000000000000000004HM");
}

#[test]
fn drawn_identities_differ() {
    let ids = draw_ids(50);
    assert_eq!(ids.len(), 50);
    for (i, a) in ids.iter().enumerate() {
        for b in &ids[i + 1..] {
            assert_ne!(a, b);
        }
    }
}

#[test]
fn scopes_are_named_by_their_levels() {
    let drawn = vec![PersistenceId(31)];
    let stored = PersistenceKey::Stored(PersistenceId(12));
    let fresh = PersistenceKey::Fresh(0);
    let segments = vec![
        ScopeSegment::ListItem { index: 2, key: stored },
        ScopeSegment::ListItem { index: 0, key: fresh },
        ScopeSegment::WhileArm { index: 1 },
        ScopeSegment::ListAppend { span: Span { start: 3, end: 14 } },
        ScopeSegment::Call { key: stored },
        ScopeSegment::Invocation { id: s("call_0") },
    ];
    let names: Vec<String> = segments.iter().map(|segment| segment_text(segment, &drawn)).collect();
    assert_eq!(names, vec![
        s("list_item_2_12"),
        s("list_item_0_0000000000000000000000000Z"),
        s("while_arm_1"),
        s("list_append_3..14"),
        s("0000000000000000000000000C"),
        s("call_0"),
    ]);
    assert_eq!(scope_text(&Scope { segments }, &drawn), Some(names.join(":")));
    assert_eq!(scope_text(&Scope { segments: vec![] }, &drawn), None);
}

fn expression(node: Expression) -> SpannedExpression {
    SpannedExpression { span: Span { start: 0, end: 1 }, persistence: None, node }
}

fn word(content: &str) -> SpannedExpression {
    expression(Expression::Literal(Literal::Text(s(content))))
}

fn definition(name: &str, content: &str) -> SpannedExpression {
    expression(Expression::Variable(Box::new(Variable {
        name: s(name),
        value: word(content),
        is_referenced: false,
    })))
}

fn module(content: &str) -> ModuleData {
    collect_module(&vec![
        definition("name", "first"),
        expression(Expression::Function {
            name: s("make"),
            parameters: vec![s("x")],
            body: Box::new(word(content)),
        }),
        expression(Expression::Skip),
        definition("name", content),
    ])
}

#[test]
fn modules_hold_functions_and_variables() {
    let data = module("last");
    assert_eq!(data.variables.len(), 1);
    assert_eq!(data.variables.get("name"), Some(&word("last")));
    assert_eq!(data.functions.len(), 1);
    let make = data.functions.get("make").expect("the function");
    assert_eq!(make.parameters, vec![s("x")]);
    assert_eq!(make.body, word("last"));
}

#[test]
fn modules_are_looked_for_in_an_order() {
    let loader = ModuleLoader::default();
    assert_eq!(loader.module_paths("Theme", None), vec![
        s("Theme.bn"),
        s("Theme/Theme.bn"),
        s("Generated/Theme.bn"),
        s("Theme.bn"),
        s("Theme/Theme.bn"),
        s("Generated/Theme.bn"),
    ]);
    let loader = ModuleLoader::new("src");
    assert_eq!(loader.module_paths("Theme", Some("app")), vec![
        s("app/Theme.bn"),
        s("app/Theme/Theme.bn"),
        s("app/Generated/Theme.bn"),
        s("src/Theme.bn"),
        s("src/Theme/Theme.bn"),
        s("src/Generated/Theme.bn"),
    ]);
}

#[test]
fn a_module_is_loaded_once() {
    let mut loader = ModuleLoader::new("src");
    let mut parsed = TextMap::new();
    parsed.insert(s("src/Theme/Theme.bn"), module("one"));
    parsed.insert(s("src/Generated/Theme.bn"), module("two"));
    assert_eq!(loader.load_module("Other", None, &parsed), None);
    assert_eq!(loader.get_cached("Theme"), None);
    assert_eq!(loader.load_module("Theme", None, &parsed), Some(module("one")));
    assert_eq!(loader.get_cached("Theme"), Some(module("one")));
    assert_eq!(loader.load_module("Theme", None, &TextMap::new()), Some(module("one")));
    assert_eq!(loader.get_variable("Theme", "name", None, &parsed), Some(word("one")));
    assert_eq!(loader.get_variable("Theme", "missing", None, &parsed), None);
    assert!(loader.get_function("Theme", "make", None, &parsed).is_some());
    assert!(loader.get_function("Other", "make", None, &parsed).is_none());
    loader.set_base_dir("lib");
    assert_eq!(loader.base_dir(), "lib");
    loader.cache(s("Other"), module("three"));
    assert_eq!(loader.load_module("Other", None, &parsed), Some(module("three")));
}

fn error(start: u64, end: u64) -> SourceError {
    SourceError { span: Span { start, end }, message: s("unexpected token"), reason: s("found here") }
}

#[test]
fn errors_are_reported_with_their_place() {
    let source = "first: 1\nsecond: ?\n";
    let reports = report_errors(&vec![error(17, 18), error(0, 5)], "main.bn", source);
    assert_eq!(reports.len(), 2);
    assert!(reports[0].starts_with("Error: unexpected token\n"), "{}", reports[0]);
    assert!(reports[0].contains("main.bn:2:9"), "{}", reports[0]);
    assert!(reports[0].contains("second: ?"), "{}", reports[0]);
    assert!(reports[0].contains("found here"), "{}", reports[0]);
    assert!(reports[1].contains("main.bn:1:1"), "{}", reports[1]);
    for place in [error(18, 18), error(19, 19), error(19, 20), error(40, 50), error(0, 19)] {
        assert_eq!(report_errors(&vec![place], "main.bn", source).len(), 1);
    }
    assert_eq!(report_errors(&vec![error(0, 0), error(0, 1)], "main.bn", "").len(), 2);
}

#[test]
fn a_run_goes_from_stage_to_stage() {
    let none = Vec::new();
    let step = |stage, passed, old| after_stage(stage, passed, old, &none, "main.bn", "x");
    assert_eq!(step(RunStage::Lex, true, false).next, RunAction::Enter(RunStage::Parse));
    assert_eq!(step(RunStage::Parse, true, false).next, RunAction::Enter(RunStage::References));
    assert_eq!(step(RunStage::References, true, false).next, RunAction::Enter(RunStage::Persistence));
    assert_eq!(step(RunStage::References, true, true).next, RunAction::Finish);
    assert_eq!(step(RunStage::Persistence, true, false).next, RunAction::Finish);
    assert_eq!(step(RunStage::Parse, false, false).next, RunAction::Stop);
    assert!(step(RunStage::Parse, false, false).lines.is_empty());
    assert_eq!(step(RunStage::References, false, true).lines, vec![s("[OLD Reference Errors]")]);
}

#[test]
fn a_stage_speaks_of_its_errors() {
    let errors = vec![error(0, 1)];
    let step = after_stage(RunStage::Lex, true, false, &errors, "main.bn", "x");
    assert_eq!(step.lines[0], "[Lex Errors]");
    assert_eq!(step.lines[1..], report_errors(&errors, "main.bn", "x")[..]);
    assert_eq!(step.next, RunAction::Enter(RunStage::Parse));
    let step = after_stage(RunStage::Persistence, false, false, &errors, "main.bn", "x");
    assert_eq!(step.lines[0], "[Persistence Errors]");
    assert_eq!(step.next, RunAction::Stop);
    assert_eq!(evaluation_failed(&s("no such function")), vec![s("[Evaluation Error]"), s("no such function")]);
}

#[test]
fn states_of_parts_that_are_gone_are_dropped() {
    let place = Span { start: 0, end: 1 };
    let mut states = TextMap::new();
    for id in [1, 2, 3] {
        states.insert(identity_text(PersistenceId(id)), id);
    }
    retain_states(&mut states, &vec![(place, PersistenceId(3)), (place, PersistenceId(1)), (place, PersistenceId(9))]);
    assert_eq!(states.len(), 2);
    assert_eq!(states.get(&identity_text(PersistenceId(1))), Some(&1));
    assert_eq!(states.get(&identity_text(PersistenceId(2))), None);
    assert_eq!(states.get(&identity_text(PersistenceId(3))), Some(&3));
    retain_states(&mut states, &vec![]);
    assert_eq!(states.len(), 0);
}

fn passed() -> StageOutcome {
    StageOutcome { passed: true, errors: vec![] }
}

fn failed() -> StageOutcome {
    StageOutcome { passed: false, errors: vec![error(0, 1)] }
}

#[test]
fn a_module_is_parsed_without_errors_alone() {
    let top = vec![definition("name", "a")];
    let data = parse_module(&vec![passed(), passed(), passed()], &top).expect("a module");
    assert_eq!(data.variables.get("name"), Some(&word("a")));
    let noted = StageOutcome { passed: true, errors: vec![error(0, 1)] };
    assert_eq!(parse_module(&vec![noted], &top), None);
    let noted = StageOutcome { passed: true, errors: vec![error(0, 1)] };
    assert_eq!(parse_module(&vec![passed(), noted, passed()], &top), None);
    assert_eq!(parse_module(&vec![passed(), passed(), failed()], &top), None);
}

#[test]
fn the_source_that_was_run_last_goes_through_three_stages() {
    let (lines, done) = parse_old(&vec![passed(), passed(), passed()], "main.bn", "x");
    assert!(lines.is_empty() && done);
    let (lines, done) = parse_old(&vec![passed(), failed()], "main.bn", "x");
    assert_eq!(lines[0], "[OLD Parse Errors]");
    assert!(lines.len() == 2 && !done);
}

fn named_variable(name: &str, value: SpannedExpression) -> SpannedExpression {
    SpannedExpression {
        span: Span { start: 0, end: 9 },
        persistence: Some(PersistenceId(1)),
        node: Expression::Variable(Box::new(Variable { name: s(name), value, is_referenced: false })),
    }
}

fn stages() -> Vec<StageOutcome> {
    vec![passed(), passed(), passed(), passed()]
}

fn saved_states() -> TextMap<u32> {
    let mut states = TextMap::new();
    states.insert(identity_text(PersistenceId(1)), 10);
    states.insert(identity_text(PersistenceId(2)), 20);
    states
}

#[test]
fn a_run_keeps_the_source_and_the_states_of_its_parts() {
    let source = "count: 1";
    let pairs = vec![(Span { start: 0, end: 9 }, PersistenceId(1))];
    let program = vec![named_variable("count", word("1"))];
    let done = run("main.bn", source, &stages(), &program, pairs.clone(), Some(saved_states()));
    assert!(done.lines.is_empty());
    assert_eq!(done.program.expect("a program").variables[0].name, "count");
    let kept = done.kept.expect("something is kept");
    assert_eq!(kept.source_code, source);
    assert_eq!(kept.span_id_pairs, pairs);
    let states = kept.states.expect("there are states");
    assert_eq!(states.len(), 1);
    assert_eq!(states.get(&identity_text(PersistenceId(1))), Some(&10));
    let done = run::<u32>("main.bn", source, &stages(), &program, vec![], None);
    assert_eq!(done.kept.expect("something is kept").states, None);
}

#[test]
fn a_run_that_fails_keeps_nothing() {
    let program = vec![word("1")];
    let done = run("main.bn", "1", &stages(), &program, vec![], Some(saved_states()));
    assert!(done.program.is_none() && done.kept.is_none());
    assert_eq!(done.lines, vec![
        s("[Evaluation Error]"),
        s("Only variables or functions expected at top level (span: 0..1)"),
    ]);
    let done = run("main.bn", "1", &vec![passed(), failed()], &program, vec![], Some(saved_states()));
    assert!(done.program.is_none() && done.kept.is_none());
    assert_eq!(done.lines[0], "[Parse Errors]");
}

#[test]
fn a_run_can_call_the_functions_of_another_one() {
    let call = SpannedExpression {
        span: Span { start: 0, end: 9 },
        persistence: Some(PersistenceId(2)),
        node: Expression::FunctionCall { path: vec![s("one")], arguments: vec![] },
    };
    let program = vec![named_variable("count", call)];
    let mut registry = FunctionRegistry::new();
    registry.insert(s("one"), StaticFunctionDefinition { parameters: vec![], body: word("1") });
    let done = run_with_registry::<u32>("main.bn", "x", &stages(), &program, vec![], None, Some(registry));
    assert!(done.program.expect("a program").function_registry.get("one").is_some());
    let done = run_with_registry::<u32>("main.bn", "x", &stages(), &program, vec![], None, None);
    assert!(done.program.is_none());
}
