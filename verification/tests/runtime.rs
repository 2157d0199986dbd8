//! The runtime, driven as a host drives it: what it asks for is laid out as a tree whose
//! elements and ports get identities, events and facts go back in.
use boon::runtime::{
    bootstrap_runtime, AttachedPort, ExecEventBinding, ExecFactBinding, ExecProgram, RenderRequest,
    WasmProRuntime,
};
use boon::scene::{
    EventPortId, NodeId, UiEvent, UiEventBatch, UiEventKind, UiFact, UiFactBatch, UiFactKind,
};
use boon::semantic_ir::{
    DerivedArithmeticOp, DerivedScalarOperand, DerivedScalarSpec, IntCompareOp,
    ObjectDerivedScalarOperand, ObjectItemActionKind, ObjectItemActionSpec, ObjectListFilter,
    ObjectListItem, ObjectListUpdate, RuntimeModel, ScalarRuntimeModel, ScalarUpdate,
    SemanticAction, SemanticEventBinding, SemanticFactBinding, SemanticFactKind,
    SemanticInputValue, SemanticNode, SemanticProgram, SemanticStyleFragment, SemanticTextPart,
    StateRuntimeModel, TextListFilter, TextListTemplate, TextListUpdate, TextUpdate,
};
use boon::text_map::TextMap;

#[derive(Debug, Clone)]
struct UiNode {
    id: NodeId,
    tag: Option<String>,
    text: Option<String>,
    properties: Vec<(String, String)>,
    ports: Vec<(UiEventKind, EventPortId)>,
    children: Vec<UiNode>,
}

struct Host {
    runtime: WasmProRuntime,
    next_id: u128,
    root: Option<UiNode>,
    descriptor: u64,
}

struct Bindings {
    ports: Vec<AttachedPort>,
    events: Vec<ExecEventBinding>,
    facts: Vec<ExecFactBinding>,
}

impl Host {
    fn new(runtime: WasmProRuntime) -> Host {
        Host { runtime, next_id: 0, root: None, descriptor: 0 }
    }

    fn start(program: SemanticProgram) -> Host {
        let exec = unrendered(program);
        let mut host = Host::new(WasmProRuntime::new(0, 0, false));
        let request = host.runtime.init(&exec);
        host.render(request);
        host
    }

    fn fresh(&mut self) -> u128 {
        self.next_id += 1;
        self.next_id
    }

    fn lay_out(&mut self, node: &SemanticNode, out: &mut Vec<UiNode>, bindings: &mut Bindings) {
        match node {
            SemanticNode::Fragment(nodes) => {
                for inner in nodes {
                    self.lay_out(inner, out, bindings);
                }
            }
            SemanticNode::Keyed { node, .. } => self.lay_out(node, out, bindings),
            SemanticNode::Text(text) => out.push(UiNode {
                id: NodeId(self.fresh()),
                tag: None,
                text: Some(text.clone()),
                properties: Vec::new(),
                ports: Vec::new(),
                children: Vec::new(),
            }),
            SemanticNode::Element { tag, text, properties, event_bindings, fact_bindings, children, .. } => {
                let id = NodeId(self.fresh());
                let mut ports = Vec::new();
                for binding in event_bindings {
                    let port = EventPortId(self.fresh());
                    ports.push((binding.kind, port));
                    bindings.ports.push(AttachedPort { id, port });
                    bindings.events.push(ExecEventBinding {
                        port,
                        action: binding.action.clone(),
                        source_binding: binding.source_binding.clone(),
                    });
                }
                for fact in fact_bindings {
                    bindings.facts.push(ExecFactBinding { id, kind: fact.kind, binding: fact.binding.clone() });
                }
                let mut inner = Vec::new();
                for child in children {
                    self.lay_out(child, &mut inner, bindings);
                }
                out.push(UiNode {
                    id,
                    tag: Some(tag.clone()),
                    text: text.clone(),
                    properties: properties.clone(),
                    ports,
                    children: inner,
                });
            }
            SemanticNode::TextList { values, template, .. } => {
                for value in values {
                    let text = UiNode {
                        id: NodeId(self.fresh()),
                        tag: None,
                        text: Some(format!("{}{}{}", template.prefix, value, template.suffix)),
                        properties: Vec::new(),
                        ports: Vec::new(),
                        children: Vec::new(),
                    };
                    out.push(UiNode {
                        id: NodeId(self.fresh()),
                        tag: Some(template.tag.clone()),
                        text: None,
                        properties: template.properties.clone(),
                        ports: Vec::new(),
                        children: vec![text],
                    });
                }
            }
            other => panic!("left unresolved: {other:?}"),
        }
    }

    fn render(&mut self, request: RenderRequest) -> bool {
        match request {
            RenderRequest::Nothing => {
                self.descriptor = 0;
                false
            }
            RenderRequest::Status(program) => {
                let mut bindings = Bindings { ports: Vec::new(), events: Vec::new(), facts: Vec::new() };
                let mut roots = Vec::new();
                self.lay_out(&program.root, &mut roots, &mut bindings);
                self.root = roots.pop();
                self.descriptor = self.runtime.queue_commands(format!("{:?}", self.root).as_bytes());
                true
            }
            RenderRequest::Program(program) => {
                let mut bindings = Bindings { ports: Vec::new(), events: Vec::new(), facts: Vec::new() };
                let mut roots = Vec::new();
                self.lay_out(&program.root, &mut roots, &mut bindings);
                self.root = roots.pop();
                let exec = ExecProgram {
                    semantic_root: program.root,
                    runtime: program.runtime,
                    attached_ports: bindings.ports,
                    event_bindings: bindings.events,
                    fact_bindings: bindings.facts,
                };
                let bytes = format!("{:?}", self.root);
                self.descriptor = self.runtime.commit_program(&exec, bytes.as_bytes());
                assert_eq!(self.runtime.decode_commands(self.descriptor), bytes.as_bytes());
                true
            }
        }
    }

    fn dispatch(&mut self, events: Vec<UiEvent>) -> bool {
        let request = self.runtime.dispatch_events(UiEventBatch { events });
        self.render(request)
    }

    fn send(&mut self, target: EventPortId, kind: UiEventKind, payload: Option<&str>) -> bool {
        let payload = payload.map(str::to_string);
        self.dispatch(vec![UiEvent { target, kind, payload }])
    }

    fn facts(&mut self, facts: Vec<UiFact>) -> bool {
        let request = self.runtime.apply_facts(UiFactBatch { facts });
        self.render(request)
    }

    fn root(&self) -> &UiNode {
        self.root.as_ref().expect("something should be rendered")
    }

    fn at(&self, path: &[usize]) -> &UiNode {
        let mut node = self.root();
        for index in path {
            node = &node.children[*index];
        }
        node
    }

    fn text_at(&self, path: &[usize]) -> &str {
        let node = self.at(path);
        assert!(node.tag.is_none(), "expected a text at {path:?}");
        node.text.as_deref().unwrap()
    }

    fn port_at(&self, path: &[usize], kind: UiEventKind) -> EventPortId {
        port(self.at(path), kind)
    }
}

fn unrendered(program: SemanticProgram) -> ExecProgram {
    ExecProgram {
        semantic_root: program.root,
        runtime: program.runtime,
        attached_ports: Vec::new(),
        event_bindings: Vec::new(),
        fact_bindings: Vec::new(),
    }
}

fn port(node: &UiNode, kind: UiEventKind) -> EventPortId {
    node.ports
        .iter()
        .find(|(found, _)| *found == kind)
        .map(|(_, port)| *port)
        .expect("the element should have such a port")
}

fn property<'a>(node: &'a UiNode, name: &str) -> Option<&'a str> {
    node.properties.iter().find(|(found, _)| found == name).map(|(_, value)| value.as_str())
}

fn tree_contains_text(node: &UiNode, expected: &str) -> bool {
    node.text.as_deref() == Some(expected)
        || node.children.iter().any(|child| tree_contains_text(child, expected))
}

fn find_first_tag_with_text<'a>(node: &'a UiNode, tag: &str, text: &str) -> Option<&'a UiNode> {
    if let Some(found) =
        node.children.iter().find_map(|child| find_first_tag_with_text(child, tag, text))
    {
        return Some(found);
    }
    if node.tag.as_deref() == Some(tag) && tree_contains_text(node, text) {
        Some(node)
    } else {
        None
    }
}

fn find_first_tag<'a>(node: &'a UiNode, tag: &str) -> Option<&'a UiNode> {
    if node.tag.as_deref() == Some(tag) {
        return Some(node);
    }
    node.children.iter().find_map(|child| find_first_tag(child, tag))
}

fn s(text: &str) -> String {
    text.to_string()
}

fn map<V>(entries: Vec<(&str, V)>) -> TextMap<V> {
    let mut out = TextMap::new();
    for (key, value) in entries {
        out.insert(s(key), value);
    }
    out
}

fn stripe(children: Vec<SemanticNode>) -> SemanticNode {
    SemanticNode::element("div", None, Vec::new(), Vec::new(), children)
}

fn label(content: SemanticNode) -> SemanticNode {
    SemanticNode::element("span", None, Vec::new(), Vec::new(), vec![content])
}

fn with_events(tag: &str, events: Vec<SemanticEventBinding>, content: Vec<SemanticNode>) -> SemanticNode {
    SemanticNode::element(tag, None, Vec::new(), events, content)
}

fn on(kind: UiEventKind, source: &str, action: Option<SemanticAction>) -> SemanticEventBinding {
    SemanticEventBinding { kind, source_binding: Some(s(source)), action }
}

fn click(action: SemanticAction) -> SemanticEventBinding {
    SemanticEventBinding { kind: UiEventKind::Click, source_binding: None, action: Some(action) }
}

fn button(text: &str, action: SemanticAction) -> SemanticNode {
    with_events("button", vec![click(action)], vec![SemanticNode::text(text)])
}

fn scalars(updates: Vec<ScalarUpdate>) -> SemanticAction {
    SemanticAction::UpdateScalars { updates }
}

fn item(id: u64, title: &str) -> ObjectListItem {
    ObjectListItem {
        id,
        title: s(title),
        completed: false,
        text_fields: TextMap::new(),
        bool_fields: TextMap::new(),
        scalar_fields: TextMap::new(),
        object_lists: TextMap::new(),
        nested_item_actions: TextMap::new(),
    }
}

fn state() -> StateRuntimeModel {
    StateRuntimeModel {
        scalar_values: TextMap::new(),
        text_values: TextMap::new(),
        text_lists: TextMap::new(),
        object_lists: TextMap::new(),
        input_texts: TextMap::new(),
        derived_scalars: Vec::new(),
    }
}

fn program(root: SemanticNode, model: StateRuntimeModel) -> SemanticProgram {
    SemanticProgram { root, runtime: RuntimeModel::State(model) }
}

fn parts(before: &str, part: SemanticTextPart) -> SemanticNode {
    SemanticNode::text_template(vec![SemanticTextPart::Static(s(before)), part], "")
}

fn fact(id: NodeId, kind: UiFactKind) -> UiFact {
    UiFact { id, kind }
}

#[test]
fn init_queues_replace_root_batch() {
    let exec = unrendered(SemanticProgram {
        root: SemanticNode::element(
            "section",
            Some("WasmPro runtime scaffold".to_string()),
            Vec::new(),
            Vec::new(),
            vec![SemanticNode::text("child")],
        ),
        runtime: RuntimeModel::Static,
    });
    let mut host = Host::new(WasmProRuntime::new(12, 0, false));

    let request = host.runtime.init(&exec);
    assert!(host.render(request));

    assert_eq!(host.root().tag.as_deref(), Some("section"));
    assert_eq!(host.root().text.as_deref(), Some("WasmPro runtime scaffold"));
    assert_eq!(host.text_at(&[0]), "child");
}

#[test]
fn dispatch_events_updates_status_batch() {
    let mut host = Host::new(bootstrap_runtime("source", 0, false));
    assert!(host.send(EventPortId(1), UiEventKind::Click, None));

    assert_eq!(host.text_at(&[5]), "Event batches: 1");
    assert_eq!(host.text_at(&[7]), "Last event: Click payload=none");
}

#[test]
fn apply_facts_updates_status_batch() {
    let mut host = Host::new(bootstrap_runtime("source", 0, false));
    assert!(host.facts(vec![fact(NodeId(1), UiFactKind::Focused(true))]));

    assert_eq!(host.text_at(&[6]), "Fact batches: 1");
    assert_eq!(host.text_at(&[9]), "Focused: yes");
}

#[test]
fn take_commands_returns_pending_descriptor_once() {
    let exec = unrendered(SemanticProgram {
        root: SemanticNode::element("div", Some("root".to_string()), Vec::new(), Vec::new(), Vec::new()),
        runtime: RuntimeModel::Static,
    });
    let mut host = Host::new(WasmProRuntime::new(4, 0, false));

    let request = host.runtime.init(&exec);
    host.render(request);

    assert_ne!(host.descriptor, 0);
    assert_eq!(host.runtime.take_commands(), host.descriptor);
    assert_eq!(host.runtime.take_commands(), 0);
}

#[test]
fn input_event_updates_draft_text() {
    let mut host = Host::new(bootstrap_runtime("source", 0, false));
    assert!(host.send(EventPortId(1), UiEventKind::Input, Some("cells")));

    assert_eq!(host.text_at(&[7]), "Last event: Input payload=cells");
}

#[test]
fn init_renders_static_text_root_without_status_scaffold() {
    let host = Host::start(SemanticProgram {
        root: SemanticNode::text("Hello world"),
        runtime: RuntimeModel::Static,
    });

    assert_eq!(host.text_at(&[]), "Hello world");
}

#[test]
fn counter_action_updates_rendered_value() {
    let mut host = Host::start(SemanticProgram {
        root: SemanticNode::element(
            "div",
            None,
            Vec::new(),
            Vec::new(),
            vec![
                SemanticNode::ScalarValue { binding: "counter".to_string(), value: 0 },
                SemanticNode::element(
                    "button",
                    Some("+".to_string()),
                    Vec::new(),
                    vec![SemanticEventBinding {
                        kind: UiEventKind::Click,
                        source_binding: None,
                        action: Some(SemanticAction::UpdateScalars {
                            updates: vec![ScalarUpdate::Add { binding: "counter".to_string(), delta: 1 }],
                        }),
                    }],
                    Vec::new(),
                ),
            ],
        ),
        runtime: RuntimeModel::Scalars(ScalarRuntimeModel { values: map(vec![("counter", 0)]) }),
    });
    assert_eq!(host.text_at(&[0]), "0");

    let port = host.port_at(&[1], UiEventKind::Click);
    assert!(host.send(port, UiEventKind::Click, None));
    assert_eq!(host.text_at(&[0]), "1");
}

#[test]
fn text_template_rerenders_from_scalar_state() {
    let mut host = Host::start(SemanticProgram {
        root: SemanticNode::element(
            "div",
            None,
            Vec::new(),
            Vec::new(),
            vec![
                SemanticNode::text_template(
                    vec![
                        SemanticTextPart::Static("Sum: ".to_string()),
                        SemanticTextPart::ScalarBinding("sum".to_string()),
                    ],
                    "Sum: 7",
                ),
                SemanticNode::element(
                    "button",
                    Some("Send 1".to_string()),
                    Vec::new(),
                    vec![SemanticEventBinding {
                        kind: UiEventKind::Click,
                        source_binding: None,
                        action: Some(SemanticAction::UpdateScalars {
                            updates: vec![ScalarUpdate::Add { binding: "sum".to_string(), delta: 1 }],
                        }),
                    }],
                    Vec::new(),
                ),
            ],
        ),
        runtime: RuntimeModel::Scalars(ScalarRuntimeModel { values: map(vec![("sum", 7)]) }),
    });
    assert_eq!(host.text_at(&[0]), "Sum: 7");

    let port = host.port_at(&[1], UiEventKind::Click);
    assert!(host.send(port, UiEventKind::Click, None));
    assert_eq!(host.text_at(&[0]), "Sum: 8");
}

#[test]
fn hover_fact_updates_element_hover_branch() {
    let mut host = Host::start(program(
        SemanticNode::element_with_facts(
            "div",
            None,
            Vec::new(),
            Vec::new(),
            vec![SemanticFactBinding { kind: SemanticFactKind::Hovered, binding: s("__element__.hovered") }],
            vec![SemanticNode::bool_branch(
                "__element__.hovered",
                label(SemanticNode::text("Hovered")),
                SemanticNode::Fragment(Vec::new()),
            )],
        ),
        state(),
    ));
    assert!(!tree_contains_text(host.root(), "Hovered"));

    let id = host.root().id;
    assert!(host.facts(vec![fact(id, UiFactKind::Hovered(true))]));
    assert!(tree_contains_text(host.root(), "Hovered"));

    let id = host.root().id;
    assert!(host.facts(vec![fact(id, UiFactKind::Hovered(false))]));
    assert!(!tree_contains_text(host.root(), "Hovered"));
}

#[test]
fn focus_fact_updates_element_focus_branch() {
    let mut host = Host::start(program(
        SemanticNode::element_with_facts(
            "button",
            None,
            Vec::new(),
            Vec::new(),
            vec![SemanticFactBinding { kind: SemanticFactKind::Focused, binding: s("__element__.focused") }],
            vec![SemanticNode::bool_branch(
                "__element__.focused",
                SemanticNode::text("Focused"),
                SemanticNode::text("Idle"),
            )],
        ),
        state(),
    ));
    assert!(tree_contains_text(host.root(), "Idle"));
    assert!(!tree_contains_text(host.root(), "Focused"));

    let id = host.root().id;
    assert!(host.facts(vec![fact(id, UiFactKind::Focused(true))]));
    assert!(tree_contains_text(host.root(), "Focused"));
    assert!(!tree_contains_text(host.root(), "Idle"));
}

#[test]
fn focus_fact_is_scoped_per_helper_instance() {
    let focus_button = |text: &str| {
        SemanticNode::element_with_facts(
            "div",
            None,
            Vec::new(),
            Vec::new(),
            vec![SemanticFactBinding { kind: SemanticFactKind::Focused, binding: s("__element__.focused") }],
            vec![
                SemanticNode::text(text),
                SemanticNode::bool_branch(
                    "__element__.focused",
                    SemanticNode::text("active"),
                    SemanticNode::text("idle"),
                ),
            ],
        )
    };
    let mut host = Host::start(program(stripe(vec![focus_button("Left"), focus_button("Right")]), state()));
    let left = find_first_tag_with_text(host.root(), "div", "Left").expect("left should render").id;

    assert!(host.facts(vec![fact(left, UiFactKind::Focused(true))]));
    let left_after = find_first_tag_with_text(host.root(), "div", "Left").unwrap().clone();
    let right_after = find_first_tag_with_text(host.root(), "div", "Right").unwrap().clone();
    assert!(tree_contains_text(&left_after, "active"));
    assert!(tree_contains_text(&right_after, "idle"));

    assert!(host.facts(vec![
        fact(left_after.id, UiFactKind::Focused(false)),
        fact(right_after.id, UiFactKind::Focused(true)),
    ]));
    let left_after = find_first_tag_with_text(host.root(), "div", "Left").unwrap();
    let right_after = find_first_tag_with_text(host.root(), "div", "Right").unwrap();
    assert!(tree_contains_text(left_after, "idle"));
    assert!(tree_contains_text(right_after, "active"));
}

#[test]
fn complex_counter_buttons_update_nested_scalar_binding() {
    let step = |delta: i64| {
        scalars(vec![ScalarUpdate::Add { binding: s("store.counter"), delta }])
    };
    let mut model = state();
    model.scalar_values = map(vec![("store.counter", 0)]);
    let mut host = Host::start(program(
        stripe(vec![
            button("-", step(-1)),
            SemanticNode::ScalarValue { binding: s("store.counter"), value: 0 },
            button("+", step(1)),
        ]),
        model,
    ));
    assert_eq!(host.text_at(&[1]), "0");

    let increment = host.port_at(&[2], UiEventKind::Click);
    host.send(increment, UiEventKind::Click, None);
    assert_eq!(host.text_at(&[1]), "1");

    let decrement = host.port_at(&[0], UiEventKind::Click);
    host.send(decrement, UiEventKind::Click, None);
    assert_eq!(host.text_at(&[1]), "0");
}

#[test]
fn static_object_list_item_buttons_update_independent_counts() {
    let counter = |binding: &str| {
        stripe(vec![
            button("Click me", scalars(vec![ScalarUpdate::Add { binding: s(binding), delta: 1 }])),
            label(parts("Count: ", SemanticTextPart::ScalarBinding(s(binding)))),
        ])
    };
    let mut model = state();
    model.scalar_values = map(vec![("counters.0.count", 0), ("counters.1.count", 0), ("counters.2.count", 0)]);
    let mut host = Host::start(program(
        stripe(vec![
            label(SemanticNode::text("Click each button")),
            stripe(vec![counter("counters.0.count"), counter("counters.1.count"), counter("counters.2.count")]),
        ]),
        model,
    ));
    assert_eq!(host.at(&[1]).children.len(), 3);
    for index in 0..3 {
        assert_eq!(host.text_at(&[1, index, 1, 0]), "Count: 0");
    }

    let first = host.port_at(&[1, 0, 0], UiEventKind::Click);
    host.send(first, UiEventKind::Click, None);
    assert_eq!(host.text_at(&[1, 0, 1, 0]), "Count: 1");
    assert_eq!(host.text_at(&[1, 1, 1, 0]), "Count: 0");

    let first = host.port_at(&[1, 0, 0], UiEventKind::Click);
    let second = host.port_at(&[1, 1, 0], UiEventKind::Click);
    host.dispatch(vec![
        UiEvent { target: first, kind: UiEventKind::Click, payload: None },
        UiEvent { target: second, kind: UiEventKind::Click, payload: None },
    ]);
    assert_eq!(host.text_at(&[1, 0, 1, 0]), "Count: 2");
    assert_eq!(host.text_at(&[1, 1, 1, 0]), "Count: 1");
    assert_eq!(host.text_at(&[1, 2, 1, 0]), "Count: 0");
}

#[test]
fn static_object_list_item_checkboxes_toggle_independently() {
    let text = |field: &str, yes: &str, no: &str| SemanticTextPart::ObjectBoolFieldText {
        field: s(field),
        true_text: s(yes),
        false_text: s(no),
    };
    let row = stripe(vec![
        with_events(
            "button",
            vec![on(UiEventKind::Click, "__item__.checkbox", None)],
            vec![SemanticNode::text_template(vec![text("checked", "[X]", "[ ]")], "")],
        ),
        label(SemanticNode::ObjectFieldValue { field: s("title") }),
        label(SemanticNode::text_template(vec![text("checked", "(checked)", "(unchecked)")], "")),
    ]);
    let toggle = ObjectItemActionSpec {
        source_binding_suffix: s("checkbox"),
        kind: UiEventKind::Click,
        action: ObjectItemActionKind::ToggleBoolField { field: s("checked") },
    };
    let mut first = item(1, "Item A");
    first.bool_fields.insert(s("checked"), false);
    let mut second = item(2, "Item B");
    second.bool_fields.insert(s("checked"), false);
    let mut model = state();
    model.object_lists = map(vec![("items", vec![first, second])]);
    let mut host = Host::start(program(
        stripe(vec![SemanticNode::object_list("items", None, vec![toggle], row)]),
        model,
    ));
    assert_eq!(host.root().children.len(), 2);
    assert_eq!(host.text_at(&[0, 0, 0]), "[ ]");
    assert_eq!(host.text_at(&[0, 2, 0]), "(unchecked)");
    assert_eq!(host.text_at(&[1, 2, 0]), "(unchecked)");

    let port = host.port_at(&[0, 0], UiEventKind::Click);
    host.send(port, UiEventKind::Click, None);
    assert_eq!(host.text_at(&[0, 0, 0]), "[X]");
    assert_eq!(host.text_at(&[0, 2, 0]), "(checked)");
    assert_eq!(host.text_at(&[1, 2, 0]), "(unchecked)");

    let port = host.port_at(&[1, 0], UiEventKind::Click);
    host.send(port, UiEventKind::Click, None);
    assert_eq!(host.text_at(&[0, 2, 0]), "(checked)");
    assert_eq!(host.text_at(&[1, 0, 0]), "[X]");
    assert_eq!(host.text_at(&[1, 2, 0]), "(checked)");
}

#[test]
fn static_object_list_item_remove_hides_only_target_row() {
    let row = stripe(vec![
        label(SemanticNode::ObjectFieldValue { field: s("name") }),
        with_events(
            "button",
            vec![on(UiEventKind::Click, "__item__.remove_button", None)],
            vec![SemanticNode::text("Remove")],
        ),
    ]);
    let remove = ObjectItemActionSpec {
        source_binding_suffix: s("remove_button"),
        kind: UiEventKind::Click,
        action: ObjectItemActionKind::RemoveSelf,
    };
    let named = |id: u64, name: &str| {
        let mut out = item(id, "");
        out.text_fields.insert(s("name"), s(name));
        out
    };
    let mut model = state();
    model.object_lists = map(vec![("store.items", vec![named(1, "Item A"), named(2, "Item B")])]);
    let mut host = Host::start(program(
        stripe(vec![SemanticNode::object_list("store.items", None, vec![remove], row)]),
        model,
    ));
    assert_eq!(host.root().children.len(), 2);
    assert_eq!(host.text_at(&[0, 0, 0]), "Item A");
    assert_eq!(host.text_at(&[1, 0, 0]), "Item B");

    let port = host.port_at(&[0, 1], UiEventKind::Click);
    host.send(port, UiEventKind::Click, None);
    assert_eq!(host.root().children.len(), 1);
    assert_eq!(host.text_at(&[0, 0, 0]), "Item B");
}

#[test]
fn object_text_empty_branch_renders_per_item_text_fields() {
    let named = |id: u64, name: &str| {
        let mut out = item(id, "");
        out.text_fields.insert(s("name"), s(name));
        out
    };
    let mut model = state();
    model.object_lists = map(vec![("store.items", vec![named(1, ""), named(2, "Item B")])]);
    let host = Host::start(program(
        stripe(vec![SemanticNode::object_list(
            "store.items",
            None,
            Vec::new(),
            SemanticNode::object_text_field_branch(
                "name",
                false,
                label(SemanticNode::text("Empty")),
                label(SemanticNode::ObjectFieldValue { field: s("name") }),
            ),
        )]),
        model,
    ));
    assert_eq!(host.root().children.len(), 2);
    assert_eq!(host.text_at(&[0, 0]), "Empty");
    assert_eq!(host.text_at(&[1, 0]), "Item B");
}

fn draft_input(source: &str, list: &str) -> SemanticNode {
    with_events(
        "input",
        vec![
            on(UiEventKind::Input, source, None),
            on(
                UiEventKind::KeyDown,
                source,
                Some(SemanticAction::UpdateTextLists {
                    updates: vec![TextListUpdate::AppendDraftText {
                        binding: s(list),
                        source_binding: s(source),
                        key: Some(s("Enter")),
                        trim: false,
                        reject_empty: false,
                        clear_draft: true,
                    }],
                }),
            ),
        ],
        Vec::new(),
    )
}

fn text_template(prefix: &str) -> TextListTemplate {
    TextListTemplate { tag: s("span"), properties: Vec::new(), prefix: s(prefix), suffix: s("") }
}

fn type_and_enter(host: &mut Host, path: &[usize], text: &str) {
    let input = host.port_at(path, UiEventKind::Input);
    host.send(input, UiEventKind::Input, Some(text));
    let key = host.port_at(path, UiEventKind::KeyDown);
    assert!(host.send(key, UiEventKind::KeyDown, Some("Enter")));
}

#[test]
fn runtime_text_list_append_updates_count_and_items() {
    let mut model = state();
    model.text_lists = map(vec![("store.items", vec![s("Initial")])]);
    let mut host = Host::start(program(
        stripe(vec![
            draft_input("store.input", "store.items"),
            label(parts("All count: ", SemanticTextPart::ListCountBinding(s("store.items")))),
            stripe(vec![SemanticNode::text_list("store.items", vec![s("Initial")], None, text_template(""))]),
        ]),
        model,
    ));

    type_and_enter(&mut host, &[0], "Milk");
    assert_eq!(host.text_at(&[1, 0]), "All count: 2");
    assert_eq!(host.at(&[2]).children.len(), 2);
    assert_eq!(host.text_at(&[2, 0, 0]), "Initial");
    assert_eq!(host.text_at(&[2, 1, 0]), "Milk");
}

#[test]
fn runtime_text_binding_branch_updates_from_input_payload() {
    let mut model = state();
    model.text_values = map(vec![("store.value", s(""))]);
    let mut host = Host::start(program(
        stripe(vec![
            with_events(
                "input",
                vec![on(
                    UiEventKind::Input,
                    "store.input",
                    Some(SemanticAction::UpdateTexts {
                        updates: vec![TextUpdate::SetFromPayload { binding: s("store.value") }],
                    }),
                )],
                Vec::new(),
            ),
            SemanticNode::text_binding_branch(
                "store.value",
                false,
                label(SemanticNode::text("Empty")),
                label(SemanticNode::text_template(
                    vec![SemanticTextPart::TextBinding(s("store.value"))],
                    "",
                )),
            ),
        ]),
        model,
    ));
    assert!(tree_contains_text(host.root(), "Empty"));

    let port = host.port_at(&[0], UiEventKind::Input);
    assert!(host.send(port, UiEventKind::Input, Some("Hello")));
    assert!(!tree_contains_text(host.root(), "Empty"));
    assert!(tree_contains_text(host.root(), "Hello"));
}

#[test]
fn object_template_text_input_uses_runtime_text_binding_and_object_field_branch() {
    let input = |value: SemanticInputValue, events: Vec<SemanticEventBinding>| SemanticNode::Element {
        tag: s("input"),
        text: None,
        properties: Vec::new(),
        input_value: Some(value),
        style_fragments: Vec::new(),
        event_bindings: events,
        fact_bindings: Vec::new(),
        children: Vec::new(),
    };
    let draft = || SemanticInputValue::TextParts {
        parts: vec![SemanticTextPart::TextBinding(s("store.editing_text"))],
        value: s("Draft"),
    };
    let row = |id: u64, title: &str, formula: &str| {
        let mut out = item(id, title);
        out.text_fields.insert(s("formula"), s(formula));
        out
    };
    let mut model = state();
    model.text_values = map(vec![("store.editing_text", s("Draft"))]);
    model.object_lists = map(vec![("store.rows", vec![row(1, "A1", ""), row(2, "A2", "=A1")])]);
    let mut host = Host::start(program(
        stripe(vec![
            input(
                draft(),
                vec![on(
                    UiEventKind::Input,
                    "store.source",
                    Some(SemanticAction::UpdateTexts {
                        updates: vec![TextUpdate::SetFromPayload { binding: s("store.editing_text") }],
                    }),
                )],
            ),
            stripe(vec![SemanticNode::object_list(
                "store.rows",
                None,
                Vec::new(),
                input(
                    SemanticInputValue::ObjectTextFieldBranch {
                        field: s("formula"),
                        invert: false,
                        truthy: Box::new(draft()),
                        falsy: Box::new(SemanticInputValue::TextParts {
                            parts: vec![SemanticTextPart::ObjectFieldBinding(s("formula"))],
                            value: s(""),
                        }),
                    },
                    Vec::new(),
                ),
            )]),
        ]),
        model,
    ));
    assert_eq!(host.at(&[1]).children.len(), 2);
    assert_eq!(property(host.at(&[0]), "value"), Some("Draft"));
    assert_eq!(property(host.at(&[1, 0]), "value"), Some("Draft"));
    assert_eq!(property(host.at(&[1, 1]), "value"), Some("=A1"));

    let port = host.port_at(&[0], UiEventKind::Input);
    assert!(host.send(port, UiEventKind::Input, Some("Recalc")));
    assert_eq!(property(host.at(&[1, 0]), "value"), Some("Recalc"));
    assert_eq!(property(host.at(&[1, 1]), "value"), Some("=A1"));
}

#[test]
fn shopping_list_runtime_append_and_clear_updates_rendered_items() {
    let mut model = state();
    model.text_lists = map(vec![("store.items", Vec::new())]);
    let count = SemanticNode::text_template(
        vec![
            SemanticTextPart::ListCountBinding(s("store.items")),
            SemanticTextPart::Static(s(" items")),
        ],
        "",
    );
    let mut host = Host::start(program(
        stripe(vec![
            label(SemanticNode::text("Shopping List")),
            draft_input("store.elements.item_input", "store.items"),
            stripe(vec![SemanticNode::text_list("store.items", Vec::new(), None, text_template("- "))]),
            stripe(vec![
                label(count),
                button(
                    "Clear",
                    SemanticAction::UpdateTextLists {
                        updates: vec![TextListUpdate::Clear { binding: s("store.items") }],
                    },
                ),
            ]),
        ]),
        model,
    ));

    type_and_enter(&mut host, &[1], "Milk");
    assert_eq!(host.text_at(&[3, 0, 0]), "1 items");
    assert_eq!(host.at(&[2]).children.len(), 1);
    assert_eq!(host.text_at(&[2, 0, 0]), "- Milk");

    let clear = host.port_at(&[3, 1], UiEventKind::Click);
    assert!(host.send(clear, UiEventKind::Click, None));
    assert_eq!(host.text_at(&[3, 0, 0]), "0 items");
    assert!(host.at(&[2]).children.is_empty());
}

#[test]
fn list_retain_count_runtime_updates_both_counts() {
    let mut model = state();
    model.text_lists = map(vec![("store.items", vec![s("Initial")])]);
    model.derived_scalars = vec![DerivedScalarSpec::TextListCount {
        binding: s("store.items"),
        filter: None,
        target: s("retain_count"),
    }];
    let mut host = Host::start(program(
        stripe(vec![
            draft_input("store.input", "store.items"),
            label(parts("All count: ", SemanticTextPart::ListCountBinding(s("store.items")))),
            label(parts("Retain count: ", SemanticTextPart::ScalarBinding(s("retain_count")))),
            stripe(vec![SemanticNode::text_list("store.items", Vec::new(), None, text_template(""))]),
        ]),
        model,
    ));

    type_and_enter(&mut host, &[0], "Milk");
    assert_eq!(host.text_at(&[1, 0]), "All count: 2");
    assert_eq!(host.text_at(&[2, 0]), "Retain count: 2");
    assert_eq!(host.at(&[3]).children.len(), 2);
}

#[test]
fn filtered_runtime_text_list_updates_filtered_count_and_items() {
    let filter = || TextListFilter::IntCompare { op: IntCompareOp::Greater, value: 2 };
    let mut model = state();
    model.text_lists = map(vec![("store.items", vec![s("1"), s("3")])]);
    let mut host = Host::start(program(
        stripe(vec![
            draft_input("store.input", "store.items"),
            label(parts(
                "Filtered count: ",
                SemanticTextPart::FilteredListCountBinding { binding: s("store.items"), filter: filter() },
            )),
            stripe(vec![SemanticNode::text_list("store.items", Vec::new(), Some(filter()), text_template(""))]),
        ]),
        model,
    ));
    assert_eq!(host.text_at(&[1, 0]), "Filtered count: 1");
    assert_eq!(host.at(&[2]).children.len(), 1);
    assert_eq!(host.text_at(&[2, 0, 0]), "3");

    type_and_enter(&mut host, &[0], "2");
    assert_eq!(host.text_at(&[1, 0]), "Filtered count: 1");
    assert_eq!(host.at(&[2]).children.len(), 1);

    type_and_enter(&mut host, &[0], "5");
    assert_eq!(host.text_at(&[1, 0]), "Filtered count: 2");
    assert_eq!(host.at(&[2]).children.len(), 2);
    assert_eq!(host.text_at(&[2, 0, 0]), "3");
    assert_eq!(host.text_at(&[2, 1, 0]), "5");
}

fn completed_text(yes: &str, no: &str) -> SemanticNode {
    SemanticNode::text_template(
        vec![SemanticTextPart::ObjectBoolFieldText {
            field: s("completed"),
            true_text: s(yes),
            false_text: s(no),
        }],
        "",
    )
}

fn item_action(suffix: &str, kind: UiEventKind, action: ObjectItemActionKind) -> ObjectItemActionSpec {
    ObjectItemActionSpec { source_binding_suffix: s(suffix), kind, action }
}

fn toggle_completed(suffix: &str) -> ObjectItemActionSpec {
    item_action(
        suffix,
        UiEventKind::Click,
        ObjectItemActionKind::ToggleBoolField { field: s("completed") },
    )
}

fn checkbox(source: &str) -> SemanticNode {
    with_events("button", vec![on(UiEventKind::Click, source, None)], vec![completed_text("[X]", "[ ]")])
}

fn title_label() -> SemanticNode {
    label(SemanticNode::ObjectFieldValue { field: s("title") })
}

fn completed_filter(value: bool) -> ObjectListFilter {
    ObjectListFilter::BoolFieldEquals { field: s("completed"), value }
}

fn object_updates(updates: Vec<ObjectListUpdate>) -> SemanticAction {
    SemanticAction::UpdateObjectLists { updates }
}

#[test]
fn runtime_object_list_append_toggle_and_remove_updates_rendered_rows() {
    let row = stripe(vec![
        checkbox("__item__.toggle_button"),
        title_label(),
        label(completed_text("(done)", "(active)")),
        with_events(
            "button",
            vec![on(UiEventKind::Click, "__item__.remove_button", None)],
            vec![SemanticNode::text("Remove")],
        ),
    ]);
    let input = with_events(
        "input",
        vec![
            on(UiEventKind::Input, "store.input", None),
            on(
                UiEventKind::KeyDown,
                "store.input",
                Some(object_updates(vec![ObjectListUpdate::AppendDraftObject {
                    binding: s("store.todos"),
                    source_binding: s("store.input"),
                    key: Some(s("Enter")),
                    trim: true,
                    reject_empty: true,
                    clear_draft: true,
                    bool_fields: TextMap::new(),
                }])),
            ),
        ],
        Vec::new(),
    );
    let mut model = state();
    model.object_lists = map(vec![("store.todos", vec![item(1, "Buy milk"), item(2, "Clean room")])]);
    let mut host = Host::start(program(
        stripe(vec![
            input,
            label(parts("Count: ", SemanticTextPart::ObjectListCountBinding(s("store.todos")))),
            stripe(vec![SemanticNode::object_list(
                "store.todos",
                None,
                vec![
                    toggle_completed("toggle_button"),
                    item_action("remove_button", UiEventKind::Click, ObjectItemActionKind::RemoveSelf),
                ],
                row,
            )]),
        ]),
        model,
    ));
    assert_eq!(host.at(&[2]).children.len(), 2);
    assert_eq!(host.text_at(&[1, 0]), "Count: 2");
    assert_eq!(host.text_at(&[2, 0, 1, 0]), "Buy milk");

    let toggle = host.port_at(&[2, 0, 0], UiEventKind::Click);
    host.send(toggle, UiEventKind::Click, None);
    assert_eq!(host.text_at(&[2, 0, 0, 0]), "[X]");
    assert_eq!(host.text_at(&[2, 0, 2, 0]), "(done)");

    let remove = host.port_at(&[2, 1, 3], UiEventKind::Click);
    host.send(remove, UiEventKind::Click, None);
    assert_eq!(host.text_at(&[1, 0]), "Count: 1");
    assert_eq!(host.at(&[2]).children.len(), 1);

    type_and_enter(&mut host, &[0], "Wash car");
    assert_eq!(host.text_at(&[1, 0]), "Count: 2");
    assert_eq!(host.at(&[2]).children.len(), 2);
    assert_eq!(host.text_at(&[2, 1, 1, 0]), "Wash car");
    assert_eq!(host.text_at(&[2, 1, 2, 0]), "(active)");
}

#[test]
fn helper_filtered_object_list_counts_and_rows_follow_toggle() {
    let row = || stripe(vec![checkbox("__item__.toggle_button"), title_label()]);
    let rows = |filter: Option<ObjectListFilter>| {
        SemanticNode::object_list("store.todos", filter, vec![toggle_completed("toggle_button")], row())
    };
    let count = |value: bool| SemanticTextPart::FilteredObjectListCountBinding {
        binding: s("store.todos"),
        filter: completed_filter(value),
    };
    let mut model = state();
    model.object_lists = map(vec![("store.todos", vec![item(1, "Buy milk"), item(2, "Clean room")])]);
    let mut host = Host::start(program(
        stripe(vec![
            label(parts("Completed: ", count(true))),
            label(parts("Active: ", count(false))),
            stripe(vec![rows(None)]),
            stripe(vec![rows(Some(completed_filter(true)))]),
        ]),
        model,
    ));
    assert_eq!(host.text_at(&[0, 0]), "Completed: 0");
    assert_eq!(host.text_at(&[1, 0]), "Active: 2");
    assert_eq!(host.at(&[2]).children.len(), 2);
    assert!(host.at(&[3]).children.is_empty());

    let toggle = host.port_at(&[2, 0, 0], UiEventKind::Click);
    host.send(toggle, UiEventKind::Click, None);
    assert_eq!(host.text_at(&[0, 0]), "Completed: 1");
    assert_eq!(host.text_at(&[1, 0]), "Active: 1");
    assert_eq!(host.at(&[3]).children.len(), 1);
    assert_eq!(host.text_at(&[3, 0, 1, 0]), "Buy milk");
    assert_eq!(host.text_at(&[3, 0, 0, 0]), "[X]");
}

fn toggle_all() -> SemanticNode {
    button(
        "Toggle all",
        object_updates(vec![ObjectListUpdate::ToggleAllBoolField {
            binding: s("store.todos"),
            field: s("completed"),
        }]),
    )
}

fn remove_completed() -> SemanticNode {
    button(
        "Remove completed",
        object_updates(vec![ObjectListUpdate::RemoveMatching {
            binding: s("store.todos"),
            filter: completed_filter(true),
        }]),
    )
}

#[test]
fn object_list_bulk_toggle_and_remove_completed_updates_rows() {
    let mut model = state();
    model.object_lists = map(vec![("store.todos", vec![item(1, "Buy milk"), item(2, "Clean room")])]);
    let mut host = Host::start(program(
        stripe(vec![
            toggle_all(),
            remove_completed(),
            stripe(vec![SemanticNode::object_list(
                "store.todos",
                None,
                vec![toggle_completed("todo_elements.todo_checkbox")],
                stripe(vec![checkbox("__item__.todo_elements.todo_checkbox"), title_label()]),
            )]),
        ]),
        model,
    ));
    assert_eq!(host.at(&[2]).children.len(), 2);

    let all = host.port_at(&[0], UiEventKind::Click);
    host.send(all, UiEventKind::Click, None);
    for index in 0..host.at(&[2]).children.len() {
        assert_eq!(host.text_at(&[2, index, 0, 0]), "[X]");
    }

    let remove = host.port_at(&[1], UiEventKind::Click);
    host.send(remove, UiEventKind::Click, None);
    assert!(host.at(&[2]).children.is_empty());
}

#[test]
fn router_selected_filter_object_list_view_updates_rows_and_bulk_actions() {
    let select = |text: &str, value: i64| {
        button(text, scalars(vec![ScalarUpdate::SetTo { binding: s("store.selected_filter"), value }]))
    };
    let filter = || ObjectListFilter::SelectedCompletedByScalar { binding: s("store.selected_filter") };
    let row = stripe(vec![
        checkbox("__item__.todo_elements.todo_checkbox"),
        title_label(),
        with_events(
            "button",
            vec![on(UiEventKind::Click, "__item__.todo_elements.remove_todo_button", None)],
            vec![SemanticNode::text("Remove")],
        ),
    ]);
    let mut model = state();
    model.scalar_values = map(vec![("store.selected_filter", 0)]);
    model.object_lists = map(vec![("store.todos", vec![item(1, "Buy groceries"), item(2, "Clean room")])]);
    let mut host = Host::start(program(
        stripe(vec![
            select("All", 0),
            select("Active", 1),
            select("Completed", 2),
            toggle_all(),
            remove_completed(),
            label(parts(
                "Visible: ",
                SemanticTextPart::FilteredObjectListCountBinding { binding: s("store.todos"), filter: filter() },
            )),
            stripe(vec![SemanticNode::object_list(
                "store.todos",
                Some(filter()),
                vec![
                    toggle_completed("todo_elements.todo_checkbox"),
                    item_action(
                        "todo_elements.remove_todo_button",
                        UiEventKind::Click,
                        ObjectItemActionKind::RemoveSelf,
                    ),
                ],
                row,
            )]),
        ]),
        model,
    ));
    assert_eq!(host.text_at(&[5, 0]), "Visible: 2");
    assert_eq!(host.at(&[6]).children.len(), 2);

    let first = host.port_at(&[6, 0, 0], UiEventKind::Click);
    host.send(first, UiEventKind::Click, None);
    assert_eq!(host.text_at(&[5, 0]), "Visible: 2");
    assert_eq!(host.at(&[6]).children.len(), 2);

    let active = host.port_at(&[1], UiEventKind::Click);
    host.send(active, UiEventKind::Click, None);
    assert_eq!(host.text_at(&[5, 0]), "Visible: 1");
    assert_eq!(host.at(&[6]).children.len(), 1);
    assert_eq!(host.text_at(&[6, 0, 1, 0]), "Clean room");

    let completed = host.port_at(&[2], UiEventKind::Click);
    host.send(completed, UiEventKind::Click, None);
    assert_eq!(host.text_at(&[5, 0]), "Visible: 1");
    assert_eq!(host.at(&[6]).children.len(), 1);
    assert_eq!(host.text_at(&[6, 0, 1, 0]), "Buy groceries");

    let all = host.port_at(&[3], UiEventKind::Click);
    host.send(all, UiEventKind::Click, None);
    assert_eq!(host.text_at(&[5, 0]), "Visible: 2");
    assert_eq!(host.at(&[6]).children.len(), 2);

    let remove = host.port_at(&[4], UiEventKind::Click);
    host.send(remove, UiEventKind::Click, None);
    assert_eq!(host.text_at(&[5, 0]), "Visible: 0");
    assert!(host.at(&[6]).children.is_empty());
}

#[test]
fn list_is_empty_ui_branch_hides_panel_after_remove_completed() {
    let mut model = state();
    model.object_lists = map(vec![("store.todos", vec![item(1, "Buy milk"), item(2, "Clean room")])]);
    let mut host = Host::start(program(
        stripe(vec![
            toggle_all(),
            remove_completed(),
            SemanticNode::list_empty_branch(
                "store.todos",
                true,
                false,
                SemanticNode::Fragment(Vec::new()),
                label(SemanticNode::text("Has todos")),
            ),
        ]),
        model,
    ));
    assert_eq!(host.root().children.len(), 3);
    assert_eq!(host.text_at(&[2, 0]), "Has todos");

    let all = host.port_at(&[0], UiEventKind::Click);
    host.send(all, UiEventKind::Click, None);
    assert_eq!(host.root().children.len(), 3);

    let remove = host.port_at(&[1], UiEventKind::Click);
    host.send(remove, UiEventKind::Click, None);
    assert_eq!(host.root().children.len(), 2);
}

fn set_editing(suffix: &str, kind: UiEventKind, value: bool, key: Option<&str>) -> ObjectItemActionSpec {
    item_action(
        suffix,
        kind,
        ObjectItemActionKind::SetBoolField {
            field: s("editing"),
            value,
            payload_filter: key.map(str::to_string),
        },
    )
}

fn editable_todo() -> StateRuntimeModel {
    let mut todo = item(1, "Buy milk");
    todo.bool_fields.insert(s("editing"), false);
    let mut model = state();
    model.object_lists = map(vec![("store.todos", vec![todo])]);
    model
}

fn editable_label() -> SemanticNode {
    with_events(
        "span",
        vec![on(UiEventKind::DoubleClick, "__item__.todo_elements.todo_title", None)],
        vec![SemanticNode::ObjectFieldValue { field: s("title") }],
    )
}

#[test]
fn object_item_editing_branch_updates_on_double_click_and_escape() {
    let input = "todo_elements.editing_input";
    let template = SemanticNode::object_bool_field_branch(
        "editing",
        with_events(
            "span",
            vec![
                on(UiEventKind::Blur, "__item__.todo_elements.editing_input", None),
                on(UiEventKind::KeyDown, "__item__.todo_elements.editing_input", None),
            ],
            vec![SemanticNode::text("Editing")],
        ),
        editable_label(),
    );
    let mut host = Host::start(program(
        stripe(vec![SemanticNode::object_list(
            "store.todos",
            None,
            vec![
                set_editing("todo_elements.todo_title", UiEventKind::DoubleClick, true, None),
                set_editing(input, UiEventKind::Blur, false, None),
                set_editing(input, UiEventKind::KeyDown, false, Some("Enter")),
                set_editing(input, UiEventKind::KeyDown, false, Some("Escape")),
            ],
            template,
        )]),
        editable_todo(),
    ));
    assert_eq!(host.text_at(&[0, 0]), "Buy milk");

    let double_click = host.port_at(&[0], UiEventKind::DoubleClick);
    assert!(host.send(double_click, UiEventKind::DoubleClick, None));
    assert_eq!(host.text_at(&[0, 0]), "Editing");

    let key = host.port_at(&[0], UiEventKind::KeyDown);
    assert!(!host.send(key, UiEventKind::KeyDown, Some("a")));
    assert!(host.send(key, UiEventKind::KeyDown, Some("Escape")));
    assert_eq!(host.text_at(&[0, 0]), "Buy milk");
}

#[test]
fn object_item_title_updates_on_edit_input_and_enter() {
    let input = "todo_elements.editing_input";
    let template = SemanticNode::object_bool_field_branch(
        "editing",
        with_events(
            "input",
            vec![
                on(UiEventKind::Input, "__item__.todo_elements.editing_input", None),
                on(UiEventKind::KeyDown, "__item__.todo_elements.editing_input", None),
            ],
            Vec::new(),
        ),
        editable_label(),
    );
    let mut host = Host::start(program(
        stripe(vec![SemanticNode::object_list(
            "store.todos",
            None,
            vec![
                set_editing("todo_elements.todo_title", UiEventKind::DoubleClick, true, None),
                set_editing(input, UiEventKind::KeyDown, false, Some("Enter")),
                set_editing(input, UiEventKind::KeyDown, false, Some("Escape")),
                item_action(
                    input,
                    UiEventKind::Input,
                    ObjectItemActionKind::SetTitle { trim: false, reject_empty: true, payload_filter: None },
                ),
            ],
            template,
        )]),
        editable_todo(),
    ));
    let title = find_first_tag_with_text(host.root(), "span", "Buy milk").expect("title should render");
    let double_click = port(title, UiEventKind::DoubleClick);
    host.send(double_click, UiEventKind::DoubleClick, None);

    let editing = find_first_tag(host.root(), "input").expect("editing input should render");
    let change = port(editing, UiEventKind::Input);
    assert!(!host.send(change, UiEventKind::Input, Some("")));
    let editing = find_first_tag(host.root(), "input").expect("editing input should stay");
    let change = port(editing, UiEventKind::Input);
    host.send(change, UiEventKind::Input, Some("Buy milk now"));

    let editing = find_first_tag(host.root(), "input").expect("editing input should stay");
    let enter = port(editing, UiEventKind::KeyDown);
    host.send(enter, UiEventKind::KeyDown, Some("Enter"));
    assert!(tree_contains_text(host.root(), "Buy milk now"));
    assert!(!tree_contains_text(host.root(), "Buy milk"));
}

fn styled(style: Vec<SemanticStyleFragment>, facts: Vec<SemanticFactBinding>, children: Vec<SemanticNode>) -> SemanticNode {
    SemanticNode::element_with_facts_and_styles("div", None, Vec::new(), style, Vec::new(), facts, children)
}

fn fixed(style: &str) -> Box<SemanticStyleFragment> {
    Box::new(SemanticStyleFragment::Static(Some(s(style))))
}

fn none() -> Box<SemanticStyleFragment> {
    Box::new(SemanticStyleFragment::Static(None))
}

#[test]
fn the_style_of_a_row_follows_its_item() {
    let row = styled(
        vec![SemanticStyleFragment::ObjectBoolField {
            field: s("completed"),
            truthy: fixed("text-decoration: line-through"),
            falsy: none(),
        }],
        Vec::new(),
        vec![checkbox("__item__.toggle"), title_label()],
    );
    let mut model = state();
    model.object_lists = map(vec![("todos", vec![item(1, "Buy milk"), item(2, "Clean room")])]);
    let mut host = Host::start(program(
        stripe(vec![SemanticNode::object_list("todos", None, vec![toggle_completed("toggle")], row)]),
        model,
    ));
    assert_eq!(property(host.at(&[0]), "style"), None);

    let toggle = host.port_at(&[0, 0], UiEventKind::Click);
    assert!(host.send(toggle, UiEventKind::Click, None));
    let style = property(host.at(&[0]), "style").expect("the completed row has a style");
    assert!(style.contains("line-through"), "{style}");
    assert_eq!(property(host.at(&[1]), "style"), None);
}

#[test]
fn the_style_of_a_button_follows_what_is_selected() {
    let outline = |value: i64| SemanticStyleFragment::ScalarCompare {
        left: DerivedScalarOperand::Binding(s("selected")),
        op: IntCompareOp::Equal,
        right: DerivedScalarOperand::Literal(value),
        truthy: fixed("outline: 1px solid"),
        falsy: none(),
    };
    let option = |text: &str, value: i64| {
        stripe(vec![
            styled(vec![outline(value)], Vec::new(), vec![SemanticNode::text(text)]),
            button(text, scalars(vec![ScalarUpdate::SetTo { binding: s("selected"), value }])),
        ])
    };
    let mut model = state();
    model.scalar_values = map(vec![("selected", 0)]);
    let mut host = Host::start(program(stripe(vec![option("All", 0), option("Active", 1)]), model));
    assert_eq!(property(host.at(&[0, 0]), "style"), Some("outline: 1px solid"));
    assert_eq!(property(host.at(&[1, 0]), "style"), None);

    let active = host.port_at(&[1, 1], UiEventKind::Click);
    assert!(host.send(active, UiEventKind::Click, None));
    assert_eq!(property(host.at(&[0, 0]), "style"), None);
    assert_eq!(property(host.at(&[1, 0]), "style"), Some("outline: 1px solid"));
    assert!(!host.send(active, UiEventKind::Click, None));
}

#[test]
fn a_row_is_hovered_alone() {
    let row = styled(
        vec![SemanticStyleFragment::BoolBinding {
            binding: s("__element__.hovered"),
            truthy: fixed("text-decoration: underline"),
            falsy: none(),
        }],
        vec![SemanticFactBinding { kind: SemanticFactKind::Hovered, binding: s("__element__.hovered") }],
        vec![
            title_label(),
            SemanticNode::bool_branch(
                "__element__.hovered",
                SemanticNode::text("Remove"),
                SemanticNode::Fragment(Vec::new()),
            ),
        ],
    );
    let mut model = state();
    model.object_lists = map(vec![("todos", vec![item(1, "Buy milk"), item(2, "Clean room")])]);
    let mut host = Host::start(program(
        stripe(vec![SemanticNode::object_list("todos", None, Vec::new(), row)]),
        model,
    ));
    assert!(!tree_contains_text(host.root(), "Remove"));

    let second = host.at(&[1]).id;
    assert!(host.facts(vec![fact(second, UiFactKind::Hovered(true))]));
    assert!(!tree_contains_text(host.at(&[0]), "Remove"));
    assert!(tree_contains_text(host.at(&[1]), "Remove"));
    assert_eq!(property(host.at(&[0]), "style"), None);
    assert_eq!(property(host.at(&[1]), "style"), Some("text-decoration: underline"));
    let second = host.at(&[1]).id;
    assert!(!host.facts(vec![fact(second, UiFactKind::Hovered(true))]));
}

#[test]
fn derived_scalars_follow_each_other() {
    let mut model = state();
    model.object_lists = map(vec![("todos", vec![item(1, "Buy milk"), item(2, "Clean room")])]);
    model.derived_scalars = vec![
        DerivedScalarSpec::ObjectListCount { binding: s("todos"), filter: None, target: s("all") },
        DerivedScalarSpec::ObjectListCount {
            binding: s("todos"),
            filter: Some(completed_filter(true)),
            target: s("completed"),
        },
        DerivedScalarSpec::Arithmetic {
            target: s("active"),
            op: DerivedArithmeticOp::Subtract,
            left: DerivedScalarOperand::Binding(s("all")),
            right: DerivedScalarOperand::Binding(s("completed")),
        },
        DerivedScalarSpec::Comparison {
            target: s("all_completed"),
            op: IntCompareOp::Equal,
            left: DerivedScalarOperand::Binding(s("all")),
            right: DerivedScalarOperand::Binding(s("completed")),
        },
    ];
    let mut host = Host::start(program(
        stripe(vec![
            toggle_all(),
            label(parts("Active: ", SemanticTextPart::ScalarBinding(s("active")))),
            SemanticNode::bool_branch("all_completed", SemanticNode::text("Done"), SemanticNode::text("Open")),
            button(
                "Toggle",
                object_updates(vec![ObjectListUpdate::ToggleAllBoolField { binding: s("todos"), field: s("completed") }]),
            ),
        ]),
        model,
    ));
    assert_eq!(host.text_at(&[1, 0]), "Active: 2");
    assert_eq!(host.text_at(&[2]), "Open");

    let toggle = host.port_at(&[3], UiEventKind::Click);
    assert!(host.send(toggle, UiEventKind::Click, None));
    assert_eq!(host.text_at(&[1, 0]), "Active: 0");
    assert_eq!(host.text_at(&[2]), "Done");
}

#[test]
fn events_at_unknown_ports_change_nothing() {
    let mut model = state();
    model.scalar_values = map(vec![("count", 0)]);
    let mut host = Host::start(program(
        stripe(vec![SemanticNode::ScalarValue { binding: s("count"), value: 0 }]),
        model,
    ));
    let before = host.runtime.memory().len();
    assert!(!host.send(EventPortId(999), UiEventKind::Click, None));
    assert_eq!(host.runtime.memory().len(), before);
    assert_eq!(host.text_at(&[0]), "0");
}

#[test]
fn earlier_commands_stay_readable() {
    let mut host = Host::new(bootstrap_runtime("source", 0, false));
    assert!(host.send(EventPortId(1), UiEventKind::Click, None));
    let first = host.descriptor;
    let bytes = host.runtime.decode_commands(first);
    assert!(host.send(EventPortId(1), UiEventKind::Click, None));
    assert_ne!(host.descriptor, first);
    assert_eq!(host.runtime.decode_commands(first), bytes);
    assert_eq!(host.runtime.decode_commands(u64::MAX), Vec::<u8>::new());
}

#[test]
fn toggling_twice_changes_nothing() {
    let mut model = state();
    model.scalar_values = map(vec![("open", 0)]);
    let mut host = Host::start(program(
        stripe(vec![
            button("Toggle", scalars(vec![ScalarUpdate::ToggleBool { binding: s("open") }])),
            SemanticNode::bool_branch("open", SemanticNode::text("open"), SemanticNode::text("closed")),
        ]),
        model,
    ));
    assert_eq!(host.text_at(&[1]), "closed");
    for expected in ["open", "closed"] {
        let toggle = host.port_at(&[0], UiEventKind::Click);
        host.send(toggle, UiEventKind::Click, None);
        assert_eq!(host.text_at(&[1]), expected);
    }
}

#[test]
fn appended_items_get_identities_of_their_own() {
    let mut model = state();
    model.object_lists = map(vec![("todos", vec![item(7, "First")])]);
    let add = || object_updates(vec![ObjectListUpdate::AppendObject { binding: s("todos"), item: item(0, "More") }]);
    let mut host = Host::start(program(
        stripe(vec![
            button("Add", add()),
            stripe(vec![SemanticNode::object_list(
                "todos",
                None,
                vec![item_action("remove", UiEventKind::Click, ObjectItemActionKind::RemoveSelf)],
                with_events("button", vec![on(UiEventKind::Click, "__item__.remove", None)], vec![
                    SemanticNode::ObjectFieldValue { field: s("title") },
                ]),
            )]),
        ]),
        model,
    ));
    for _ in 0..2 {
        let more = host.port_at(&[0], UiEventKind::Click);
        host.send(more, UiEventKind::Click, None);
    }
    assert_eq!(host.at(&[1]).children.len(), 3);
    let last = host.port_at(&[1, 2], UiEventKind::Click);
    host.send(last, UiEventKind::Click, None);
    assert_eq!(host.at(&[1]).children.len(), 2);
    assert_eq!(host.text_at(&[1, 0, 0]), "First");
    assert_eq!(host.text_at(&[1, 1, 0]), "More");
}

#[test]
fn toggling_an_item_twice_changes_nothing() {
    let mut model = state();
    model.object_lists = map(vec![("todos", vec![item(1, "Buy milk")])]);
    let mut host = Host::start(program(
        stripe(vec![SemanticNode::object_list(
            "todos",
            None,
            vec![toggle_completed("toggle")],
            stripe(vec![checkbox("__item__.toggle")]),
        )]),
        model,
    ));
    for expected in ["[X]", "[ ]"] {
        let toggle = host.port_at(&[0, 0], UiEventKind::Click);
        host.send(toggle, UiEventKind::Click, None);
        assert_eq!(host.text_at(&[0, 0, 0]), expected);
    }
}

#[test]
fn branches_compare_scalars() {
    let compare = |value: i64| {
        SemanticNode::scalar_compare_branch(
            DerivedScalarOperand::Binding(s("count")),
            IntCompareOp::GreaterOrEqual,
            DerivedScalarOperand::Literal(value),
            SemanticNode::text("many"),
            SemanticNode::text("few"),
        )
    };
    let mut counted = item(1, "Buy milk");
    counted.scalar_fields.insert(s("amount"), 3);
    let of_item = SemanticNode::object_scalar_compare_branch(
        ObjectDerivedScalarOperand::Field(s("amount")),
        IntCompareOp::Equal,
        ObjectDerivedScalarOperand::Binding(s("count")),
        SemanticNode::text("same"),
        SemanticNode::text("other"),
    );
    let mut model = state();
    model.scalar_values = map(vec![("count", 3)]);
    model.object_lists = map(vec![("todos", vec![counted])]);
    let host = Host::start(program(
        stripe(vec![
            compare(3),
            compare(4),
            SemanticNode::object_list("todos", None, Vec::new(), of_item),
            SemanticNode::keyed(9, SemanticNode::text("keyed")),
        ]),
        model,
    ));
    assert_eq!(host.text_at(&[0]), "many");
    assert_eq!(host.text_at(&[1]), "few");
    assert_eq!(host.text_at(&[2]), "same");
    assert_eq!(host.text_at(&[3]), "keyed");
}

fn with_property(value: &str) -> SemanticNode {
    SemanticNode::element_with_facts_and_styles(
        "div",
        None,
        vec![(s("class"), s("row")), (s("style"), s("color: red"))],
        vec![SemanticStyleFragment::Static(Some(s(value)))],
        Vec::new(),
        Vec::new(),
        Vec::new(),
    )
}

#[test]
fn a_style_leaves_other_properties() {
    let host = Host::start(program(stripe(vec![with_property("width: 1px")]), state()));
    assert_eq!(property(host.at(&[0]), "class"), Some("row"));
    let style = property(host.at(&[0]), "style").expect("a style");
    assert!(style.contains("color: red") && style.contains("width: 1px"), "{style}");
}

#[test]
fn derived_scalars_settle_in_any_order() {
    let mut model = state();
    model.object_lists = map(vec![("todos", vec![item(1, "Buy milk"), item(2, "Clean room")])]);
    let read = |name: &str| DerivedScalarOperand::Binding(s(name));
    model.derived_scalars = vec![
        DerivedScalarSpec::Comparison {
            target: s("three"),
            op: IntCompareOp::Equal,
            left: read("more"),
            right: DerivedScalarOperand::Literal(3),
        },
        DerivedScalarSpec::Arithmetic {
            target: s("more"),
            op: DerivedArithmeticOp::Add,
            left: read("all"),
            right: DerivedScalarOperand::Literal(1),
        },
        DerivedScalarSpec::ObjectListCount { binding: s("todos"), filter: None, target: s("all") },
    ];
    let shown = |name: &str| label(parts("", SemanticTextPart::ScalarBinding(s(name))));
    let host = Host::start(program(stripe(vec![shown("all"), shown("more"), shown("three")]), model));
    assert_eq!(host.text_at(&[0, 0]), "2");
    assert_eq!(host.text_at(&[1, 0]), "3");
    assert_eq!(host.text_at(&[2, 0]), "1");
}

#[test]
fn a_repeated_fact_has_no_effect() {
    let mut runtime = bootstrap_runtime("", 0, false);
    for kind in [UiFactKind::DraftText(s("a")), UiFactKind::Focused(true)] {
        let batch = UiFactBatch { facts: vec![fact(NodeId(1), kind)] };
        assert!(runtime.apply_fact_effects(&batch));
        assert!(!runtime.apply_fact_effects(&batch));
    }
    let other = UiFactBatch { facts: vec![fact(NodeId(1), UiFactKind::Hovered(true))] };
    assert!(!runtime.apply_fact_effects(&other));
}
