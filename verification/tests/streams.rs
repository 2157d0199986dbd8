//! What passes through actors as values arrive.
use boon::contexts::list_append_key;
use boon::plan::{
    ActorContext, EvaluationContext, ListBindingOperation, PersistenceKey, RecordedCall,
};
use boon::static_expression::{PersistenceId, Span};
use boon::streams::{
    arrival_order, begin_persistence, binding_key, deliver_to_link, is_restorable, is_savable,
    load_stored, part_text, set_up_pass_through, AppendMerge, CallLog, HeldState, LinkDelivery,
    PassThroughSetup, PersistenceState, PersistenceStep, StoredForm, TaggedChange, TextCombiner,
};
use boon::value::Value;

fn text(content: &str) -> Value {
    Value::Text(content.to_string())
}

#[test]
fn plain_values_and_tags_are_taken_back() {
    assert!(is_restorable(&StoredForm::Text));
    assert!(is_restorable(&StoredForm::Number));
    assert!(is_restorable(&StoredForm::Bool));
    assert!(is_restorable(&StoredForm::Null));
    assert!(is_restorable(&StoredForm::Object { keys: vec!["_tag".to_string()] }));
    assert!(!is_restorable(&StoredForm::Object { keys: vec!["_tag".to_string(), "x".to_string()] }));
    assert!(!is_restorable(&StoredForm::Object { keys: vec!["x".to_string()] }));
    assert!(!is_restorable(&StoredForm::Object { keys: vec![] }));
    assert!(!is_restorable(&StoredForm::List));
}

#[test]
fn texts_numbers_and_tags_are_saved() {
    assert!(is_savable(&text("a")));
    assert!(is_savable(&Value::Number(0)));
    assert!(is_savable(&Value::Tag("True".to_string())));
    assert!(!is_savable(&Value::List { items: vec![] }));
    assert!(!is_savable(&Value::Object { fields: vec![] }));
}

#[test]
fn a_stored_value_stands_for_the_first_one_of_the_source() {
    let mut state = begin_persistence(&ActorContext::default());
    assert_eq!(state, PersistenceState::LoadingStored);
    assert!(state.load(&Some(StoredForm::Text)));
    assert_eq!(state.receive(&text("first")), PersistenceStep { emit: false, save: false });
    assert_eq!(state.receive(&text("second")), PersistenceStep { emit: true, save: true });
    assert_eq!(
        state.receive(&Value::List { items: vec![] }),
        PersistenceStep { emit: true, save: false },
    );
}

#[test]
fn without_a_stored_value_all_values_pass() {
    let mut state = begin_persistence(&ActorContext::default());
    assert!(!state.load(&None));
    assert_eq!(state.receive(&text("first")), PersistenceStep { emit: true, save: true });
    let mut state = begin_persistence(&ActorContext::default());
    assert!(!state.load(&Some(StoredForm::List)));
    assert_eq!(state.receive(&text("first")), PersistenceStep { emit: true, save: true });
}

#[test]
fn in_the_body_of_hold_nothing_is_loaded() {
    let mut context = ActorContext::default();
    context.sequential_processing = true;
    assert_eq!(begin_persistence(&context), PersistenceState::ForwardingSource);
}

#[test]
fn a_held_state_follows_inputs_and_updates() {
    let mut held = HeldState::new(None);
    assert_eq!(held.output, None);
    held.input(&text("0"));
    assert_eq!(held.output, Some(text("0")));
    held.update(&text("1"));
    assert_eq!(held.state, Some(text("1")));
    assert_eq!(held.stored, Some(text("1")));
    held.input(&text("reset"));
    assert_eq!(held.state, Some(text("reset")));
    assert_eq!(held.output, Some(text("reset")));
}

#[test]
fn a_held_state_survives_a_restart() {
    let mut held = HeldState::new(None);
    held.input(&text("0"));
    held.update(&text("5"));
    let mut again = HeldState::new(held.stored.clone());
    assert_eq!(again.state, Some(text("5")));
    again.input(&text("0"));
    assert_eq!(again.output, Some(text("5")));
    assert_eq!(again.state, Some(text("5")));
    again.input(&text("0"));
    assert_eq!(again.output, Some(text("0")));
}

#[test]
fn a_text_is_combined_once_all_parts_have_values() {
    let mut combiner = TextCombiner::new(3);
    assert_eq!(combiner.receive(0, Some("a".to_string())), None);
    assert_eq!(combiner.receive(2, Some("c".to_string())), None);
    assert_eq!(combiner.receive(1, None), Some("ac".to_string()));
    assert_eq!(combiner.receive(1, Some("b".to_string())), Some("abc".to_string()));
    assert_eq!(part_text(&text("x"), ""), Some("x".to_string()));
    assert_eq!(part_text(&Value::Tag("True".to_string()), ""), Some("True".to_string()));
    assert_eq!(part_text(&Value::Number(0), "0"), Some("0".to_string()));
    assert_eq!(part_text(&Value::Object { fields: vec![] }, "0"), None);
}

#[test]
fn what_is_appended_waits_for_the_list() {
    let mut merge: AppendMerge<u32> = AppendMerge::new();
    assert_eq!(merge.receive(TaggedChange::FromAppend(1)), Vec::<u32>::new());
    assert_eq!(merge.receive(TaggedChange::FromRestored(2)), Vec::<u32>::new());
    assert_eq!(merge.receive(TaggedChange::FromList(0)), vec![0, 1, 2]);
    assert_eq!(merge.receive(TaggedChange::FromAppend(3)), vec![3]);
    assert_eq!(merge.receive(TaggedChange::FromList(4)), vec![4]);
    assert_eq!(merge.receive(TaggedChange::FromRestored(5)), vec![5]);
}

#[test]
fn calls_are_kept_under_the_place_of_the_appending() {
    assert_eq!(list_append_key(Span { start: 3, end: 14 }), "list_calls:list_append_3..14");
}

fn loads(stored: Option<&str>) -> bool {
    let mut state = begin_persistence(&ActorContext::default());
    let restored = load_stored(&mut state, stored);
    let expected = if restored {
        PersistenceState::SkipFirstSource
    } else {
        PersistenceState::ForwardingSource
    };
    assert_eq!(state, expected);
    restored
}

#[test]
fn stored_json_is_taken_back_by_its_form() {
    assert!(loads(Some("\"hello\"")));
    assert!(loads(Some("1.5")));
    assert!(loads(Some("true")));
    assert!(loads(Some("null")));
    assert!(loads(Some("{\"_tag\":\"True\"}")));
    assert!(!loads(Some("{\"_tag\":\"Point\",\"x\":1}")));
    assert!(!loads(Some("{}")));
    assert!(!loads(Some("[1]")));
    assert!(!loads(Some("hello")));
    assert!(!loads(None));
}

#[test]
fn values_are_handled_in_the_order_of_their_times() {
    assert_eq!(arrival_order(&vec![]), Vec::<usize>::new());
    assert_eq!(arrival_order(&vec![5, 1, 5, 3, 1]), vec![1, 4, 3, 0, 2]);
    assert_eq!(arrival_order(&vec![2, 2, 2]), vec![0, 1, 2]);
}

#[test]
fn recorded_calls_are_kept_in_order() {
    let call = |id: &str| RecordedCall { id: id.to_string(), path: vec![], input: None };
    let mut log = CallLog::new(None);
    assert_eq!(log.next_number(), 0);
    log.record(call("call_0"));
    let mut log = CallLog::new(Some(log.calls));
    assert_eq!(log.next_number(), 1);
    log.record(call("call_1"));
    assert_eq!(log.calls, vec![call("call_0"), call("call_1")]);
}

#[test]
fn a_link_setter_uses_the_pass_through_that_is_there() {
    let mut ctx = EvaluationContext::new(ActorContext::default());
    assert_eq!(set_up_pass_through(&ctx, false), PassThroughSetup::Register);
    assert_eq!(set_up_pass_through(&ctx, true), PassThroughSetup::AddForwarder);
    ctx.pass_through_connector = false;
    assert_eq!(set_up_pass_through(&ctx, true), PassThroughSetup::Nothing);
    assert_eq!(
        deliver_to_link(false, Some(4), true),
        Some(LinkDelivery { to_link: Some(4), to_existing: true, to_own: true }),
    );
    assert_eq!(
        deliver_to_link(false, None, false),
        Some(LinkDelivery { to_link: None, to_existing: false, to_own: true }),
    );
    assert_eq!(deliver_to_link(true, Some(4), true), None);
}

#[test]
fn only_a_removal_is_kept_under_its_identity() {
    let key = PersistenceKey::Stored(PersistenceId(7));
    assert_eq!(binding_key(ListBindingOperation::Remove, key), Some(key));
    for operation in [
        ListBindingOperation::Transform,
        ListBindingOperation::Retain,
        ListBindingOperation::Every,
        ListBindingOperation::Any,
        ListBindingOperation::SortBy,
    ] {
        assert_eq!(binding_key(operation, key), None);
    }
}
