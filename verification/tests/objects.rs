use sima_pipeline::objects::{push_objects, Artifact, TaskRecord};

const SPEC: &str = "aa11";
const PARAMS: &str = "bb22";
const ENVIRONMENT: &str = "cc33";

fn identity_components() -> Vec<String> {
    let mut components = vec![
        SPEC.to_string(),
        PARAMS.to_string(),
        ENVIRONMENT.to_string(),
    ];
    components.sort();
    components
}

/// A committed segment that continued from `input_state` and left `output`.
fn segment(input_state: Option<&str>, output: &str) -> Option<TaskRecord> {
    Some(TaskRecord {
        spec_object: SPEC.to_string(),
        params: PARAMS.to_string(),
        environment: ENVIRONMENT.to_string(),
        input_state: input_state.map(str::to_string),
        artifacts: vec![Artifact {
            name: "state".to_string(),
            object: output.to_string(),
        }],
    })
}

fn with(states: &[&str]) -> Vec<String> {
    let mut expected = identity_components();
    expected.extend(states.iter().map(|state| state.to_string()));
    expected.sort();
    expected
}

#[test]
fn a_committed_chain_names_its_identity_components_and_one_state() {
    let records = vec![
        segment(None, "d0"),
        segment(Some("d0"), "d1"),
        segment(Some("d1"), "d2"),
    ];
    let named = push_objects(&records, "state");
    assert_eq!(named, with(&["d2"]), "the identity components plus one state");
    assert!(!named.contains(&"d0".to_string()));
    assert!(!named.contains(&"d1".to_string()));
}

#[test]
fn a_run_with_no_segments_names_the_identity_components_alone() {
    let mut record = segment(None, "an ordinary artifact").expect("a record");
    record.artifacts[0].name = "snapshot".to_string();
    assert_eq!(
        push_objects(&vec![Some(record)], "state"),
        identity_components()
    );
}

#[test]
fn a_key_the_store_does_not_answer_contributes_nothing() {
    let records = vec![segment(None, "d0"), None];
    assert_eq!(push_objects(&records, "state"), with(&["d0"]));
}

#[test]
fn several_chains_each_name_their_own_frontier() {
    let records = vec![
        segment(None, "a0"),
        segment(Some("a0"), "a1"),
        segment(None, "b0"),
    ];
    assert_eq!(push_objects(&records, "state"), with(&["a1", "b0"]));
}

#[test]
fn an_empty_key_set_names_nothing() {
    assert_eq!(push_objects(&vec![], "state"), Vec::<String>::new());
}

#[test]
fn the_order_the_records_were_read_in_makes_no_difference() {
    let forward = vec![
        segment(None, "d0"),
        segment(Some("d0"), "d1"),
        None,
        segment(None, "e0"),
    ];
    let mut backward = forward.clone();
    backward.reverse();
    backward.push(segment(None, "e0"));
    assert_eq!(
        push_objects(&forward, "state"),
        push_objects(&backward, "state")
    );
}

#[test]
fn a_state_that_is_also_a_component_is_named_though_it_is_consumed() {
    let records = vec![segment(None, SPEC), segment(Some(SPEC), "d1")];
    assert_eq!(push_objects(&records, "state"), with(&["d1"]));
}
