use tunnet::device::{
    label_lines, labels_request, machine_request, reset_targets, session_state_dir, sort_labels,
    tag_lines, tags_request,
    DeviceRequest, LabelsCommand, LabelsDeleteArgs, LabelsSetArgs, MachineCommand,
    MachineSetExpiryArgs, TagAddArgs, TagCommand, TagRemoveArgs,
};
use tunnet::labels::LabelError;

#[test]
fn label_commands_map_to_requests() {
    let set = LabelsCommand::SetPairs(LabelsSetArgs { pairs: vec!["a=1".into(), "a=2".into()] });
    match labels_request(set) {
        Ok(DeviceRequest::SetLabels(l)) => assert_eq!(l, vec![("a".to_string(), "2".to_string())]),
        other => panic!("{other:?}"),
    }
    let bad = LabelsCommand::SetPairs(LabelsSetArgs { pairs: vec!["a".into()] });
    assert_eq!(labels_request(bad).err(), Some(LabelError::InvalidPair("a".into())));
    assert!(matches!(labels_request(LabelsCommand::Get), Ok(DeviceRequest::ListLabels)));
    match labels_request(LabelsCommand::Delete(LabelsDeleteArgs { key: "env".into() })) {
        Ok(DeviceRequest::DeleteLabel(k)) => assert_eq!(k, "env"),
        other => panic!("{other:?}"),
    }
}

#[test]
fn tag_and_machine_commands_map_to_requests() {
    assert!(matches!(tags_request(TagCommand::List), DeviceRequest::ListTags));
    assert!(matches!(tags_request(TagCommand::Add(TagAddArgs { tag: "x".into() })), DeviceRequest::AddTag(t) if t == "x"));
    assert!(matches!(tags_request(TagCommand::Remove(TagRemoveArgs { tag: "y".into() })), DeviceRequest::RemoveTag(t) if t == "y"));
    assert!(matches!(
        machine_request(MachineCommand::SetExpiry(MachineSetExpiryArgs { duration: "30d".into() })),
        DeviceRequest::SetExpiry(d) if d == "30d"
    ));
}

#[test]
fn tag_listing_lines() {
    assert_eq!(tag_lines(&[]), vec!["(no tags)".to_string()]);
    assert_eq!(tag_lines(&["a".into(), "b".into()]), vec!["tag:a".to_string(), "tag:b".to_string()]);
}

#[test]
fn reset_targets_and_session_dirs() {
    assert_eq!(reset_targets(Some("/x"), Some("/y"), "/sys"), vec!["/x".to_string()]);
    assert_eq!(reset_targets(None, Some("/sys"), "/sys"), vec!["/sys".to_string()]);
    assert_eq!(reset_targets(None, Some("/y"), "/sys"), vec!["/sys".to_string(), "/y".to_string()]);
    assert_eq!(reset_targets(None, None, "/sys"), vec!["/sys".to_string()]);
    assert_eq!(session_state_dir(Some("/g"), &Some("/o".into())), Some("/g".to_string()));
    assert_eq!(session_state_dir(None, &Some("/o".into())), Some("/o".to_string()));
    assert_eq!(session_state_dir(None, &None), None);
}

#[test]
fn labels_listed_sorted_by_key() {
    let labels = vec![
        ("zone".to_string(), Some("eu".to_string())),
        ("Team".to_string(), Some("net".to_string())),
        ("env".to_string(), None),
    ];
    assert_eq!(
        label_lines(&labels),
        vec!["Team=net".to_string(), "env=".to_string(), "zone=eu".to_string()]
    );
    assert_eq!(label_lines(&vec![]), vec!["(no labels)".to_string()]);
    let sorted = sort_labels(&labels);
    assert_eq!(sorted.len(), 3);
    assert_eq!(sorted[0].0, "Team");
}
