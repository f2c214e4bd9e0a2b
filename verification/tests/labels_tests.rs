use tunnet::labels::{parse_label_csv, parse_label_pairs, parse_labels, EnrollArgs, LabelError};

fn pairs(v: &[(&str, &str)]) -> Vec<(String, String)> {
    v.iter().map(|(k, v)| (k.to_string(), v.to_string())).collect()
}

fn args(labels: Option<&str>, labels_json: Option<&str>) -> EnrollArgs {
    EnrollArgs {
        control_url: "http://127.0.0.1:8080".into(),
        token: None,
        org: None,
        network: None,
        hostname: None,
        wait_secs: 600,
        labels: labels.map(str::to_string),
        labels_json: labels_json.map(str::to_string),
        expires_in: None,
        no_encrypt_state: false,
    }
}

#[test]
fn csv_labels_are_trimmed_and_blank_pieces_skipped() {
    let l = parse_label_csv(" env = prod ,, team=net ,").unwrap();
    assert_eq!(l, pairs(&[("env", "prod"), ("team", "net")]));
}

#[test]
fn csv_later_key_wins() {
    let l = parse_label_csv("a=1,b=2,a=3").unwrap();
    assert_eq!(l, pairs(&[("a", "3"), ("b", "2")]));
}

#[test]
fn csv_value_may_hold_equals() {
    let l = parse_label_csv("k=a=b").unwrap();
    assert_eq!(l, pairs(&[("k", "a=b")]));
}

#[test]
fn csv_refuses_missing_equals_and_empty_key() {
    assert_eq!(parse_label_csv("a=1, oops "), Err(LabelError::InvalidPair("oops".into())));
    assert_eq!(parse_label_csv(" =x"), Err(LabelError::EmptyKey));
    assert_eq!(parse_label_csv("").unwrap(), Vec::new());
}

#[test]
fn pairs_are_not_trimmed() {
    let l = parse_label_pairs(&[" a =1".to_string(), "b=2".to_string()]).unwrap();
    assert_eq!(l, pairs(&[(" a ", "1"), ("b", "2")]));
    assert_eq!(parse_label_pairs(&["nope".to_string()]), Err(LabelError::InvalidPair("nope".into())));
}

#[test]
fn enroll_labels_from_csv_json_or_none() {
    assert_eq!(parse_labels(&args(None, None)).unwrap(), None);
    assert_eq!(parse_labels(&args(Some("=x,a=1"), None)).unwrap(), Some(pairs(&[("", "x"), ("a", "1")])));
    assert_eq!(
        parse_labels(&args(None, Some(r#"{"z":"1","a":"2"}"#))).unwrap(),
        Some(pairs(&[("a", "2"), ("z", "1")]))
    );
    assert_eq!(parse_labels(&args(None, Some("[1]"))), Err(LabelError::InvalidJson));
    assert_eq!(parse_labels(&args(None, Some(r#"{"a":1}"#))), Err(LabelError::InvalidJson));
}

#[test]
fn labels_json_object_of_strings() {
    let l = tunnet::labels::parse_labels_json(r#"{"role":"db","env":"prod"}"#).unwrap();
    assert_eq!(l, vec![("env".to_string(), "prod".to_string()), ("role".to_string(), "db".to_string())]);
    assert_eq!(tunnet::labels::parse_labels_json("[1]"), Err(tunnet::labels::LabelError::InvalidJson));
    assert_eq!(tunnet::labels::parse_labels_json(r#"{"a":1}"#), Err(tunnet::labels::LabelError::InvalidJson));
    assert_eq!(tunnet::labels::parse_labels_json("not json"), Err(tunnet::labels::LabelError::InvalidJson));
}
