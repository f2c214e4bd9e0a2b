use tunnet::policy_cmd::{
    choose_policy_file, is_policy_file_name, policy_file_name, policy_op_request,
    policy_result_report, DirEntryInfo, PolicyApplyArgs, PolicyCase, PolicyCmdError,
    PolicyCommand, PolicyExportArgs, PolicyFile, PolicyHistoryArgs, PolicyIssue, PolicyPathArgs,
    PolicyResultData, PolicyRollbackArgs, PolicySimulateArgs,
};

fn s(x: &str) -> String {
    x.to_string()
}

fn labelled(label: &str, value: &str) -> String {
    format!("{label}: {value}")
}

fn file() -> Option<PolicyFile> {
    Some(PolicyFile { contents: s("{}"), name: s("policy.json") })
}

fn empty_data() -> PolicyResultData {
    PolicyResultData {
        valid: None,
        hash: None,
        warnings: None,
        errors: None,
        results: None,
        passed: None,
        failed: None,
        verdict: None,
        matched_rules: None,
        rendered: s("{\"ok\":true}"),
        pretty: s("{\n  \"ok\": true\n}"),
    }
}

#[test]
fn validate_request_sends_the_file() {
    let cmd = PolicyCommand::Validate(PolicyPathArgs { path: s("p"), json: true });
    assert_eq!(cmd.policy_path().as_deref(), Some("p"));
    let r = policy_op_request(&cmd, file()).unwrap();
    assert_eq!(r.op, "validate");
    assert_eq!(r.path_contents.as_deref(), Some("{}"));
    assert_eq!(r.path_name.as_deref(), Some("policy.json"));
    assert!(r.json);
    assert_eq!(r.force, None);
}

#[test]
fn export_needs_path_or_remote() {
    let cmd = PolicyCommand::Export(PolicyExportArgs {
        path: None,
        format: None,
        remote: false,
        json: false,
    });
    assert_eq!(policy_op_request(&cmd, None).unwrap_err(), PolicyCmdError::NeedPathOrRemote);
    let remote = PolicyCommand::Export(PolicyExportArgs {
        path: None,
        format: Some(s("hcl")),
        remote: true,
        json: false,
    });
    assert_eq!(remote.policy_path(), None);
    let r = policy_op_request(&remote, file()).unwrap();
    assert_eq!(r.op, "export");
    assert_eq!(r.format.as_deref(), Some("hcl"));
    assert_eq!(r.path_contents, None);
}

#[test]
fn simulate_apply_history_rollback_requests() {
    let sim = PolicyCommand::Simulate(PolicySimulateArgs {
        path: s("p"),
        from: s("a"),
        to: s("b"),
        json: false,
    });
    let r = policy_op_request(&sim, file()).unwrap();
    assert_eq!((r.from.as_deref(), r.to.as_deref()), (Some("a"), Some("b")));
    let apply = PolicyCommand::Apply(PolicyApplyArgs {
        path: s("p"),
        force: true,
        base_revision: Some(s("r1")),
        json: false,
    });
    let r = policy_op_request(&apply, file()).unwrap();
    assert_eq!(r.force, Some(true));
    assert_eq!(r.base_revision.as_deref(), Some("r1"));
    let hist = PolicyCommand::History(PolicyHistoryArgs { json: false });
    let r = policy_op_request(&hist, file()).unwrap();
    assert_eq!(r.op, "history");
    assert_eq!(r.path_contents, None);
    let rb = PolicyCommand::Rollback(PolicyRollbackArgs { revision_id: s("r7"), json: true });
    let r = policy_op_request(&rb, None).unwrap();
    assert_eq!(r.revision_id.as_deref(), Some("r7"));
}

#[test]
fn policy_extensions() {
    assert!(is_policy_file_name("policy.json"));
    assert!(is_policy_file_name("a.b.hcl"));
    assert!(is_policy_file_name("x.yaml"));
    assert!(is_policy_file_name("x.yml"));
    assert!(!is_policy_file_name(".json"));
    assert!(!is_policy_file_name("json"));
    assert!(!is_policy_file_name("x.JSON"));
    assert!(!is_policy_file_name("x."));
    assert!(!is_policy_file_name("x.txt"));
}

#[test]
fn directory_picks_first_policy_file_by_name() {
    let entries = vec![
        DirEntryInfo { name: s("z.json"), is_file: true },
        DirEntryInfo { name: s("readme.md"), is_file: true },
        DirEntryInfo { name: s("a.yaml"), is_file: true },
        DirEntryInfo { name: s("0.json"), is_file: false },
        DirEntryInfo { name: s("B.hcl"), is_file: true },
    ];
    // Byte order: uppercase letters sort before lowercase ones.
    assert_eq!(choose_policy_file(&entries), Some(4));
    let none = vec![DirEntryInfo { name: s("readme.md"), is_file: true }];
    assert_eq!(choose_policy_file(&none), None);
    assert_eq!(policy_file_name(None), "policy.json");
    assert_eq!(policy_file_name(Some(s("x.hcl"))), "x.hcl");
}

#[test]
fn validate_report() {
    let mut d = empty_data();
    d.valid = Some(true);
    d.hash = Some(s("abc"));
    d.warnings = Some(vec![
        PolicyIssue { message: Some(s("unused tag")), path: Some(s("rules[0]")) },
        PolicyIssue { message: None, path: None },
    ]);
    let r = policy_result_report("validate", &d);
    assert_eq!(r.stdout, vec![s("policy: ok (hash abc)")]);
    assert_eq!(r.stderr, vec![s("warning [rules[0]]: unused tag"), s("warning: ")]);
    assert!(!r.exit_failure);

    let mut bad = empty_data();
    bad.valid = Some(false);
    bad.errors = Some(vec![PolicyIssue { message: Some(s("boom")), path: None }]);
    let r = policy_result_report("validate", &bad);
    assert!(r.stdout.is_empty());
    assert_eq!(r.stderr, vec![s("error: boom")]);
    assert!(r.exit_failure);

    let r = policy_result_report("validate", &empty_data());
    assert!(r.stdout.is_empty() && r.stderr.is_empty() && !r.exit_failure);
}

#[test]
fn test_report() {
    let mut d = empty_data();
    d.results = Some(vec![
        PolicyCase { name: Some(s("ssh")), passed: Some(true), message: None },
        PolicyCase { name: Some(s("web")), passed: Some(false), message: Some(s("denied")) },
        PolicyCase { name: None, passed: None, message: None },
    ]);
    d.passed = Some(1);
    d.failed = Some(2);
    let r = policy_result_report("test", &d);
    assert_eq!(r.stdout, vec![s("PASS  ssh"), s(""), s("1 passed, 2 failed")]);
    assert_eq!(r.stderr, vec![s("FAIL  web - denied"), s("FAIL  ?")]);
    assert!(r.exit_failure);
    let r = policy_result_report("test", &empty_data());
    assert_eq!(r.stdout, vec![s(""), s("0 passed, 0 failed")]);
    assert!(!r.exit_failure);
}

#[test]
fn simulate_and_other_reports() {
    let mut d = empty_data();
    d.verdict = Some(s("allow"));
    d.matched_rules = Some(vec![Some(s("a")), None, Some(s("b"))]);
    let r = policy_result_report("simulate", &d);
    assert_eq!(r.stdout, vec![labelled("verdict", "allow"), labelled("matched", "a, b")]);
    d.matched_rules = Some(vec![]);
    let r = policy_result_report("simulate", &d);
    assert_eq!(r.stdout, vec![labelled("verdict", "allow"), labelled("matched", "(none)")]);
    d.matched_rules = None;
    d.verdict = None;
    let r = policy_result_report("simulate", &d);
    assert_eq!(r.stdout, vec![labelled("verdict", "?")]);
    let r = policy_result_report("apply", &empty_data());
    assert_eq!(r.stdout, vec![s("apply: {\"ok\":true}")]);
    let r = policy_result_report("rollback", &empty_data());
    assert_eq!(r.stdout, vec![s("rollback: {\"ok\":true}")]);
    let r = policy_result_report("history", &empty_data());
    assert_eq!(r.stdout, vec![s("{\n  \"ok\": true\n}")]);
}
