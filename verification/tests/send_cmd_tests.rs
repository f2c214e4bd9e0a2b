use tunnet::device::{update_request, UpdateArgs};
use tunnet::send_cmd::{
    send_plan, ConfigArgs, ListArgs, RejectArgs, SendAction, SendArgs, SendCommand,
    SendUsageError, TransferIdArgs,
};

fn s(x: &str) -> String {
    x.to_string()
}

fn bare(path: Option<&str>, target: Option<&str>) -> SendArgs {
    SendArgs {
        command: None,
        path: path.map(s),
        target: target.map(s),
        message: Some(s("hi")),
        json: true,
        state_dir: Some(s("/top")),
    }
}

#[test]
fn bare_send_needs_path_and_target() {
    assert_eq!(
        send_plan(bare(Some("f"), None)).unwrap_err(),
        SendUsageError::MissingPathOrTarget
    );
    assert_eq!(send_plan(bare(None, Some("t"))).unwrap_err(), SendUsageError::MissingPathOrTarget);
    let p = send_plan(bare(Some("f"), Some("t"))).unwrap();
    assert!(p.json);
    assert_eq!(p.state_dir.as_deref(), Some("/top"));
    match p.action {
        SendAction::SendFile { path, target, message } => {
            assert_eq!((path.as_str(), target.as_str()), ("f", "t"));
            assert_eq!(message.as_deref(), Some("hi"));
        }
        other => panic!("{other:?}"),
    }
}

#[test]
fn subcommands_use_their_own_flags() {
    let mut a = bare(None, None);
    a.command = Some(SendCommand::Accept(TransferIdArgs {
        transfer_id: s("t1"),
        json: false,
        state_dir: Some(s("/sub")),
    }));
    let p = send_plan(a).unwrap();
    assert!(!p.json);
    assert_eq!(p.state_dir.as_deref(), Some("/sub"));
    assert!(matches!(p.action, SendAction::Accept { ref transfer_id } if transfer_id == "t1"));

    let mut r = bare(None, None);
    r.command = Some(SendCommand::Reject(RejectArgs {
        transfer_id: s("t2"),
        reason: Some(s("no")),
        json: false,
        state_dir: None,
    }));
    match send_plan(r).unwrap().action {
        SendAction::Reject { transfer_id, reason } => {
            assert_eq!(transfer_id, "t2");
            assert_eq!(reason.as_deref(), Some("no"));
        }
        other => panic!("{other:?}"),
    }

    let mut l = bare(None, None);
    l.command = Some(SendCommand::History(ListArgs { json: true, state_dir: None }));
    let p = send_plan(l).unwrap();
    assert!(matches!(p.action, SendAction::History));
    assert_eq!(p.state_dir, None);
}

#[test]
fn config_reads_or_sets() {
    let mut c = bare(None, None);
    c.command = Some(SendCommand::Config(ConfigArgs {
        consent: None,
        inbox: None,
        pin_blobs: None,
        json: false,
        state_dir: None,
    }));
    assert!(matches!(send_plan(c).unwrap().action, SendAction::GetConfig));
    let mut c = bare(None, None);
    c.command = Some(SendCommand::Config(ConfigArgs {
        consent: None,
        inbox: None,
        pin_blobs: Some(false),
        json: false,
        state_dir: None,
    }));
    match send_plan(c).unwrap().action {
        SendAction::SetConfig { consent, inbox_path, pin_blobs } => {
            assert_eq!(consent, None);
            assert_eq!(inbox_path, None);
            assert_eq!(pin_blobs, Some(false));
        }
        other => panic!("{other:?}"),
    }
}

#[test]
fn update_request_passes_flags() {
    let r = update_request(UpdateArgs {
        check: true,
        force: false,
        restart: true,
        version: Some(s("1.2.3")),
    });
    assert!(r.check && !r.force && r.restart);
    assert_eq!(r.version.as_deref(), Some("1.2.3"));
}
