//! `send` commands: peer-to-peer file transfer over the mesh. Decides which
//! call to the local agent a command makes, with which body, and which
//! output mode and state directory apply.

use crate::direct::opt_view;
use vstd::prelude::*;

verus! {

#[derive(Debug, Clone)]
pub struct TransferIdArgs {
    pub transfer_id: String,
    pub json: bool,
    pub state_dir: Option<String>,
}

#[derive(Debug, Clone)]
pub struct RejectArgs {
    pub transfer_id: String,
    pub reason: Option<String>,
    pub json: bool,
    pub state_dir: Option<String>,
}

#[derive(Debug, Clone)]
pub struct ListArgs {
    pub json: bool,
    pub state_dir: Option<String>,
}

#[derive(Debug, Clone)]
pub struct ConfigArgs {
    /// Consent mode: `auto_accept`, `prompt` or `deny`.
    pub consent: Option<String>,
    pub inbox: Option<String>,
    pub pin_blobs: Option<bool>,
    pub json: bool,
    pub state_dir: Option<String>,
}

#[derive(Debug, Clone)]
pub enum SendCommand {
    /// Accept a pending inbound offer.
    Accept(TransferIdArgs),
    /// Reject a pending inbound offer.
    Reject(RejectArgs),
    /// List active and pending transfers.
    List(ListArgs),
    /// Completed, failed and rejected transfers.
    History(ListArgs),
    /// Show or update consent mode and inbox path.
    Config(ConfigArgs),
}

#[derive(Debug, Clone)]
pub struct SendArgs {
    pub command: Option<SendCommand>,
    /// Path to send (when not using a subcommand).
    pub path: Option<String>,
    /// Target hostname, mesh IP, endpoint id, or `tag:name`.
    pub target: Option<String>,
    pub message: Option<String>,
    pub json: bool,
    pub state_dir: Option<String>,
}

/// The call a `send` command makes to the local agent.
#[derive(Debug, Clone)]
pub enum SendAction {
    Accept { transfer_id: String },
    Reject { transfer_id: String, reason: Option<String> },
    List,
    History,
    /// Update the transfer settings with the given fields.
    SetConfig { consent: Option<String>, inbox_path: Option<String>, pin_blobs: Option<bool> },
    /// Read the transfer settings.
    GetConfig,
    /// Offer a file to a target.
    SendFile { path: String, target: String, message: Option<String> },
}

/// What a `send` command does: the call, whether output is JSON, and the
/// state directory that locates the local agent.
#[derive(Debug, Clone)]
pub struct SendPlan {
    pub action: SendAction,
    pub json: bool,
    pub state_dir: Option<String>,
}

/// A bare `send` without both a path and a target.
#[derive(Debug, Clone, Copy, PartialEq, Eq, Structural)]
pub enum SendUsageError {
    MissingPathOrTarget,
}

/// The content of a `send` call.
pub enum SendActionView {
    Accept(Seq<char>),
    Reject(Seq<char>, Option<Seq<char>>),
    List,
    History,
    SetConfig(Option<Seq<char>>, Option<Seq<char>>, Option<bool>),
    GetConfig,
    SendFile(Seq<char>, Seq<char>, Option<Seq<char>>),
}

impl SendAction {
    pub open spec fn content(self) -> SendActionView {
        match self {
            SendAction::Accept { transfer_id } => SendActionView::Accept(transfer_id@),
            SendAction::Reject { transfer_id, reason } => SendActionView::Reject(
                transfer_id@,
                opt_view(reason),
            ),
            SendAction::List => SendActionView::List,
            SendAction::History => SendActionView::History,
            SendAction::SetConfig { consent, inbox_path, pin_blobs } => SendActionView::SetConfig(
                opt_view(consent),
                opt_view(inbox_path),
                pin_blobs,
            ),
            SendAction::GetConfig => SendActionView::GetConfig,
            SendAction::SendFile { path, target, message } => SendActionView::SendFile(
                path@,
                target@,
                opt_view(message),
            ),
        }
    }
}

impl View for SendPlan {
    type V = (SendActionView, bool, Option<Seq<char>>);

    open spec fn view(&self) -> (SendActionView, bool, Option<Seq<char>>) {
        (self.action.content(), self.json, opt_view(self.state_dir))
    }
}

/// Whether a `config` subcommand changes a setting (else it reads them).
pub open spec fn config_changes(a: ConfigArgs) -> bool {
    a.consent is Some || a.inbox is Some || a.pin_blobs is Some
}

/// The plan for `args`: each subcommand uses its own output mode and state
/// directory; a bare `send` needs a path and a target.
pub open spec fn spec_send_plan(args: SendArgs) -> Result<
    (SendActionView, bool, Option<Seq<char>>),
    SendUsageError,
> {
    match args.command {
        Some(SendCommand::Accept(a)) => Ok(
            (SendActionView::Accept(a.transfer_id@), a.json, opt_view(a.state_dir)),
        ),
        Some(SendCommand::Reject(a)) => Ok(
            (
                SendActionView::Reject(a.transfer_id@, opt_view(a.reason)),
                a.json,
                opt_view(a.state_dir),
            ),
        ),
        Some(SendCommand::List(a)) => Ok((SendActionView::List, a.json, opt_view(a.state_dir))),
        Some(SendCommand::History(a)) => Ok((SendActionView::History, a.json, opt_view(a.state_dir))),
        Some(SendCommand::Config(a)) => Ok(
            (
                if config_changes(a) {
                    SendActionView::SetConfig(opt_view(a.consent), opt_view(a.inbox), a.pin_blobs)
                } else {
                    SendActionView::GetConfig
                },
                a.json,
                opt_view(a.state_dir),
            ),
        ),
        None => match (args.path, args.target) {
            (Some(path), Some(target)) => Ok(
                (
                    SendActionView::SendFile(path@, target@, opt_view(args.message)),
                    args.json,
                    opt_view(args.state_dir),
                ),
            ),
            _ => Err(SendUsageError::MissingPathOrTarget),
        },
    }
}

/// Decides what a `send` command does.
pub fn send_plan(args: SendArgs) -> (r: Result<SendPlan, SendUsageError>)
    ensures
        match spec_send_plan(args) {
            Ok(v) => r matches Ok(p) && p@ == v,
            Err(e) => r == Err::<SendPlan, SendUsageError>(e),
        },
{
    match args.command {
        Some(SendCommand::Accept(a)) => Ok(
            SendPlan {
                action: SendAction::Accept { transfer_id: a.transfer_id },
                json: a.json,
                state_dir: a.state_dir,
            },
        ),
        Some(SendCommand::Reject(a)) => Ok(
            SendPlan {
                action: SendAction::Reject { transfer_id: a.transfer_id, reason: a.reason },
                json: a.json,
                state_dir: a.state_dir,
            },
        ),
        Some(SendCommand::List(a)) => Ok(
            SendPlan { action: SendAction::List, json: a.json, state_dir: a.state_dir },
        ),
        Some(SendCommand::History(a)) => Ok(
            SendPlan { action: SendAction::History, json: a.json, state_dir: a.state_dir },
        ),
        Some(SendCommand::Config(a)) => {
            let action = if a.consent.is_some() || a.inbox.is_some() || a.pin_blobs.is_some() {
                SendAction::SetConfig { consent: a.consent, inbox_path: a.inbox, pin_blobs: a.pin_blobs }
            } else {
                SendAction::GetConfig
            };
            Ok(SendPlan { action, json: a.json, state_dir: a.state_dir })
        },
        None => match (args.path, args.target) {
            (Some(path), Some(target)) => Ok(
                SendPlan {
                    action: SendAction::SendFile { path, target, message: args.message },
                    json: args.json,
                    state_dir: args.state_dir,
                },
            ),
            _ => Err(SendUsageError::MissingPathOrTarget),
        },
    }
}

} // verus!
