//! `policy` commands: the request each one sends to the local agent, the
//! file it reads from a policy directory, and the report a person sees.

use crate::direct::opt_view;
use crate::text::{decimal, decimal_string, lemma_name_le_total, lemma_name_le_trans, name_le, name_le_exec};
use vstd::prelude::*;
use vstd::string::*;

verus! {

#[derive(Debug, Clone)]
pub struct PolicyPathArgs {
    pub path: String,
    pub json: bool,
}

#[derive(Debug, Clone)]
pub struct PolicyRemotePathArgs {
    pub path: String,
    pub json: bool,
}

#[derive(Debug, Clone)]
pub struct PolicyApplyArgs {
    pub path: String,
    pub force: bool,
    pub base_revision: Option<String>,
    pub json: bool,
}

#[derive(Debug, Clone)]
pub struct PolicyHistoryArgs {
    pub json: bool,
}

#[derive(Debug, Clone)]
pub struct PolicyRollbackArgs {
    pub revision_id: String,
    pub json: bool,
}

#[derive(Debug, Clone)]
pub struct PolicySimulateArgs {
    pub path: String,
    pub from: String,
    pub to: String,
    pub json: bool,
}

#[derive(Debug, Clone)]
pub struct PolicyExportArgs {
    /// Local policy file for export; absent for a remote export.
    pub path: Option<String>,
    pub format: Option<String>,
    pub remote: bool,
    pub json: bool,
}

#[derive(Debug, Clone)]
pub enum PolicyCommand {
    Validate(PolicyPathArgs),
    Test(PolicyPathArgs),
    Simulate(PolicySimulateArgs),
    Fmt(PolicyPathArgs),
    Export(PolicyExportArgs),
    Diff(PolicyRemotePathArgs),
    Apply(PolicyApplyArgs),
    Drift(PolicyRemotePathArgs),
    History(PolicyHistoryArgs),
    Rollback(PolicyRollbackArgs),
}

/// The operation name a command sends.
pub open spec fn op_name(c: PolicyCommand) -> Seq<char> {
    match c {
        PolicyCommand::Validate(_) => "validate"@,
        PolicyCommand::Test(_) => "test"@,
        PolicyCommand::Simulate(_) => "simulate"@,
        PolicyCommand::Fmt(_) => "fmt"@,
        PolicyCommand::Export(_) => "export"@,
        PolicyCommand::Diff(_) => "diff"@,
        PolicyCommand::Apply(_) => "apply"@,
        PolicyCommand::Drift(_) => "drift"@,
        PolicyCommand::History(_) => "history"@,
        PolicyCommand::Rollback(_) => "rollback"@,
    }
}

/// Whether a command asked for JSON output.
pub open spec fn json_flag(c: PolicyCommand) -> bool {
    match c {
        PolicyCommand::Validate(a) => a.json,
        PolicyCommand::Test(a) => a.json,
        PolicyCommand::Simulate(a) => a.json,
        PolicyCommand::Fmt(a) => a.json,
        PolicyCommand::Export(a) => a.json,
        PolicyCommand::Diff(a) => a.json,
        PolicyCommand::Apply(a) => a.json,
        PolicyCommand::Drift(a) => a.json,
        PolicyCommand::History(a) => a.json,
        PolicyCommand::Rollback(a) => a.json,
    }
}

/// The local policy path a command reads, if any.
pub open spec fn spec_policy_path(c: PolicyCommand) -> Option<Seq<char>> {
    match c {
        PolicyCommand::Validate(a) => Some(a.path@),
        PolicyCommand::Test(a) => Some(a.path@),
        PolicyCommand::Simulate(a) => Some(a.path@),
        PolicyCommand::Fmt(a) => Some(a.path@),
        PolicyCommand::Export(a) => opt_view(a.path),
        PolicyCommand::Diff(a) => Some(a.path@),
        PolicyCommand::Apply(a) => Some(a.path@),
        PolicyCommand::Drift(a) => Some(a.path@),
        PolicyCommand::History(_) => None,
        PolicyCommand::Rollback(_) => None,
    }
}

impl PolicyCommand {
    /// The local policy path this command reads before it sends its
    /// request; `None` for history, rollback and a remote export.
    pub fn policy_path(&self) -> (r: Option<String>)
        ensures
            opt_view(r) == spec_policy_path(*self),
    {
        match self {
            PolicyCommand::Validate(a) => Some(a.path.clone()),
            PolicyCommand::Test(a) => Some(a.path.clone()),
            PolicyCommand::Simulate(a) => Some(a.path.clone()),
            PolicyCommand::Fmt(a) => Some(a.path.clone()),
            PolicyCommand::Export(a) => match &a.path {
                Some(p) => Some(p.clone()),
                None => None,
            },
            PolicyCommand::Diff(a) => Some(a.path.clone()),
            PolicyCommand::Apply(a) => Some(a.path.clone()),
            PolicyCommand::Drift(a) => Some(a.path.clone()),
            PolicyCommand::History(_) => None,
            PolicyCommand::Rollback(_) => None,
        }
    }
}

/// A policy file that was read: its text and its file name.
#[derive(Debug, Clone)]
pub struct PolicyFile {
    pub contents: String,
    pub name: String,
}

/// A request to the local agent's policy endpoint.
#[derive(Debug, Clone)]
pub struct PolicyOpRequest {
    pub op: String,
    pub path_contents: Option<String>,
    pub path_name: Option<String>,
    pub format: Option<String>,
    pub from: Option<String>,
    pub to: Option<String>,
    pub force: Option<bool>,
    pub base_revision: Option<String>,
    pub revision_id: Option<String>,
    pub json: bool,
}

/// The content of a policy request.
pub struct PolicyOpView {
    pub op: Seq<char>,
    pub path_contents: Option<Seq<char>>,
    pub path_name: Option<Seq<char>>,
    pub format: Option<Seq<char>>,
    pub from: Option<Seq<char>>,
    pub to: Option<Seq<char>>,
    pub force: Option<bool>,
    pub base_revision: Option<Seq<char>>,
    pub revision_id: Option<Seq<char>>,
    pub json: bool,
}

impl View for PolicyOpRequest {
    type V = PolicyOpView;

    open spec fn view(&self) -> PolicyOpView {
        PolicyOpView {
            op: self.op@,
            path_contents: opt_view(self.path_contents),
            path_name: opt_view(self.path_name),
            format: opt_view(self.format),
            from: opt_view(self.from),
            to: opt_view(self.to),
            force: self.force,
            base_revision: opt_view(self.base_revision),
            revision_id: opt_view(self.revision_id),
            json: self.json,
        }
    }
}

/// Why a policy command cannot build its request.
#[derive(Debug, Clone, Copy, PartialEq, Eq, Structural)]
pub enum PolicyCmdError {
    /// `export` needs a local path or `--remote`.
    NeedPathOrRemote,
}

pub open spec fn file_contents(f: Option<PolicyFile>) -> Option<Seq<char>> {
    match f {
        Some(x) => Some(x.contents@),
        None => None,
    }
}

pub open spec fn file_name(f: Option<PolicyFile>) -> Option<Seq<char>> {
    match f {
        Some(x) => Some(x.name@),
        None => None,
    }
}

/// The request a command sends, given the policy file read for it (the
/// file is only sent by commands that read one).
pub open spec fn spec_policy_request(c: PolicyCommand, f: Option<PolicyFile>) -> Result<
    PolicyOpView,
    PolicyCmdError,
> {
    let sends_file = spec_policy_path(c) is Some;
    let base = PolicyOpView {
        op: op_name(c),
        path_contents: if sends_file {
            file_contents(f)
        } else {
            None
        },
        path_name: if sends_file {
            file_name(f)
        } else {
            None
        },
        format: None,
        from: None,
        to: None,
        force: None,
        base_revision: None,
        revision_id: None,
        json: json_flag(c),
    };
    match c {
        PolicyCommand::Simulate(a) => Ok(PolicyOpView { from: Some(a.from@), to: Some(a.to@), ..base }),
        PolicyCommand::Export(a) => if a.path is None && !a.remote {
            Err(PolicyCmdError::NeedPathOrRemote)
        } else {
            Ok(PolicyOpView { format: opt_view(a.format), ..base })
        },
        PolicyCommand::Apply(a) => Ok(
            PolicyOpView { force: Some(a.force), base_revision: opt_view(a.base_revision), ..base },
        ),
        PolicyCommand::Rollback(a) => Ok(PolicyOpView { revision_id: Some(a.revision_id@), ..base }),
        _ => Ok(base),
    }
}

fn clone_opt(s: &Option<String>) -> (r: Option<String>)
    ensures
        opt_view(r) == opt_view(*s),
{
    match s {
        Some(v) => Some(v.clone()),
        None => None,
    }
}

fn op_name_of(c: &PolicyCommand) -> (s: String)
    ensures
        s@ == op_name(*c),
{
    match c {
        PolicyCommand::Validate(_) => String::from_str("validate"),
        PolicyCommand::Test(_) => String::from_str("test"),
        PolicyCommand::Simulate(_) => String::from_str("simulate"),
        PolicyCommand::Fmt(_) => String::from_str("fmt"),
        PolicyCommand::Export(_) => String::from_str("export"),
        PolicyCommand::Diff(_) => String::from_str("diff"),
        PolicyCommand::Apply(_) => String::from_str("apply"),
        PolicyCommand::Drift(_) => String::from_str("drift"),
        PolicyCommand::History(_) => String::from_str("history"),
        PolicyCommand::Rollback(_) => String::from_str("rollback"),
    }
}

fn json_flag_of(c: &PolicyCommand) -> (b: bool)
    ensures
        b == json_flag(*c),
{
    match c {
        PolicyCommand::Validate(a) => a.json,
        PolicyCommand::Test(a) => a.json,
        PolicyCommand::Simulate(a) => a.json,
        PolicyCommand::Fmt(a) => a.json,
        PolicyCommand::Export(a) => a.json,
        PolicyCommand::Diff(a) => a.json,
        PolicyCommand::Apply(a) => a.json,
        PolicyCommand::Drift(a) => a.json,
        PolicyCommand::History(a) => a.json,
        PolicyCommand::Rollback(a) => a.json,
    }
}

/// Builds the request a policy command sends; `file` is the policy file
/// read from the command's path.
pub fn policy_op_request(command: &PolicyCommand, file: Option<PolicyFile>) -> (r: Result<
    PolicyOpRequest,
    PolicyCmdError,
>)
    ensures
        match spec_policy_request(*command, file) {
            Ok(v) => r matches Ok(q) && q@ == v,
            Err(e) => r == Err::<PolicyOpRequest, PolicyCmdError>(e),
        },
{
    if let PolicyCommand::Export(a) = command {
        if a.path.is_none() && !a.remote {
            return Err(PolicyCmdError::NeedPathOrRemote);
        }
    }
    let sends_file = command.policy_path().is_some();
    let (path_contents, path_name) = match file {
        Some(f) => if sends_file {
            (Some(f.contents), Some(f.name))
        } else {
            (None, None)
        },
        None => (None, None),
    };
    let mut req = PolicyOpRequest {
        op: op_name_of(command),
        path_contents,
        path_name,
        format: None,
        from: None,
        to: None,
        force: None,
        base_revision: None,
        revision_id: None,
        json: json_flag_of(command),
    };
    match command {
        PolicyCommand::Simulate(a) => {
            req.from = Some(a.from.clone());
            req.to = Some(a.to.clone());
        },
        PolicyCommand::Export(a) => {
            req.format = clone_opt(&a.format);
        },
        PolicyCommand::Apply(a) => {
            req.force = Some(a.force);
            req.base_revision = clone_opt(&a.base_revision);
        },
        PolicyCommand::Rollback(a) => {
            req.revision_id = Some(a.revision_id.clone());
        },
        _ => {},
    }
    Ok(req)
}

/// Index of the last `c` in `s`, or -1 when there is none.
pub open spec fn last_index_of(s: Seq<char>, c: char) -> int
    decreases s.len(),
{
    if s.len() == 0 {
        -1
    } else if s.last() == c {
        s.len() - 1
    } else {
        last_index_of(s.drop_last(), c)
    }
}

proof fn lemma_last_index_bounds(s: Seq<char>, c: char)
    ensures
        -1 <= last_index_of(s, c) < s.len(),
        last_index_of(s, c) >= 0 ==> s[last_index_of(s, c)] == c,
        forall|k: int| last_index_of(s, c) < k < s.len() ==> s[k] != c,
    decreases s.len(),
{
    if s.len() > 0 && s.last() != c {
        lemma_last_index_bounds(s.drop_last(), c);
        assert forall|k: int| last_index_of(s, c) < k < s.len() implies s[k] != c by {
            if k < s.len() - 1 {
                assert(s.drop_last()[k] == s[k]);
            }
        }
    }
}

/// The extension of a file name: what follows its last dot, unless that
/// dot is the name's first character (as `Path::extension` reads it).
pub open spec fn extension(name: Seq<char>) -> Option<Seq<char>> {
    let i = last_index_of(name, '.');
    if i > 0 {
        Some(name.skip(i + 1))
    } else {
        None
    }
}

/// Whether a file name is that of a policy file: extension `json`, `hcl`,
/// `yaml` or `yml`.
pub open spec fn has_policy_extension(name: Seq<char>) -> bool {
    match extension(name) {
        Some(e) => e == "json"@ || e == "hcl"@ || e == "yaml"@ || e == "yml"@,
        None => false,
    }
}

pub fn is_policy_file_name(name: &str) -> (b: bool)
    ensures
        b == has_policy_extension(name@),
{
    let n = name.unicode_len();
    let mut i: usize = n;
    while i > 0
        invariant
            n == name@.len(),
            i <= n,
            forall|k: int| i <= k < n ==> name@[k] != '.',
        ensures
            i > 0 ==> name@[i - 1] == '.',
        decreases i,
    {
        if name.get_char(i - 1) == '.' {
            break;
        }
        i = i - 1;
    }
    proof {
        lemma_last_index_bounds(name@, '.');
    }
    if i <= 1 {
        // No dot, or the only dot at position 0 of the name.
        proof {
            if i == 1 && name@[0] == '.' {
                assert(last_index_of(name@, '.') == 0);
            } else {
                assert(last_index_of(name@, '.') < 1);
            }
        }
        return false;
    }
    assert(name@[i - 1] == '.');
    assert(last_index_of(name@, '.') == i - 1);
    let ext = String::from_str(name.substring_char(i, n));
    assert(ext@ == name@.skip(i as int));
    let json = String::from_str("json");
    let hcl = String::from_str("hcl");
    let yaml = String::from_str("yaml");
    let yml = String::from_str("yml");
    ext == json || ext == hcl || ext == yaml || ext == yml
}

/// A directory entry seen while looking for a policy file.
#[derive(Debug, Clone)]
pub struct DirEntryInfo {
    pub name: String,
    pub is_file: bool,
}

pub open spec fn qualifies(e: DirEntryInfo) -> bool {
    e.is_file && has_policy_extension(e.name@)
}

/// The policy file read from a directory: among the regular files with a
/// policy extension, the one whose name comes first.
pub fn choose_policy_file(entries: &Vec<DirEntryInfo>) -> (r: Option<usize>)
    ensures
        r is None <==> forall|j: int| 0 <= j < entries@.len() ==> !qualifies(#[trigger] entries@[j]),
        r matches Some(k) ==> k < entries@.len() && qualifies(entries@[k as int]) && forall|j: int|
            0 <= j < entries@.len() && qualifies(#[trigger] entries@[j]) ==> name_le(
                entries@[k as int].name@,
                entries@[j].name@,
            ),
{
    let mut best: Option<usize> = None;
    let mut i: usize = 0;
    while i < entries.len()
        invariant
            i <= entries@.len(),
            best is None <==> forall|j: int| 0 <= j < i ==> !qualifies(#[trigger] entries@[j]),
            best matches Some(k) ==> k < i && qualifies(entries@[k as int]) && forall|j: int|
                0 <= j < i && qualifies(#[trigger] entries@[j]) ==> name_le(
                    entries@[k as int].name@,
                    entries@[j].name@,
                ),
        decreases entries@.len() - i,
    {
        let e = &entries[i];
        if e.is_file && is_policy_file_name(e.name.as_str()) {
            match best {
                None => {
                    proof {
                        lemma_name_le_total(e.name@, e.name@);
                    }
                    best = Some(i);
                },
                Some(k) => {
                    if !name_le_exec(entries[k].name.as_str(), e.name.as_str()) {
                        proof {
                            lemma_name_le_total(entries@[k as int].name@, e.name@);
                            assert forall|j: int|
                                0 <= j < i + 1 && qualifies(#[trigger] entries@[j]) implies name_le(
                                e.name@,
                                entries@[j].name@,
                            ) by {
                                if j < i {
                                    lemma_name_le_trans(
                                        e.name@,
                                        entries@[k as int].name@,
                                        entries@[j].name@,
                                    );
                                } else {
                                    lemma_name_le_total(e.name@, e.name@);
                                }
                            }
                        }
                        best = Some(i);
                    }
                },
            }
        }
        i = i + 1;
    }
    best
}

/// The name sent for a policy file whose name could not be read as text.
pub fn policy_file_name(name: Option<String>) -> (r: String)
    ensures
        r@ == (match name {
            Some(n) => n@,
            None => "policy.json"@,
        }),
{
    match name {
        Some(n) => n,
        None => String::from_str("policy.json"),
    }
}

/// A warning or error reported by a policy validation.
#[derive(Debug, Clone)]
pub struct PolicyIssue {
    pub message: Option<String>,
    pub path: Option<String>,
}

/// One case of a policy test run.
#[derive(Debug, Clone)]
pub struct PolicyCase {
    pub name: Option<String>,
    pub passed: Option<bool>,
    pub message: Option<String>,
}

/// What a policy result holds, each member absent when the agent's JSON
/// lacks it or has it with another type. `rendered` and `pretty` are the
/// whole result as compact and as indented JSON.
#[derive(Debug, Clone)]
pub struct PolicyResultData {
    pub valid: Option<bool>,
    pub hash: Option<String>,
    pub warnings: Option<Vec<PolicyIssue>>,
    pub errors: Option<Vec<PolicyIssue>>,
    pub results: Option<Vec<PolicyCase>>,
    pub passed: Option<u64>,
    pub failed: Option<u64>,
    pub verdict: Option<String>,
    /// The matched rules; an entry is absent when it is not a string.
    pub matched_rules: Option<Vec<Option<String>>>,
    pub rendered: String,
    pub pretty: String,
}

/// The lines a policy result prints for a person, and whether the command
/// then exits with failure.
#[derive(Debug, Clone)]
pub struct PolicyReport {
    pub stdout: Vec<String>,
    pub stderr: Vec<String>,
    pub exit_failure: bool,
}

pub struct ReportView {
    pub stdout: Seq<Seq<char>>,
    pub stderr: Seq<Seq<char>>,
    pub exit_failure: bool,
}

pub open spec fn strings_view(v: Seq<String>) -> Seq<Seq<char>> {
    v.map_values(|s: String| s@)
}

impl View for PolicyReport {
    type V = ReportView;

    open spec fn view(&self) -> ReportView {
        ReportView {
            stdout: strings_view(self.stdout@),
            stderr: strings_view(self.stderr@),
            exit_failure: self.exit_failure,
        }
    }
}

pub open spec fn or_text(s: Option<String>, d: Seq<char>) -> Seq<char> {
    match s {
        Some(t) => t@,
        None => d,
    }
}

/// `kind [path]: message`, the path part only when there is one.
pub open spec fn issue_line(kind: Seq<char>, i: PolicyIssue) -> Seq<char> {
    kind + (match i.path {
        Some(p) => " ["@ + p@ + "]"@,
        None => Seq::empty(),
    }) + ": "@ + or_text(i.message, Seq::empty())
}

pub open spec fn issue_lines(kind: Seq<char>, is: Seq<PolicyIssue>) -> Seq<Seq<char>> {
    is.map_values(|i: PolicyIssue| issue_line(kind, i))
}

pub open spec fn case_name(c: PolicyCase) -> Seq<char> {
    or_text(c.name, "?"@)
}

/// `PASS  name` for each passed case, in order.
pub open spec fn pass_lines(cs: Seq<PolicyCase>) -> Seq<Seq<char>>
    decreases cs.len(),
{
    if cs.len() == 0 {
        Seq::empty()
    } else if cs.last().passed == Some(true) {
        pass_lines(cs.drop_last()).push("PASS  "@ + case_name(cs.last()))
    } else {
        pass_lines(cs.drop_last())
    }
}

/// `FAIL  name - message` for each other case, in order.
pub open spec fn fail_lines(cs: Seq<PolicyCase>) -> Seq<Seq<char>>
    decreases cs.len(),
{
    if cs.len() == 0 {
        Seq::empty()
    } else if cs.last().passed == Some(true) {
        fail_lines(cs.drop_last())
    } else {
        fail_lines(cs.drop_last()).push(
            "FAIL  "@ + case_name(cs.last()) + (match cs.last().message {
                Some(m) => " - "@ + m@,
                None => Seq::empty(),
            }),
        )
    }
}

/// The names among the matched rules, in order.
pub open spec fn rule_names(rs: Seq<Option<String>>) -> Seq<Seq<char>>
    decreases rs.len(),
{
    if rs.len() == 0 {
        Seq::empty()
    } else {
        match rs.last() {
            Some(n) => rule_names(rs.drop_last()).push(n@),
            None => rule_names(rs.drop_last()),
        }
    }
}

/// `parts` separated by `sep`.
pub open spec fn join(parts: Seq<Seq<char>>, sep: Seq<char>) -> Seq<char>
    decreases parts.len(),
{
    if parts.len() == 0 {
        Seq::empty()
    } else if parts.len() == 1 {
        parts[0]
    } else {
        join(parts.drop_last(), sep) + sep + parts.last()
    }
}

pub open spec fn count_or_zero(n: Option<u64>) -> nat {
    match n {
        Some(v) => v as nat,
        None => 0,
    }
}

/// `label: value`.
pub open spec fn labelled(label: Seq<char>, value: Seq<char>) -> Seq<char> {
    label + ": "@ + value
}

fn labelled_line(label: &str, value: &str) -> (s: String)
    ensures
        s@ == labelled(label@, value@),
{
    let mut s = String::from_str(label);
    s.append(": ");
    s.append(value);
    s
}

/// The human report of a policy result for operation `op`.
pub open spec fn spec_policy_report(op: Seq<char>, d: PolicyResultData) -> ReportView {
    if op == "validate"@ {
        if d.valid == Some(true) {
            ReportView {
                stdout: seq!["policy: ok (hash "@ + or_text(d.hash, "?"@) + ")"@],
                stderr: match d.warnings {
                    Some(w) => issue_lines("warning"@, w@),
                    None => Seq::empty(),
                },
                exit_failure: false,
            }
        } else {
            match d.errors {
                Some(e) => ReportView {
                    stdout: Seq::empty(),
                    stderr: issue_lines("error"@, e@),
                    exit_failure: true,
                },
                None => ReportView { stdout: Seq::empty(), stderr: Seq::empty(), exit_failure: false },
            }
        }
    } else if op == "test"@ {
        let cases = match d.results {
            Some(r) => r@,
            None => Seq::empty(),
        };
        ReportView {
            stdout: pass_lines(cases).push(Seq::empty()).push(
                decimal(count_or_zero(d.passed)) + " passed, "@ + decimal(count_or_zero(d.failed))
                    + " failed"@,
            ),
            stderr: fail_lines(cases),
            exit_failure: count_or_zero(d.failed) > 0,
        }
    } else if op == "simulate"@ {
        let first = labelled("verdict"@, or_text(d.verdict, "?"@));
        ReportView {
            stdout: match d.matched_rules {
                Some(r) => if r@.len() == 0 {
                    seq![first, labelled("matched"@, "(none)"@)]
                } else {
                    seq![first, labelled("matched"@, join(rule_names(r@), ", "@))]
                },
                None => seq![first],
            },
            stderr: Seq::empty(),
            exit_failure: false,
        }
    } else if op == "apply"@ || op == "rollback"@ {
        ReportView { stdout: seq![op + ": "@ + d.rendered@], stderr: Seq::empty(), exit_failure: false }
    } else {
        ReportView { stdout: seq![d.pretty@], stderr: Seq::empty(), exit_failure: false }
    }
}

fn issue_line_of(kind: &str, i: &PolicyIssue) -> (s: String)
    ensures
        s@ == issue_line(kind@, *i),
{
    let mut s = String::from_str(kind);
    match &i.path {
        Some(p) => {
            s.append(" [");
            s.append(p.as_str());
            s.append("]");
        },
        None => {},
    }
    s.append(": ");
    match &i.message {
        Some(m) => s.append(m.as_str()),
        None => {},
    }
    proof {
        assert(s@ =~= issue_line(kind@, *i));
    }
    s
}

fn issue_lines_of(kind: &str, is: &Vec<PolicyIssue>) -> (r: Vec<String>)
    ensures
        strings_view(r@) == issue_lines(kind@, is@),
{
    let mut out: Vec<String> = Vec::new();
    let mut i: usize = 0;
    while i < is.len()
        invariant
            i <= is@.len(),
            out@.len() == i,
            forall|k: int| 0 <= k < i ==> (#[trigger] out@[k])@ == issue_line(kind@, is@[k]),
        decreases is@.len() - i,
    {
        let line = issue_line_of(kind, &is[i]);
        out.push(line);
        i = i + 1;
    }
    assert(strings_view(out@) =~= issue_lines(kind@, is@));
    out
}

fn case_name_of(c: &PolicyCase) -> (s: String)
    ensures
        s@ == case_name(*c),
{
    match &c.name {
        Some(n) => n.clone(),
        None => String::from_str("?"),
    }
}

fn rules_joined(rs: &Vec<Option<String>>) -> (s: String)
    ensures
        s@ == join(rule_names(rs@), ", "@),
{
    let mut s = String::new();
    let mut count: usize = 0;
    let mut i: usize = 0;
    while i < rs.len()
        invariant
            i <= rs@.len(),
            count == rule_names(rs@.take(i as int)).len(),
            count <= i,
            s@ == join(rule_names(rs@.take(i as int)), ", "@),
        decreases rs@.len() - i,
    {
        proof {
            assert(rs@.take(i as int + 1).drop_last() =~= rs@.take(i as int));
        }
        match &rs[i] {
            Some(n) => {
                let ghost before = rule_names(rs@.take(i as int));
                proof {
                    assert(before.push(n@).drop_last() =~= before);
                }
                if count > 0 {
                    s.append(", ");
                }
                s.append(n.as_str());
                count = count + 1;
                proof {
                    if before.len() == 0 {
                        assert(s@ =~= n@);
                    }
                }
            },
            None => {},
        }
        i = i + 1;
    }
    assert(rs@.take(rs@.len() as int) =~= rs@);
    s
}

fn op_is(op: &str, name: &str) -> (b: bool)
    ensures
        b == (op@ == name@),
{
    String::from_str(op) == String::from_str(name)
}

/// The report a person sees for a policy result of operation `op` (JSON
/// output prints the result itself instead).
pub fn policy_result_report(op: &str, data: &PolicyResultData) -> (r: PolicyReport)
    ensures
        r@ == spec_policy_report(op@, *data),
{
    let mut stdout: Vec<String> = Vec::new();
    let mut stderr: Vec<String> = Vec::new();
    let mut exit_failure = false;
    if op_is(op, "validate") {
        if data.valid == Some(true) {
            let mut line = String::from_str("policy: ok (hash ");
            match &data.hash {
                Some(h) => line.append(h.as_str()),
                None => line.append("?"),
            }
            line.append(")");
            stdout.push(line);
            match &data.warnings {
                Some(w) => {
                    stderr = issue_lines_of("warning", w);
                },
                None => {},
            }
        } else {
            match &data.errors {
                Some(e) => {
                    stderr = issue_lines_of("error", e);
                    exit_failure = true;
                },
                None => {},
            }
        }
    } else if op_is(op, "test") {
        let empty: Vec<PolicyCase> = Vec::new();
        let cases = match &data.results {
            Some(r) => r,
            None => &empty,
        };
        let mut i: usize = 0;
        while i < cases.len()
            invariant
                i <= cases@.len(),
                strings_view(stdout@) =~= pass_lines(cases@.take(i as int)),
                strings_view(stderr@) =~= fail_lines(cases@.take(i as int)),
            decreases cases@.len() - i,
        {
            proof {
                assert(cases@.take(i as int + 1).drop_last() =~= cases@.take(i as int));
            }
            let c = &cases[i];
            let mut line: String;
            if c.passed == Some(true) {
                line = String::from_str("PASS  ");
                let name = case_name_of(c);
                line.append(name.as_str());
                stdout.push(line);
            } else {
                line = String::from_str("FAIL  ");
                let name = case_name_of(c);
                line.append(name.as_str());
                match &c.message {
                    Some(m) => {
                        line.append(" - ");
                        line.append(m.as_str());
                    },
                    None => {},
                }
                proof {
                    assert(line@ =~= "FAIL  "@ + case_name(*c) + (match c.message {
                        Some(m) => " - "@ + m@,
                        None => Seq::empty(),
                    }));
                }
                stderr.push(line);
            }
            i = i + 1;
        }
        proof {
            assert(cases@.take(cases@.len() as int) =~= cases@);
        }
        let passed = match data.passed {
            Some(v) => v,
            None => 0,
        };
        let failed = match data.failed {
            Some(v) => v,
            None => 0,
        };
        stdout.push(String::new());
        let mut summary = decimal_string(passed);
        summary.append(" passed, ");
        let f = decimal_string(failed);
        summary.append(f.as_str());
        summary.append(" failed");
        stdout.push(summary);
        exit_failure = failed > 0;
    } else if op_is(op, "simulate") {
        let first = match &data.verdict {
            Some(v) => labelled_line("verdict", v.as_str()),
            None => labelled_line("verdict", "?"),
        };
        stdout.push(first);
        match &data.matched_rules {
            Some(rs) => {
                if rs.len() == 0 {
                    stdout.push(labelled_line("matched", "(none)"));
                } else {
                    let joined = rules_joined(rs);
                    stdout.push(labelled_line("matched", joined.as_str()));
                }
            },
            None => {},
        }
    } else if op_is(op, "apply") || op_is(op, "rollback") {
        let mut line = String::from_str(op);
        line.append(": ");
        line.append(data.rendered.as_str());
        stdout.push(line);
    } else {
        stdout.push(data.pretty.clone());
    }
    let r = PolicyReport { stdout, stderr, exit_failure };
    assert(r@.stdout =~= spec_policy_report(op@, *data).stdout);
    assert(r@.stderr =~= spec_policy_report(op@, *data).stderr);
    r
}

} // verus!
