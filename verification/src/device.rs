//! Device commands of the CLI: what each asks of the local API, and how
//! tags and labels are listed.

use crate::labels::{csv_result_is, labels_view, parse_label_pairs, parse_pairs_from, LabelError, Labels};
use crate::text::{lemma_name_le_total, lemma_name_le_trans, name_le, name_le_exec};
use vstd::prelude::*;
use vstd::string::*;

verus! {

#[derive(Debug, Clone)]
pub struct TagAddArgs {
    pub tag: String,
}

#[derive(Debug, Clone)]
pub struct TagRemoveArgs {
    pub tag: String,
}

#[derive(Debug, Clone)]
pub struct LabelsSetArgs {
    pub pairs: Vec<String>,
}

#[derive(Debug, Clone)]
pub struct LabelsDeleteArgs {
    pub key: String,
}

#[derive(Debug, Clone)]
pub struct MachineSetExpiryArgs {
    pub duration: String,
}

#[derive(Debug, Clone)]
pub enum LabelsCommand {
    SetPairs(LabelsSetArgs),
    Get,
    Delete(LabelsDeleteArgs),
}

#[derive(Debug, Clone)]
pub enum TagCommand {
    List,
    Add(TagAddArgs),
    Remove(TagRemoveArgs),
}

#[derive(Debug, Clone)]
pub enum MachineCommand {
    SetExpiry(MachineSetExpiryArgs),
}

/// What a device command asks of the local API.
#[derive(Debug, Clone)]
pub enum DeviceRequest {
    /// Set these labels.
    SetLabels(Labels),
    /// Delete the label with this key.
    DeleteLabel(String),
    /// Read the device info to list its labels.
    ListLabels,
    /// Read the device info to list its tags.
    ListTags,
    AddTag(String),
    RemoveTag(String),
    /// Set the machine's expiry to this duration.
    SetExpiry(String),
}

/// The request of a labels command; setting labels parses its `key=value`
/// arguments first.
pub fn labels_request(cmd: LabelsCommand) -> (r: Result<DeviceRequest, LabelError>)
    ensures
        match cmd {
            LabelsCommand::SetPairs(a) => match r {
                Ok(DeviceRequest::SetLabels(l)) => csv_result_is(
                    Ok(l),
                    parse_pairs_from(Seq::empty(), a.pairs@.map_values(|p: String| p@)),
                ),
                Err(e) => csv_result_is(
                    Err(e),
                    parse_pairs_from(Seq::empty(), a.pairs@.map_values(|p: String| p@)),
                ),
                _ => false,
            },
            LabelsCommand::Get => r matches Ok(DeviceRequest::ListLabels),
            LabelsCommand::Delete(a) => r matches Ok(DeviceRequest::DeleteLabel(k)) && k@ == a.key@,
        },
{
    match cmd {
        LabelsCommand::SetPairs(a) => match parse_label_pairs(a.pairs.as_slice()) {
            Ok(l) => Ok(DeviceRequest::SetLabels(l)),
            Err(e) => Err(e),
        },
        LabelsCommand::Get => Ok(DeviceRequest::ListLabels),
        LabelsCommand::Delete(a) => Ok(DeviceRequest::DeleteLabel(a.key)),
    }
}

/// The request of a tags command.
pub fn tags_request(cmd: TagCommand) -> (r: DeviceRequest)
    ensures
        match cmd {
            TagCommand::List => r matches DeviceRequest::ListTags,
            TagCommand::Add(a) => r matches DeviceRequest::AddTag(t) && t@ == a.tag@,
            TagCommand::Remove(a) => r matches DeviceRequest::RemoveTag(t) && t@ == a.tag@,
        },
{
    match cmd {
        TagCommand::List => DeviceRequest::ListTags,
        TagCommand::Add(a) => DeviceRequest::AddTag(a.tag),
        TagCommand::Remove(a) => DeviceRequest::RemoveTag(a.tag),
    }
}

/// The request of a machine command.
pub fn machine_request(cmd: MachineCommand) -> (r: DeviceRequest)
    ensures
        match cmd {
            MachineCommand::SetExpiry(a) => r matches DeviceRequest::SetExpiry(d) && d@ == a.duration@,
        },
{
    match cmd {
        MachineCommand::SetExpiry(a) => DeviceRequest::SetExpiry(a.duration),
    }
}

/// The lines listing `tags`: `tag:<name>` each, or `(no tags)`.
pub open spec fn spec_tag_lines(tags: Seq<Seq<char>>) -> Seq<Seq<char>> {
    if tags.len() == 0 {
        seq!["(no tags)"@]
    } else {
        tags.map_values(|t: Seq<char>| "tag:"@ + t)
    }
}

pub fn tag_lines(tags: &[String]) -> (lines: Vec<String>)
    ensures
        lines@.map_values(|l: String| l@) == spec_tag_lines(tags@.map_values(|t: String| t@)),
{
    let mut lines: Vec<String> = Vec::new();
    if tags.len() == 0 {
        lines.push(String::from_str("(no tags)"));
        proof {
            assert(lines@.map_values(|l: String| l@) =~= seq!["(no tags)"@]);
        }
        return lines;
    }
    let ghost want = tags@.map_values(|t: String| t@).map_values(|t: Seq<char>| "tag:"@ + t);
    let mut i: usize = 0;
    while i < tags.len()
        invariant
            i <= tags@.len(),
            want == tags@.map_values(|t: String| t@).map_values(|t: Seq<char>| "tag:"@ + t),
            lines@.map_values(|l: String| l@) == want.subrange(0, i as int),
        decreases tags@.len() - i,
    {
        let ghost before = lines@;
        let mut line = String::from_str("tag:");
        line.append(tags[i].as_str());
        proof {
            assert(want[i as int] == "tag:"@ + tags@[i as int]@);
            assert(line@ == want[i as int]);
        }
        lines.push(line);
        proof {
            assert(lines@ == before.push(line));
            assert(lines@.map_values(|l: String| l@) =~= before.map_values(|l: String| l@).push(line@));
            assert(lines@.map_values(|l: String| l@) =~= want.subrange(0, i + 1));
        }
        i = i + 1;
    }
    proof {
        assert(want.subrange(0, tags@.len() as int) =~= want);
    }
    lines
}

#[derive(Debug, Clone)]
pub struct ResetArgs {
    pub yes: bool,
}

#[derive(Debug, Clone)]
pub struct LoginArgs {
    pub management_url: Option<String>,
    pub state_dir: Option<String>,
}

#[derive(Debug, Clone)]
pub struct LogoutArgs {
    pub state_dir: Option<String>,
}

/// The state directories a reset wipes: the one given on the command line;
/// else the system directory and, when the environment names another, that
/// one too.
pub open spec fn spec_reset_targets(
    state_dir: Option<Seq<char>>,
    env_dir: Option<Seq<char>>,
    system: Seq<char>,
) -> Seq<Seq<char>> {
    match state_dir {
        Some(d) => seq![d],
        None => match env_dir {
            Some(e) => if e == system {
                seq![system]
            } else {
                seq![system, e]
            },
            None => seq![system],
        },
    }
}

pub open spec fn opt_text(o: Option<&str>) -> Option<Seq<char>> {
    match o {
        Some(s) => Some(s@),
        None => None,
    }
}

pub fn reset_targets(state_dir: Option<&str>, env_dir: Option<&str>, system: &str) -> (t: Vec<
    String,
>)
    ensures
        t@.map_values(|s: String| s@) == spec_reset_targets(
            opt_text(state_dir),
            opt_text(env_dir),
            system@,
        ),
{
    let mut t: Vec<String> = Vec::new();
    match state_dir {
        Some(d) => {
            t.push(String::from_str(d));
        },
        None => match env_dir {
            Some(e) => {
                let sys = String::from_str(system);
                let env = String::from_str(e);
                let same = sys == env;
                t.push(sys);
                if !same {
                    t.push(env);
                }
            },
            None => {
                t.push(String::from_str(system));
            },
        },
    }
    proof {
        assert(t@.map_values(|s: String| s@) =~= spec_reset_targets(
            opt_text(state_dir),
            opt_text(env_dir),
            system@,
        ));
    }
    t
}

/// The state directory a login or logout uses: the global option, else the
/// command's own.
pub fn session_state_dir(global: Option<&str>, own: &Option<String>) -> (d: Option<String>)
    ensures
        match global {
            Some(g) => d matches Some(s) && s@ == g@,
            None => match own {
                Some(o) => d matches Some(s) && s@ == o@,
                None => d is None,
            },
        },
{
    match global {
        Some(g) => Some(String::from_str(g)),
        None => match own {
            Some(o) => Some(o.clone()),
            None => None,
        },
    }
}

/// Arguments of `update`.
#[derive(Debug, Clone)]
pub struct UpdateArgs {
    /// Check the Core channel without installing.
    pub check: bool,
    /// Download even when already on the latest Core version.
    pub force: bool,
    /// Hard-restart the service after activation.
    pub restart: bool,
    /// Unused: the Core channel does not accept a pinned version.
    pub version: Option<String>,
}

/// The update request sent to the local agent.
#[derive(Debug, Clone)]
pub struct UpdateRequest {
    pub check: bool,
    pub force: bool,
    pub restart: bool,
    pub version: Option<String>,
}

/// The request `update` sends: its flags, passed on unchanged.
pub fn update_request(args: UpdateArgs) -> (r: UpdateRequest)
    ensures
        r.check == args.check,
        r.force == args.force,
        r.restart == args.restart,
        r.version == args.version,
{
    UpdateRequest { check: args.check, force: args.force, restart: args.restart, version: args.version }
}

/// A device label as listed: its key, and its value when it is a string.
pub type LabelEntry = (String, Option<String>);

/// Whether labels are listed in byte order of their keys.
pub open spec fn sorted_by_key(s: Seq<LabelEntry>) -> bool {
    forall|i: int, j: int| 0 <= i < j < s.len() ==> name_le(#[trigger] s[i].0@, #[trigger] s[j].0@)
}

fn clone_entry(e: &LabelEntry) -> (r: LabelEntry)
    ensures
        r == *e,
{
    let v = match &e.1 {
        Some(t) => Some(t.clone()),
        None => None,
    };
    (e.0.clone(), v)
}

/// The labels in byte order of their keys: the same entries, sorted.
pub fn sort_labels(labels: &Vec<LabelEntry>) -> (r: Vec<LabelEntry>)
    ensures
        sorted_by_key(r@),
        r@.to_multiset() == labels@.to_multiset(),
{
    broadcast use vstd::seq_lib::group_to_multiset_ensures;
    broadcast use vstd::multiset::group_multiset_axioms;

    let mut out: Vec<LabelEntry> = Vec::new();
    let mut i: usize = 0;
    while i < labels.len()
        invariant
            i <= labels@.len(),
            sorted_by_key(out@),
            out@.to_multiset() == labels@.take(i as int).to_multiset(),
        decreases labels@.len() - i,
    {
        let x = clone_entry(&labels[i]);
        let mut p: usize = 0;
        while p < out.len()
            invariant
                p <= out@.len(),
                forall|k: int| 0 <= k < p ==> name_le(#[trigger] out@[k].0@, x.0@),
            ensures
                p <= out@.len(),
                forall|k: int| 0 <= k < p ==> name_le(#[trigger] out@[k].0@, x.0@),
                p < out@.len() ==> !name_le(out@[p as int].0@, x.0@),
            decreases out@.len() - p,
        {
            if !name_le_exec(out[p].0.as_str(), x.0.as_str()) {
                break;
            }
            p = p + 1;
        }
        let ghost before = out@;
        out.insert(p, x);
        proof {
            let after = out@;
            let t = before.take(p as int);
            let u = before.skip(p as int);
            assert(after =~= t.push(x) + u);
            assert(before =~= t + u);
            vstd::seq_lib::lemma_multiset_commutative(t, u);
            vstd::seq_lib::lemma_multiset_commutative(t.push(x), u);
            vstd::seq_lib::to_multiset_build(t, x);
            assert(labels@.take(i as int + 1) =~= labels@.take(i as int).push(labels@[i as int]));
            vstd::seq_lib::to_multiset_build(labels@.take(i as int), labels@[i as int]);
            assert(after.to_multiset() =~= before.to_multiset().insert(x));
            assert forall|a: int, b: int| 0 <= a < b < after.len() implies name_le(
                #[trigger] after[a].0@,
                #[trigger] after[b].0@,
            ) by {
                if b < p {
                    assert(after[a] == before[a] && after[b] == before[b]);
                } else if b == p {
                    assert(after[a] == before[a]);
                } else if a == p {
                    assert(after[b] == before[b - 1]);
                    lemma_name_le_total(before[p as int].0@, x.0@);
                    if b - 1 > p {
                        lemma_name_le_trans(x.0@, before[p as int].0@, before[b - 1].0@);
                    }
                } else if a < p {
                    assert(after[a] == before[a] && after[b] == before[b - 1]);
                } else {
                    assert(after[a] == before[a - 1] && after[b] == before[b - 1]);
                }
            }
        }
        i = i + 1;
    }
    assert(labels@.take(labels@.len() as int) =~= labels@);
    out
}

/// `key=value` for one label (an empty value when it is not a string).
pub open spec fn label_line(e: LabelEntry) -> Seq<char> {
    e.0@ + "="@ + match e.1 {
        Some(v) => v@,
        None => Seq::empty(),
    }
}

/// The lines listing labels already in key order: `key=value` each, or
/// `(no labels)`.
pub open spec fn spec_label_lines(sorted: Seq<LabelEntry>) -> Seq<Seq<char>> {
    if sorted.len() == 0 {
        seq!["(no labels)"@]
    } else {
        sorted.map_values(|e: LabelEntry| label_line(e))
    }
}

/// The lines listing a device's labels: sorted by key, `key=value` each.
pub fn label_lines(labels: &Vec<LabelEntry>) -> (lines: Vec<String>)
    ensures
        exists|sorted: Seq<LabelEntry>|
            sorted_by_key(sorted) && sorted.to_multiset() == labels@.to_multiset()
                && lines@.map_values(|l: String| l@) == spec_label_lines(sorted),
{
    let sorted = sort_labels(labels);
    let mut lines: Vec<String> = Vec::new();
    if sorted.len() == 0 {
        lines.push(String::from_str("(no labels)"));
        proof {
            assert(lines@.map_values(|l: String| l@) =~= spec_label_lines(sorted@));
        }
        return lines;
    }
    let mut i: usize = 0;
    while i < sorted.len()
        invariant
            i <= sorted@.len(),
            lines@.len() == i,
            forall|k: int| 0 <= k < i ==> (#[trigger] lines@[k])@ == label_line(sorted@[k]),
        decreases sorted@.len() - i,
    {
        let mut line = sorted[i].0.clone();
        line.append("=");
        match &sorted[i].1 {
            Some(v) => line.append(v.as_str()),
            None => {},
        }
        proof {
            assert(line@ =~= label_line(sorted@[i as int]));
        }
        lines.push(line);
        i = i + 1;
    }
    assert(lines@.map_values(|l: String| l@) =~= spec_label_lines(sorted@));
    lines
}

} // verus!
