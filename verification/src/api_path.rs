//! Where the command-line client looks for the agent's Local API: the
//! endpoint it names by default, the Unix socket paths it tries in turn,
//! and the Windows pipe names it tries.
//!
//! The caller reads the environment and the pipe marker files; this module
//! decides from what was read.

use crate::labels::{trim, trim_range};
use crate::posture_cmd::strings_view;
use vstd::prelude::*;
use vstd::string::*;

verus! {

/// Environment values that move the Local API endpoint, as the caller read
/// them (`None` for a variable that is unset or not Unicode).
#[derive(Debug, Clone)]
pub struct ApiEnv {
    /// `TUNNET_API_PATH`.
    pub api_path: Option<String>,
    /// `TUNNET_IPC_PATH`, consulted when `TUNNET_API_PATH` is unset.
    pub ipc_path: Option<String>,
    /// `TUNNET_RUNTIME_DIR`.
    pub runtime_dir: Option<String>,
}

/// The platform family whose endpoint rule applies.
#[derive(Debug, Clone, Copy, PartialEq, Eq, Structural)]
pub enum ApiPlatform {
    Unix,
    Windows,
    Other,
}

pub open spec fn opt_text(o: Option<String>) -> Option<Seq<char>> {
    match o {
        Some(s) => Some(s@),
        None => None,
    }
}

/// The explicit endpoint override: `TUNNET_API_PATH`, else `TUNNET_IPC_PATH`.
pub open spec fn api_override(env: ApiEnv) -> Option<Seq<char>> {
    match env.api_path {
        Some(p) => Some(p@),
        None => opt_text(env.ipc_path),
    }
}

/// `base` joined with the relative name `name` as a Unix path: a `/` goes
/// between them unless `base` is empty or already ends with one.
pub open spec fn unix_join(base: Seq<char>, name: Seq<char>) -> Seq<char> {
    if base.len() == 0 || base.last() == '/' {
        base + name
    } else {
        base.push('/') + name
    }
}

/// The text split at each `/`; a text without `/` is one segment.
pub open spec fn slash_segments(p: Seq<char>) -> Seq<Seq<char>>
    decreases p.len(),
{
    if p.len() == 0 {
        seq![Seq::empty()]
    } else {
        let init = slash_segments(p.drop_last());
        if p.last() == '/' {
            init.push(Seq::empty())
        } else {
            init.update(init.len() - 1, init.last().push(p.last()))
        }
    }
}

/// A segment that names a component: neither empty nor `.`.
pub open spec fn is_named_segment(s: Seq<char>) -> bool {
    s.len() > 0 && s != seq!['.']
}

/// The segments that name components, in order.
pub open spec fn named_segments(segs: Seq<Seq<char>>) -> Seq<Seq<char>>
    decreases segs.len(),
{
    if segs.len() == 0 {
        Seq::empty()
    } else {
        let r = named_segments(segs.drop_last());
        if is_named_segment(segs.last()) {
            r.push(segs.last())
        } else {
            r
        }
    }
}

/// A Unix path as its components: whether it starts at the root, whether
/// it starts with a `.` of its own, and its other parts. Repeated
/// separators, trailing separators and inner `.` parts are not components.
pub open spec fn unix_components(p: Seq<char>) -> (bool, bool, Seq<Seq<char>>) {
    let rooted = p.len() > 0 && p[0] == '/';
    let cur_dir = !rooted && p.len() > 0 && p[0] == '.' && (p.len() == 1 || p[1] == '/');
    (rooted, cur_dir, named_segments(slash_segments(p)))
}

/// Two texts name the same Unix path when their components agree.
pub open spec fn same_unix_path(a: Seq<char>, b: Seq<char>) -> bool {
    unix_components(a) == unix_components(b)
}

/// `paths` with each path dropped that names the same Unix path as one
/// kept before it.
pub open spec fn unique_unix_paths(paths: Seq<Seq<char>>) -> Seq<Seq<char>>
    decreases paths.len(),
{
    if paths.len() == 0 {
        Seq::empty()
    } else {
        let r = unique_unix_paths(paths.drop_last());
        if exists|k: int| 0 <= k < r.len() && same_unix_path(#[trigger] r[k], paths.last()) {
            r
        } else {
            r.push(paths.last())
        }
    }
}

/// `texts` with each text dropped that equals one kept before it.
pub open spec fn unique_texts(texts: Seq<Seq<char>>) -> Seq<Seq<char>>
    decreases texts.len(),
{
    if texts.len() == 0 {
        Seq::empty()
    } else {
        let r = unique_texts(texts.drop_last());
        if r.contains(texts.last()) {
            r
        } else {
            r.push(texts.last())
        }
    }
}

pub open spec fn socket_file_name() -> Seq<char> {
    "tunnetd.sock"@
}

pub open spec fn system_socket_path() -> Seq<char> {
    "/run/tunnet/tunnetd.sock"@
}

pub open spec fn fallback_socket_path() -> Seq<char> {
    "/tmp/tunnetd.sock"@
}

pub open spec fn default_pipe_name() -> Seq<char> {
    "\\\\.\\pipe\\tunnetd"@
}

/// The Unix socket paths in the order they are tried, before duplicates
/// are dropped: the override, the socket in `TUNNET_RUNTIME_DIR`, the
/// system socket and the fallback socket.
pub open spec fn raw_unix_candidates(env: ApiEnv) -> Seq<Seq<char>> {
    let o = match api_override(env) {
        Some(p) => seq![p],
        None => Seq::empty(),
    };
    let d = match env.runtime_dir {
        Some(dir) => seq![unix_join(dir@, socket_file_name())],
        None => Seq::empty(),
    };
    o + d + seq![system_socket_path(), fallback_socket_path()]
}

proof fn lemma_segments_nonempty(p: Seq<char>)
    ensures
        slash_segments(p).len() >= 1,
    decreases p.len(),
{
    if p.len() > 0 {
        lemma_segments_nonempty(p.drop_last());
    }
}

/// The override the environment names, if any.
pub fn api_override_of(env: &ApiEnv) -> (r: Option<String>)
    ensures
        opt_text(r) == api_override(*env),
{
    match &env.api_path {
        Some(p) => Some(p.clone()),
        None => match &env.ipc_path {
            Some(p) => Some(p.clone()),
            None => None,
        },
    }
}

/// `base` joined with `name` as a Unix path.
fn join_unix(base: &str, name: &str) -> (r: String)
    ensures
        r@ == unix_join(base@, name@),
{
    let n = base.unicode_len();
    let mut s = String::from_str(base);
    if n > 0 && base.get_char(n - 1) != '/' {
        s.append("/");
        proof {
            reveal_strlit("/");
            assert(base@ + "/"@ =~= base@.push('/'));
        }
    }
    s.append(name);
    s
}

/// The parts of `p` that name components.
fn named_parts(p: &str) -> (r: Vec<String>)
    ensures
        strings_view(r@) == named_segments(slash_segments(p@)),
{
    let n = p.unicode_len();
    let mut out: Vec<String> = Vec::new();
    let mut start: usize = 0;
    let mut i: usize = 0;
    proof {
        assert(p@.take(0) =~= Seq::<char>::empty());
        assert(p@.subrange(0, 0) =~= Seq::<char>::empty());
    }
    while i < n
        invariant
            n == p@.len(),
            start <= i <= n,
            slash_segments(p@.take(i as int)).len() >= 1,
            strings_view(out@) == named_segments(slash_segments(p@.take(i as int)).drop_last()),
            slash_segments(p@.take(i as int)).last() == p@.subrange(start as int, i as int),
        decreases n - i,
    {
        let c = p.get_char(i);
        let ghost prev = slash_segments(p@.take(i as int));
        proof {
            assert(p@.take(i + 1).drop_last() =~= p@.take(i as int));
            assert(p@.take(i + 1).last() == c);
            lemma_segments_nonempty(p@.take(i + 1));
        }
        if c == '/' {
            let seg = p.substring_char(start, i);
            let named = seg.unicode_len() > 0 && !(seg.unicode_len() == 1 && seg.get_char(0) == '.');
            proof {
                assert(slash_segments(p@.take(i + 1)) == prev.push(Seq::<char>::empty()));
                assert(prev.push(Seq::<char>::empty()).drop_last() =~= prev);
                assert(prev =~= prev.drop_last().push(prev.last()));
                if seg@.len() == 1 && seg@[0] == '.' {
                    assert(seg@ =~= seq!['.']);
                }
                if seg@ == seq!['.'] {
                    assert(seg@[0] == '.');
                }
            }
            if named {
                let ghost before = out@;
                out.push(seg.to_owned());
                proof {
                    assert(strings_view(out@) =~= strings_view(before).push(seg@));
                }
            }
            proof {
                assert(named_segments(prev) == if is_named_segment(prev.last()) {
                    named_segments(prev.drop_last()).push(prev.last())
                } else {
                    named_segments(prev.drop_last())
                });
                assert(p@.subrange(i + 1, i + 1) =~= Seq::<char>::empty());
            }
            start = i + 1;
        } else {
            proof {
                let next = prev.update(prev.len() - 1, prev.last().push(c));
                assert(slash_segments(p@.take(i + 1)) == next);
                assert(next.drop_last() =~= prev.drop_last());
                assert(p@.subrange(start as int, i + 1) =~= p@.subrange(start as int, i as int).push(c));
            }
        }
        i = i + 1;
    }
    proof {
        assert(p@.take(n as int) =~= p@);
    }
    let ghost segs = slash_segments(p@);
    let seg = p.substring_char(start, n);
    let named = seg.unicode_len() > 0 && !(seg.unicode_len() == 1 && seg.get_char(0) == '.');
    proof {
        assert(segs =~= segs.drop_last().push(segs.last()));
        if seg@.len() == 1 && seg@[0] == '.' {
            assert(seg@ =~= seq!['.']);
        }
        if seg@ == seq!['.'] {
            assert(seg@[0] == '.');
        }
        assert(named_segments(segs) == if is_named_segment(segs.last()) {
            named_segments(segs.drop_last()).push(segs.last())
        } else {
            named_segments(segs.drop_last())
        });
    }
    if named {
        let ghost before = out@;
        out.push(seg.to_owned());
        proof {
            assert(strings_view(out@) =~= strings_view(before).push(seg@));
        }
    }
    out
}

/// Whether two lists of texts are equal element by element.
fn texts_equal(a: &Vec<String>, b: &Vec<String>) -> (r: bool)
    ensures
        r == (strings_view(a@) == strings_view(b@)),
{
    if a.len() != b.len() {
        proof {
            assert(strings_view(a@).len() != strings_view(b@).len());
        }
        return false;
    }
    let mut i: usize = 0;
    while i < a.len()
        invariant
            a.len() == b.len(),
            i <= a.len(),
            forall|k: int| 0 <= k < i ==> (#[trigger] a@[k])@ == b@[k]@,
        decreases a.len() - i,
    {
        if a[i] != b[i] {
            proof {
                assert(strings_view(a@)[i as int] != strings_view(b@)[i as int]);
            }
            return false;
        }
        i = i + 1;
    }
    proof {
        assert(strings_view(a@) =~= strings_view(b@));
    }
    true
}

/// Whether `a` and `b` name the same Unix path, as `Path` equality on Unix
/// compares them: by their components.
pub fn is_same_unix_path(a: &str, b: &str) -> (r: bool)
    ensures
        r == same_unix_path(a@, b@),
{
    let na = a.unicode_len();
    let nb = b.unicode_len();
    let ra = na > 0 && a.get_char(0) == '/';
    let rb = nb > 0 && b.get_char(0) == '/';
    let ca = !ra && na > 0 && a.get_char(0) == '.' && (na == 1 || a.get_char(1) == '/');
    let cb = !rb && nb > 0 && b.get_char(0) == '.' && (nb == 1 || b.get_char(1) == '/');
    if ra != rb || ca != cb {
        return false;
    }
    let pa = named_parts(a);
    let pb = named_parts(b);
    texts_equal(&pa, &pb)
}

/// Appends `p` unless a path in `paths` names the same Unix path.
fn push_unique_path(paths: &mut Vec<String>, p: String)
    ensures
        strings_view(final(paths)@) == if exists|k: int|
            0 <= k < strings_view(old(paths)@).len() && same_unix_path(
                #[trigger] strings_view(old(paths)@)[k],
                p@,
            ) {
            strings_view(old(paths)@)
        } else {
            strings_view(old(paths)@).push(p@)
        },
{
    let mut i: usize = 0;
    while i < paths.len()
        invariant
            i <= paths.len(),
            forall|k: int| 0 <= k < i ==> !same_unix_path(#[trigger] paths@[k]@, p@),
        decreases paths.len() - i,
    {
        if is_same_unix_path(paths[i].as_str(), p.as_str()) {
            proof {
                assert(strings_view(paths@)[i as int] == paths@[i as int]@);
            }
            return;
        }
        i = i + 1;
    }
    let ghost before = paths@;
    paths.push(p);
    proof {
        assert forall|k: int| 0 <= k < strings_view(before).len() implies !same_unix_path(
            #[trigger] strings_view(before)[k],
            p@,
        ) by {
            assert(strings_view(before)[k] == before[k]@);
        }
        assert(strings_view(paths@) =~= strings_view(before).push(p@));
    }
}

/// Appends `t` unless `texts` already holds it.
fn push_unique_text(texts: &mut Vec<String>, t: String)
    ensures
        strings_view(final(texts)@) == if strings_view(old(texts)@).contains(t@) {
            strings_view(old(texts)@)
        } else {
            strings_view(old(texts)@).push(t@)
        },
{
    let mut i: usize = 0;
    while i < texts.len()
        invariant
            i <= texts.len(),
            forall|k: int| 0 <= k < i ==> (#[trigger] texts@[k])@ != t@,
        decreases texts.len() - i,
    {
        if texts[i] == t {
            proof {
                assert(strings_view(texts@)[i as int] == t@);
            }
            return;
        }
        i = i + 1;
    }
    let ghost before = texts@;
    texts.push(t);
    proof {
        if strings_view(before).contains(t@) {
            let k = choose|k: int| 0 <= k < strings_view(before).len() && strings_view(before)[k] == t@;
            assert(before[k]@ == t@);
        }
        assert(strings_view(texts@) =~= strings_view(before).push(t@));
    }
}

/// The Unix socket paths tried in turn, each named once: the override, the
/// socket in `TUNNET_RUNTIME_DIR`, `/run/tunnet/tunnetd.sock` and
/// `/tmp/tunnetd.sock`. A path is dropped when it names the same path as
/// one before it.
pub fn unix_api_candidates(env: &ApiEnv) -> (r: Vec<String>)
    ensures
        strings_view(r@) == unique_unix_paths(raw_unix_candidates(*env)),
{
    let mut paths: Vec<String> = Vec::new();
    let ghost mut taken: Seq<Seq<char>> = Seq::empty();
    proof {
        assert(strings_view(paths@) =~= unique_unix_paths(taken));
    }
    match api_override_of(env) {
        Some(p) => {
            proof {
                lemma_unique_paths_step(taken, p@);
                taken = taken.push(p@);
            }
            push_unique_path(&mut paths, p);
        },
        None => {},
    }
    match &env.runtime_dir {
        Some(dir) => {
            let s = join_unix(dir.as_str(), "tunnetd.sock");
            proof {
                reveal_strlit("tunnetd.sock");
                lemma_unique_paths_step(taken, s@);
                taken = taken.push(s@);
            }
            push_unique_path(&mut paths, s);
        },
        None => {},
    }
    let sys = String::from_str("/run/tunnet/tunnetd.sock");
    proof {
        reveal_strlit("/run/tunnet/tunnetd.sock");
        lemma_unique_paths_step(taken, sys@);
        taken = taken.push(sys@);
    }
    push_unique_path(&mut paths, sys);
    let tmp = String::from_str("/tmp/tunnetd.sock");
    proof {
        reveal_strlit("/tmp/tunnetd.sock");
        lemma_unique_paths_step(taken, tmp@);
        taken = taken.push(tmp@);
        assert(taken =~= raw_unix_candidates(*env));
    }
    push_unique_path(&mut paths, tmp);
    paths
}

proof fn lemma_unique_paths_step(taken: Seq<Seq<char>>, x: Seq<char>)
    ensures
        unique_unix_paths(taken.push(x)) == if exists|k: int|
            0 <= k < unique_unix_paths(taken).len() && same_unix_path(
                #[trigger] unique_unix_paths(taken)[k],
                x,
            ) {
            unique_unix_paths(taken)
        } else {
            unique_unix_paths(taken).push(x)
        },
{
    assert(taken.push(x).drop_last() =~= taken);
}

/// The pipe names tried on Windows, each named once: the trimmed text of
/// each marker file that was read and is not blank, in the order given,
/// then `\\.\pipe\tunnetd`.
pub open spec fn raw_pipe_candidates(markers: Seq<Option<String>>) -> Seq<Seq<char>>
    decreases markers.len(),
{
    if markers.len() == 0 {
        seq![default_pipe_name()]
    } else {
        let rest = raw_pipe_candidates(markers.drop_last());
        let found = match markers.last() {
            Some(t) if trim(t@).len() > 0 => seq![trim(t@)],
            _ => Seq::empty(),
        };
        rest.drop_last() + found + seq![default_pipe_name()]
    }
}

/// The pipe names tried in turn on Windows: the trimmed contents of each
/// marker file that could be read (the preferred marker, then the system
/// marker) unless blank, then the default pipe name; each name once.
pub fn windows_pipe_candidates(markers: &Vec<Option<String>>) -> (r: Vec<String>)
    ensures
        strings_view(r@) == unique_texts(raw_pipe_candidates(markers@)),
{
    let mut names: Vec<String> = Vec::new();
    let ghost mut taken: Seq<Seq<char>> = Seq::empty();
    let mut i: usize = 0;
    while i < markers.len()
        invariant
            i <= markers.len(),
            taken + seq![default_pipe_name()] == raw_pipe_candidates(markers@.take(i as int)),
            strings_view(names@) == unique_texts(taken),
        decreases markers.len() - i,
    {
        proof {
            assert(markers@.take(i + 1).drop_last() =~= markers@.take(i as int));
            assert((taken + seq![default_pipe_name()]).drop_last() =~= taken);
        }
        match &markers[i] {
            Some(t) => {
                let n = t.unicode_len();
                let (a, b) = trim_range(t.as_str(), 0, n);
                proof {
                    assert(t@.subrange(0, n as int) =~= t@);
                }
                if a < b {
                    let s = t.as_str().substring_char(a, b).to_owned();
                    proof {
                        let before = taken;
                        taken = taken.push(s@);
                        assert(taken.drop_last() =~= before);
                        assert(taken + seq![default_pipe_name()] =~= before + seq![trim(t@)] + seq![
                            default_pipe_name(),
                        ]);
                    }
                    push_unique_text(&mut names, s);
                } else {
                    proof {
                        assert(taken + seq![default_pipe_name()] =~= taken + Seq::<Seq<char>>::empty()
                            + seq![default_pipe_name()]);
                    }
                }
            },
            None => {
                proof {
                    assert(taken + seq![default_pipe_name()] =~= taken + Seq::<Seq<char>>::empty()
                        + seq![default_pipe_name()]);
                }
            },
        }
        i = i + 1;
    }
    proof {
        assert(markers@.take(markers.len() as int) =~= markers@);
    }
    let pipe = String::from_str("\\\\.\\pipe\\tunnetd");
    proof {
        reveal_strlit("\\\\.\\pipe\\tunnetd");
        assert((taken + seq![pipe@]).drop_last() =~= taken);
    }
    push_unique_text(&mut names, pipe);
    names
}

proof fn lemma_unique_paths_props(paths: Seq<Seq<char>>)
    ensures
        forall|i: int, j: int|
            0 <= i < j < unique_unix_paths(paths).len() ==> !same_unix_path(
                #[trigger] unique_unix_paths(paths)[i],
                #[trigger] unique_unix_paths(paths)[j],
            ),
        forall|x: int|
            #![trigger paths[x]]
            0 <= x < paths.len() ==> exists|k: int|
                0 <= k < unique_unix_paths(paths).len() && same_unix_path(
                    #[trigger] unique_unix_paths(paths)[k],
                    paths[x],
                ),
    decreases paths.len(),
{
    if paths.len() > 0 {
        let init = paths.drop_last();
        lemma_unique_paths_props(init);
        let r = unique_unix_paths(init);
        assert forall|x: int| #![trigger paths[x]] 0 <= x < paths.len() implies exists|k: int|
            0 <= k < unique_unix_paths(paths).len() && same_unix_path(
                #[trigger] unique_unix_paths(paths)[k],
                paths[x],
            ) by {
            if x < paths.len() - 1 {
                assert(paths[x] == init[x]);
                let k = choose|k: int| 0 <= k < r.len() && same_unix_path(#[trigger] r[k], init[x]);
                assert(unique_unix_paths(paths)[k] == r[k]);
            } else if exists|k: int| 0 <= k < r.len() && same_unix_path(#[trigger] r[k], paths.last()) {
                let k = choose|k: int| 0 <= k < r.len() && same_unix_path(#[trigger] r[k], paths.last());
                assert(unique_unix_paths(paths)[k] == r[k]);
            } else {
                assert(unique_unix_paths(paths)[r.len() as int] == paths.last());
            }
        }
    }
}

proof fn lemma_unique_texts_props(texts: Seq<Seq<char>>)
    ensures
        unique_texts(texts).no_duplicates(),
        forall|x: int| 0 <= x < texts.len() ==> unique_texts(texts).contains(#[trigger] texts[x]),
    decreases texts.len(),
{
    if texts.len() > 0 {
        let init = texts.drop_last();
        lemma_unique_texts_props(init);
        assert forall|x: int| 0 <= x < texts.len() implies unique_texts(texts).contains(
            #[trigger] texts[x],
        ) by {
            if x < texts.len() - 1 {
                assert(texts[x] == init[x]);
                assert(unique_texts(init).contains(init[x]));
                let k = choose|k: int| 0 <= k < unique_texts(init).len() && unique_texts(init)[k] == init[x];
                assert(unique_texts(texts)[k] == init[x]);
            } else if !unique_texts(init).contains(texts.last()) {
                assert(unique_texts(texts)[unique_texts(init).len() as int] == texts.last());
            }
        }
    }
}

/// Law: the Unix socket paths tried name pairwise different paths, and
/// every path the environment and the defaults name is tried under some
/// name of the same path.
pub proof fn law_unix_candidates_name_each_path_once(env: ApiEnv)
    ensures
        forall|i: int, j: int|
            0 <= i < j < unique_unix_paths(raw_unix_candidates(env)).len() ==> !same_unix_path(
                #[trigger] unique_unix_paths(raw_unix_candidates(env))[i],
                #[trigger] unique_unix_paths(raw_unix_candidates(env))[j],
            ),
        forall|x: int|
            #![trigger raw_unix_candidates(env)[x]]
            0 <= x < raw_unix_candidates(env).len() ==> exists|k: int|
                0 <= k < unique_unix_paths(raw_unix_candidates(env)).len() && same_unix_path(
                    #[trigger] unique_unix_paths(raw_unix_candidates(env))[k],
                    raw_unix_candidates(env)[x],
                ),
{
    lemma_unique_paths_props(raw_unix_candidates(env));
}

/// Law: the pipe names tried are pairwise different, and each marker's
/// trimmed text that is not blank, and the default pipe name, is among them.
pub proof fn law_pipe_candidates_name_each_pipe_once(markers: Seq<Option<String>>)
    ensures
        unique_texts(raw_pipe_candidates(markers)).no_duplicates(),
        unique_texts(raw_pipe_candidates(markers)).contains(default_pipe_name()),
        forall|x: int|
            0 <= x < markers.len() && (#[trigger] markers[x]) is Some && trim(markers[x]->0@).len()
                > 0 ==> unique_texts(raw_pipe_candidates(markers)).contains(trim(markers[x]->0@)),
{
    lemma_raw_pipes_shape(markers);
    lemma_unique_texts_props(raw_pipe_candidates(markers));
    let raw = raw_pipe_candidates(markers);
    assert(raw[raw.len() - 1] == default_pipe_name());
    assert forall|x: int|
        0 <= x < markers.len() && (#[trigger] markers[x]) is Some && trim(markers[x]->0@).len()
            > 0 implies unique_texts(raw).contains(trim(markers[x]->0@)) by {
        let k = choose|k: int| 0 <= k < raw.len() && raw[k] == trim(markers[x]->0@);
        assert(unique_texts(raw).contains(raw[k]));
    }
}

proof fn lemma_raw_pipes_shape(markers: Seq<Option<String>>)
    ensures
        raw_pipe_candidates(markers).len() >= 1,
        raw_pipe_candidates(markers).last() == default_pipe_name(),
        forall|x: int|
            0 <= x < markers.len() && (#[trigger] markers[x]) is Some && trim(markers[x]->0@).len()
                > 0 ==> exists|k: int|
                0 <= k < raw_pipe_candidates(markers).len() && raw_pipe_candidates(markers)[k]
                    == trim(markers[x]->0@),
    decreases markers.len(),
{
    if markers.len() > 0 {
        let init = markers.drop_last();
        lemma_raw_pipes_shape(init);
        let rest = raw_pipe_candidates(init);
        let raw = raw_pipe_candidates(markers);
        let found = match markers.last() {
            Some(t) if trim(t@).len() > 0 => seq![trim(t@)],
            _ => Seq::<Seq<char>>::empty(),
        };
        assert(raw == rest.drop_last() + found + seq![default_pipe_name()]);
        assert forall|x: int|
            0 <= x < markers.len() && (#[trigger] markers[x]) is Some && trim(markers[x]->0@).len()
                > 0 implies exists|k: int| 0 <= k < raw.len() && raw[k] == trim(markers[x]->0@) by {
            if x < markers.len() - 1 {
                assert(markers[x] == init[x]);
                let k = choose|k: int| 0 <= k < rest.len() && rest[k] == trim(init[x]->0@);
                if k < rest.len() - 1 {
                    assert(raw[k] == rest[k]);
                } else {
                    assert(raw[raw.len() - 1] == rest[k]);
                }
            } else {
                assert(raw[rest.len() - 1] == trim(markers[x]->0@));
            }
        }
    }
}

/// The endpoint the client names by default: the override when set; on
/// Unix the first socket path tried; on Windows the system marker path the
/// caller built; elsewhere `tunnetd.api`.
pub open spec fn spec_default_api_path(
    env: ApiEnv,
    platform: ApiPlatform,
    windows_marker: Seq<char>,
) -> Seq<char> {
    match api_override(env) {
        Some(p) => p,
        None => match platform {
            ApiPlatform::Unix => unique_unix_paths(raw_unix_candidates(env))[0],
            ApiPlatform::Windows => windows_marker,
            ApiPlatform::Other => "tunnetd.api"@,
        },
    }
}

proof fn lemma_unique_paths_keeps_first(paths: Seq<Seq<char>>)
    requires
        paths.len() >= 1,
    ensures
        unique_unix_paths(paths).len() >= 1,
        unique_unix_paths(paths)[0] == paths[0],
    decreases paths.len(),
{
    if paths.len() == 1 {
        assert(paths.drop_last() =~= Seq::<Seq<char>>::empty());
    } else {
        lemma_unique_paths_keeps_first(paths.drop_last());
    }
}

/// The endpoint path the client uses when none is given.
pub fn default_api_path(env: &ApiEnv, platform: ApiPlatform, windows_marker: &str) -> (r: String)
    ensures
        r@ == spec_default_api_path(*env, platform, windows_marker@),
        api_override(*env) is None && platform == ApiPlatform::Unix ==> r@
            == raw_unix_candidates(*env)[0],
{
    match api_override_of(env) {
        Some(p) => p,
        None => match platform {
            ApiPlatform::Unix => {
                let c = unix_api_candidates(env);
                proof {
                    lemma_unique_paths_keeps_first(raw_unix_candidates(*env));
                    assert(strings_view(c@)[0] == c@[0]@);
                }
                c[0].clone()
            },
            ApiPlatform::Windows => String::from_str(windows_marker),
            ApiPlatform::Other => {
                proof {
                    reveal_strlit("tunnetd.api");
                }
                String::from_str("tunnetd.api")
            },
        },
    }
}

/// The per-user state directory of older releases on Unix:
/// `$XDG_STATE_HOME/tunnet`, else `$HOME/.local/state/tunnet`.
pub open spec fn spec_legacy_state_dir(
    xdg_state_home: Option<String>,
    home: Option<String>,
) -> Option<Seq<char>> {
    match xdg_state_home {
        Some(x) => Some(unix_join(x@, "tunnet"@)),
        None => match home {
            Some(h) => Some(unix_join(h@, ".local/state/tunnet"@)),
            None => None,
        },
    }
}

/// Where older releases kept per-user state on Unix, from the values of
/// `XDG_STATE_HOME` and `HOME`.
pub fn legacy_user_state_dir(xdg_state_home: &Option<String>, home: &Option<String>) -> (r: Option<
    String,
>)
    ensures
        opt_text(r) == spec_legacy_state_dir(*xdg_state_home, *home),
{
    proof {
        reveal_strlit("tunnet");
        reveal_strlit(".local/state/tunnet");
    }
    match xdg_state_home {
        Some(x) => Some(join_unix(x.as_str(), "tunnet")),
        None => match home {
            Some(h) => Some(join_unix(h.as_str(), ".local/state/tunnet")),
            None => None,
        },
    }
}

} // verus!
