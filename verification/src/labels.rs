//! Device label parsing: `key=value` pairs given as a comma-separated list
//! or one pair per argument. A later pair for the same key replaces the
//! earlier value.

use std::collections::BTreeMap;
use vstd::prelude::*;
use vstd::string::*;

verus! {

/// Labels in the order their keys first appeared; no key occurs twice.
pub type Labels = Vec<(String, String)>;

/// Why a label list was refused.
#[derive(Debug, Clone, PartialEq, Eq)]
pub enum LabelError {
    /// A pair without `=`; holds the offending text.
    InvalidPair(String),
    /// A pair whose key is empty after trimming.
    EmptyKey,
    /// Labels given as JSON that is not an object of strings.
    InvalidJson,
}

/// The view of a label list: the key and value text of each entry.
pub open spec fn labels_view(l: Seq<(String, String)>) -> Seq<(Seq<char>, Seq<char>)> {
    l.map_values(|p: (String, String)| (p.0@, p.1@))
}

/// Unicode `White_Space` characters, which trimming removes.
pub open spec fn is_ws(c: char) -> bool {
    ||| '\u{9}' <= c <= '\u{d}'
    ||| c == ' '
    ||| c == '\u{85}'
    ||| c == '\u{a0}'
    ||| c == '\u{1680}'
    ||| '\u{2000}' <= c <= '\u{200a}'
    ||| c == '\u{2028}'
    ||| c == '\u{2029}'
    ||| c == '\u{202f}'
    ||| c == '\u{205f}'
    ||| c == '\u{3000}'
}

pub open spec fn trim_start(s: Seq<char>) -> Seq<char>
    decreases s.len(),
{
    if s.len() > 0 && is_ws(s[0]) {
        trim_start(s.drop_first())
    } else {
        s
    }
}

pub open spec fn trim_end(s: Seq<char>) -> Seq<char>
    decreases s.len(),
{
    if s.len() > 0 && is_ws(s.last()) {
        trim_end(s.drop_last())
    } else {
        s
    }
}

/// `s` without leading and trailing whitespace.
pub open spec fn trim(s: Seq<char>) -> Seq<char> {
    trim_end(trim_start(s))
}

/// Index of the first `c` in `s`, or the length of `s` when there is none.
pub open spec fn first_index(s: Seq<char>, c: char) -> int
    decreases s.len(),
{
    if s.len() == 0 {
        0
    } else if s[0] == c {
        0
    } else {
        1 + first_index(s.drop_first(), c)
    }
}

/// `s` split at its first `=`, when it has one.
pub open spec fn split_once_eq(s: Seq<char>) -> Option<(Seq<char>, Seq<char>)> {
    let i = first_index(s, '=');
    if i < s.len() {
        Some((s.subrange(0, i), s.subrange(i + 1, s.len() as int)))
    } else {
        None
    }
}

/// Index of the first entry of `key` in `acc`, or the length of `acc`.
pub open spec fn key_index(acc: Seq<(Seq<char>, Seq<char>)>, key: Seq<char>) -> int
    decreases acc.len(),
{
    if acc.len() == 0 {
        0
    } else if acc[0].0 == key {
        0
    } else {
        1 + key_index(acc.drop_first(), key)
    }
}

/// `acc` with `key` set to `value`: the entry of `key` is updated in place,
/// or a new entry is appended.
pub open spec fn label_insert(
    acc: Seq<(Seq<char>, Seq<char>)>,
    key: Seq<char>,
    value: Seq<char>,
) -> Seq<(Seq<char>, Seq<char>)> {
    let i = key_index(acc, key);
    if i < acc.len() {
        acc.update(i, (key, value))
    } else {
        acc.push((key, value))
    }
}

/// No key occurs twice.
pub open spec fn keys_unique(acc: Seq<(Seq<char>, Seq<char>)>) -> bool {
    forall|i: int, j: int| 0 <= i < j < acc.len() ==> (#[trigger] acc[i]).0 != (#[trigger] acc[j]).0
}

/// The value of `key` in `acc`, if any.
pub open spec fn label_lookup(acc: Seq<(Seq<char>, Seq<char>)>, key: Seq<char>) -> Option<
    Seq<char>,
> {
    let i = key_index(acc, key);
    if i < acc.len() {
        Some(acc[i].1)
    } else {
        None
    }
}

proof fn lemma_key_index_is(acc: Seq<(Seq<char>, Seq<char>)>, key: Seq<char>, i: int)
    requires
        0 <= i <= acc.len(),
        i < acc.len() ==> acc[i].0 == key,
        forall|j: int| 0 <= j < i ==> (#[trigger] acc[j]).0 != key,
    ensures
        key_index(acc, key) == i,
    decreases acc.len(),
{
    if acc.len() > 0 && acc[0].0 != key {
        assert forall|j: int| 0 <= j < i - 1 implies (#[trigger] acc.drop_first()[j]).0 != key by {
            assert(acc.drop_first()[j] == acc[j + 1]);
        }
        lemma_key_index_is(acc.drop_first(), key, i - 1);
    }
}

/// Parse the comma-separated pairs of `rest` into `acc`. With `strict`, an
/// empty key is refused; otherwise it is kept.
pub open spec fn parse_csv_from(
    acc: Seq<(Seq<char>, Seq<char>)>,
    rest: Seq<char>,
    strict: bool,
) -> Result<Seq<(Seq<char>, Seq<char>)>, Option<Seq<char>>>
    decreases rest.len(),
{
    let i = first_index(rest, ',');
    let piece = trim(rest.subrange(0, i));
    let step: Result<Seq<(Seq<char>, Seq<char>)>, Option<Seq<char>>> = if piece.len() == 0 {
        Ok(acc)
    } else {
        match split_once_eq(piece) {
            None => Err(Some(piece)),
            Some((k, v)) => if strict && trim(k).len() == 0 {
                Err(None)
            } else {
                Ok(label_insert(acc, trim(k), trim(v)))
            },
        }
    };
    match step {
        Err(e) => Err(e),
        Ok(a) => if i >= rest.len() {
            Ok(a)
        } else {
            proof {
                lemma_first_index_bounds(rest, ',');
            }
            parse_csv_from(a, rest.subrange(i + 1, rest.len() as int), strict)
        },
    }
}

/// The error of the library for a refusal: `Some(text)` is an invalid pair,
/// `None` an empty key.
pub open spec fn label_error_is(e: LabelError, f: Option<Seq<char>>) -> bool {
    match (e, f) {
        (LabelError::InvalidPair(t), Some(s)) => t@ == s,
        (LabelError::EmptyKey, None) => true,
        _ => false,
    }
}

pub open spec fn csv_result_is(
    r: Result<Labels, LabelError>,
    s: Result<Seq<(Seq<char>, Seq<char>)>, Option<Seq<char>>>,
) -> bool {
    match (r, s) {
        (Ok(l), Ok(v)) => labels_view(l@) == v,
        (Err(e), Err(f)) => label_error_is(e, f),
        _ => false,
    }
}

pub proof fn lemma_first_index_bounds(s: Seq<char>, c: char)
    ensures
        0 <= first_index(s, c) <= s.len(),
        first_index(s, c) < s.len() ==> s[first_index(s, c)] == c,
        forall|j: int| 0 <= j < first_index(s, c) ==> s[j] != c,
    decreases s.len(),
{
    if s.len() > 0 && s[0] != c {
        lemma_first_index_bounds(s.drop_first(), c);
        assert forall|j: int| 0 <= j < first_index(s, c) implies s[j] != c by {
            if j > 0 {
                assert(s[j] == s.drop_first()[j - 1]);
            }
        }
    }
}

proof fn lemma_first_index_is(s: Seq<char>, c: char, i: int)
    requires
        0 <= i <= s.len(),
        i < s.len() ==> s[i] == c,
        forall|j: int| 0 <= j < i ==> s[j] != c,
    ensures
        first_index(s, c) == i,
    decreases s.len(),
{
    if s.len() > 0 && s[0] != c {
        lemma_first_index_is(s.drop_first(), c, i - 1);
    }
}

/// Index of the first `c` in `s[from..to]`, or `to` when there is none.
pub(crate) fn find_char(s: &str, from: usize, to: usize, c: char) -> (i: usize)
    requires
        from <= to <= s@.len(),
    ensures
        from <= i <= to,
        i - from == first_index(s@.subrange(from as int, to as int), c),
{
    let mut i = from;
    while i < to
        invariant_except_break
            from <= i <= to <= s@.len(),
            forall|j: int| from <= j < i ==> s@[j] != c,
        ensures
            from <= i <= to <= s@.len(),
            forall|j: int| from <= j < i ==> s@[j] != c,
            i < to ==> s@[i as int] == c,
        decreases to - i,
    {
        if s.get_char(i) == c {
            break;
        }
        i = i + 1;
    }
    proof {
        lemma_first_index_is(s@.subrange(from as int, to as int), c, i - from);
    }
    i
}

proof fn lemma_trim_start_skip(s: Seq<char>, k: int)
    requires
        0 <= k <= s.len(),
        forall|j: int| 0 <= j < k ==> is_ws(s[j]),
    ensures
        trim_start(s) == trim_start(s.subrange(k, s.len() as int)),
    decreases k,
{
    if k > 0 {
        assert(is_ws(s[0]));
        lemma_trim_start_skip(s.drop_first(), k - 1);
        assert(s.drop_first().subrange(k - 1, s.drop_first().len() as int) =~= s.subrange(
            k,
            s.len() as int,
        ));
    } else {
        assert(s.subrange(0, s.len() as int) =~= s);
    }
}

proof fn lemma_trim_end_cut(s: Seq<char>, k: int)
    requires
        0 <= k <= s.len(),
        forall|j: int| k <= j < s.len() ==> is_ws(s[j]),
    ensures
        trim_end(s) == trim_end(s.subrange(0, k)),
    decreases s.len() - k,
{
    if k < s.len() {
        assert(is_ws(s.last()));
        lemma_trim_end_cut(s.drop_last(), k);
        assert(s.drop_last().subrange(0, k) =~= s.subrange(0, k));
    } else {
        assert(s.subrange(0, k) =~= s);
    }
}

/// The bounds of `s[from..to]` without leading and trailing whitespace.
pub(crate) fn trim_range(s: &str, from: usize, to: usize) -> (r: (usize, usize))
    requires
        from <= to <= s@.len(),
    ensures
        from <= r.0 <= r.1 <= to,
        s@.subrange(r.0 as int, r.1 as int) == trim(s@.subrange(from as int, to as int)),
{
    let mut a = from;
    while a < to
        invariant_except_break
            from <= a <= to <= s@.len(),
            forall|j: int| from <= j < a ==> is_ws(s@[j]),
        ensures
            from <= a <= to <= s@.len(),
            forall|j: int| from <= j < a ==> is_ws(s@[j]),
            a < to ==> !is_ws(s@[a as int]),
        decreases to - a,
    {
        let c = s.get_char(a);
        if !char_is_ws(c) {
            break;
        }
        a = a + 1;
    }
    let mut b = to;
    while b > a
        invariant_except_break
            from <= a <= b <= to <= s@.len(),
            forall|j: int| b <= j < to ==> is_ws(s@[j]),
        ensures
            from <= a <= b <= to <= s@.len(),
            forall|j: int| b <= j < to ==> is_ws(s@[j]),
            b > a ==> !is_ws(s@[b - 1]),
        decreases b - a,
    {
        let c = s.get_char(b - 1);
        if !char_is_ws(c) {
            break;
        }
        b = b - 1;
    }
    proof {
        let whole = s@.subrange(from as int, to as int);
        lemma_trim_start_skip(whole, a - from);
        let tail = whole.subrange(a - from, whole.len() as int);
        assert(tail =~= s@.subrange(a as int, to as int));
        assert(trim_start(tail) == tail) by {
            if tail.len() > 0 {
                assert(tail[0] == s@[a as int]);
            }
        }
        lemma_trim_end_cut(tail, b - a);
        let mid = tail.subrange(0, b - a);
        assert(mid =~= s@.subrange(a as int, b as int));
        assert(trim_end(mid) == mid) by {
            if mid.len() > 0 {
                assert(mid.last() == s@[b - 1]);
            }
        }
    }
    (a, b)
}

/// Whether `c` is Unicode whitespace.
fn char_is_ws(c: char) -> (b: bool)
    ensures
        b == is_ws(c),
{
    ('\u{9}' <= c && c <= '\u{d}') || c == ' ' || c == '\u{85}' || c == '\u{a0}' || c == '\u{1680}'
        || ('\u{2000}' <= c && c <= '\u{200a}') || c == '\u{2028}' || c == '\u{2029}' || c
        == '\u{202f}' || c == '\u{205f}' || c == '\u{3000}'
}

/// Set `key` to `value` in `labels`.
fn insert_label(labels: &mut Labels, key: String, value: String)
    ensures
        labels_view(final(labels)@) == label_insert(labels_view(old(labels)@), key@, value@),
{
    let ghost before = labels_view(labels@);
    let mut i: usize = 0;
    while i < labels.len()
        invariant_except_break
            i <= labels@.len(),
            labels_view(labels@) == before,
            forall|j: int| 0 <= j < i ==> (#[trigger] before[j]).0 != key@,
        ensures
            labels_view(labels@) == before,
            i <= labels@.len(),
            forall|j: int| 0 <= j < i ==> (#[trigger] before[j]).0 != key@,
            i < labels@.len() ==> before[i as int].0 == key@,
        decreases labels@.len() - i,
    {
        if labels[i].0 == key {
            break;
        }
        i = i + 1;
    }
    proof {
        lemma_key_index_is(before, key@, i as int);
    }
    if i < labels.len() {
        labels.set(i, (key, value));
        proof {
            assert(labels_view(labels@) =~= before.update(i as int, (key@, value@)));
        }
    } else {
        labels.push((key, value));
        proof {
            assert(labels_view(labels@) =~= before.push((key@, value@)));
        }
    }
}

/// The labels of a comma-separated `key=value` list. Blank pieces are
/// skipped and keys and values are trimmed; with `strict` an empty key is
/// refused.
fn parse_csv(raw: &str, strict: bool) -> (r: Result<Labels, LabelError>)
    ensures
        csv_result_is(r, parse_csv_from(Seq::empty(), raw@, strict)),
{
    let n = raw.unicode_len();
    let mut labels: Labels = Vec::new();
    let mut pos: usize = 0;
    proof {
        assert(raw@.subrange(0, n as int) =~= raw@);
        assert(labels_view(labels@) =~= Seq::<(Seq<char>, Seq<char>)>::empty());
    }
    loop
        invariant
            pos <= n,
            n == raw@.len(),
            parse_csv_from(Seq::empty(), raw@, strict) == parse_csv_from(
                labels_view(labels@),
                raw@.subrange(pos as int, n as int),
                strict,
            ),
        decreases n - pos,
    {
        let ghost rest = raw@.subrange(pos as int, n as int);
        let ghost acc = labels_view(labels@);
        let i = find_char(raw, pos, n, ',');
        let (a, b) = trim_range(raw, pos, i);
        proof {
            assert(rest.subrange(0, i - pos) =~= raw@.subrange(pos as int, i as int));
        }
        if a < b {
            let eq = find_char(raw, a, b, '=');
            proof {
                assert(raw@.subrange(a as int, b as int).subrange(0, eq - a) =~= raw@.subrange(
                    a as int,
                    eq as int,
                ));
            }
            if eq == b {
                return Err(LabelError::InvalidPair(String::from_str(raw.substring_char(a, b))));
            }
            proof {
                assert(raw@.subrange(a as int, b as int).subrange(
                    eq - a + 1,
                    b - a,
                ) =~= raw@.subrange(eq + 1, b as int));
            }
            let (ka, kb) = trim_range(raw, a, eq);
            let (va, vb) = trim_range(raw, eq + 1, b);
            if strict && ka == kb {
                return Err(LabelError::EmptyKey);
            }
            let key = String::from_str(raw.substring_char(ka, kb));
            let value = String::from_str(raw.substring_char(va, vb));
            insert_label(&mut labels, key, value);
        }
        if i >= n {
            return Ok(labels);
        }
        proof {
            assert(rest.subrange(i - pos + 1, rest.len() as int) =~= raw@.subrange(
                i + 1,
                n as int,
            ));
        }
        pos = i + 1;
    }
}

/// Parse enrolment labels given as `key=value,key=value`. Blank pieces are
/// skipped, keys and values are trimmed, a later key replaces an earlier
/// one; a piece without `=` or with an empty key is refused.
pub fn parse_label_csv(raw: &str) -> (r: Result<Labels, LabelError>)
    ensures
        csv_result_is(r, parse_csv_from(Seq::empty(), raw@, true)),
{
    parse_csv(raw, true)
}

/// Parse `pairs` (each `key=value`, split at the first `=`, not trimmed)
/// into `acc`.
pub open spec fn parse_pairs_from(
    acc: Seq<(Seq<char>, Seq<char>)>,
    pairs: Seq<Seq<char>>,
) -> Result<Seq<(Seq<char>, Seq<char>)>, Option<Seq<char>>>
    decreases pairs.len(),
{
    if pairs.len() == 0 {
        Ok(acc)
    } else {
        match split_once_eq(pairs[0]) {
            None => Err(Some(pairs[0])),
            Some((k, v)) => parse_pairs_from(label_insert(acc, k, v), pairs.drop_first()),
        }
    }
}

/// Parse one `key=value` label per argument; a later key replaces an
/// earlier one and an argument without `=` is refused.
pub fn parse_label_pairs(pairs: &[String]) -> (r: Result<Labels, LabelError>)
    ensures
        csv_result_is(r, parse_pairs_from(Seq::empty(), pairs@.map_values(|p: String| p@))),
{
    let ghost all = pairs@.map_values(|p: String| p@);
    let mut labels: Labels = Vec::new();
    let mut idx: usize = 0;
    proof {
        assert(all.subrange(0, all.len() as int) =~= all);
        assert(labels_view(labels@) =~= Seq::<(Seq<char>, Seq<char>)>::empty());
    }
    while idx < pairs.len()
        invariant
            idx <= pairs@.len(),
            all == pairs@.map_values(|p: String| p@),
            parse_pairs_from(Seq::empty(), all) == parse_pairs_from(
                labels_view(labels@),
                all.subrange(idx as int, all.len() as int),
            ),
        decreases pairs@.len() - idx,
    {
        let p = pairs[idx].as_str();
        let n = p.unicode_len();
        let eq = find_char(p, 0, n, '=');
        let ghost rest = all.subrange(idx as int, all.len() as int);
        proof {
            assert(p@.subrange(0, n as int) =~= p@);
            assert(rest[0] == p@);
            assert(rest.drop_first() =~= all.subrange(idx + 1, all.len() as int));
        }
        if eq == n {
            return Err(LabelError::InvalidPair(String::from_str(p)));
        }
        let key = String::from_str(p.substring_char(0, eq));
        let value = String::from_str(p.substring_char(eq + 1, n));
        insert_label(&mut labels, key, value);
        idx = idx + 1;
    }
    Ok(labels)
}

/// The labels `serde_json` reads from a JSON object of strings, in key
/// order, or `None` when the text is not such an object.
pub uninterp spec fn labels_json_of(json: Seq<char>) -> Option<Seq<(Seq<char>, Seq<char>)>>;

/// Calls `serde_json::from_str` to read a JSON object whose values are all
/// strings into an ordered map, and lists its entries in key order. The
/// contract names the outcome and adds only that the keys of a map are
/// distinct.
#[verifier::external_body]
fn labels_from_json(json: &str) -> (r: Option<Labels>)
    ensures
        match r {
            Some(l) => labels_json_of(json@) == Some(labels_view(l@)) && keys_unique(labels_view(l@)),
            None => labels_json_of(json@) is None,
        },
{
    match serde_json::from_str::<BTreeMap<String, String>>(json) {
        Ok(map) => Some(map.into_iter().collect()),
        Err(_) => None,
    }
}

/// Labels given as a JSON object whose values are all strings: the pairs
/// of the object (keys distinct), or `InvalidJson` when the text is not
/// such an object.
pub fn parse_labels_json(raw: &str) -> (r: Result<Labels, LabelError>)
    ensures
        match labels_json_of(raw@) {
            Some(v) => r matches Ok(l) && labels_view(l@) == v && keys_unique(v),
            None => r == Err::<Labels, LabelError>(LabelError::InvalidJson),
        },
{
    match labels_from_json(raw) {
        Some(l) => Ok(l),
        None => Err(LabelError::InvalidJson),
    }
}

/// Enrolment options, as given on the command line.
#[derive(Debug, Clone)]
pub struct EnrollArgs {
    pub control_url: String,
    pub token: Option<String>,
    pub org: Option<String>,
    pub network: Option<String>,
    pub hostname: Option<String>,
    pub wait_secs: u64,
    /// Labels as `key=value,key=value`.
    pub labels: Option<String>,
    /// Labels as a JSON object of strings.
    pub labels_json: Option<String>,
    pub expires_in: Option<String>,
    pub no_encrypt_state: bool,
}

/// The labels of an enrolment: from the comma-separated list (empty keys
/// kept), from the JSON object, or none when neither is given.
pub fn parse_labels(args: &EnrollArgs) -> (r: Result<Option<Labels>, LabelError>)
    requires
        !(args.labels is Some && args.labels_json is Some),
    ensures
        match (args.labels, args.labels_json) {
            (Some(csv), None) => match (r, parse_csv_from(Seq::empty(), csv@, false)) {
                (Ok(Some(l)), Ok(v)) => labels_view(l@) == v,
                (Err(e), Err(f)) => label_error_is(e, f),
                _ => false,
            },
            (None, Some(json)) => match (r, labels_json_of(json@)) {
                (Ok(Some(l)), Some(v)) => labels_view(l@) == v,
                (Err(e), None) => e == LabelError::InvalidJson,
                _ => false,
            },
            _ => r matches Ok(None),
        },
{
    match (&args.labels, &args.labels_json) {
        (Some(csv), None) => match parse_csv(csv.as_str(), false) {
            Ok(l) => Ok(Some(l)),
            Err(e) => Err(e),
        },
        (None, Some(json)) => match parse_labels_json(json.as_str()) {
            Ok(l) => Ok(Some(l)),
            Err(e) => Err(e),
        },
        _ => Ok(None),
    }
}

/// Setting a key and then looking it up gives the value just set.
pub proof fn law_label_set_then_get(acc: Seq<(Seq<char>, Seq<char>)>, key: Seq<char>, value: Seq<char>)
    ensures
        label_lookup(label_insert(acc, key, value), key) == Some(value),
{
    let i = key_index(acc, key);
    lemma_key_index_bounds(acc, key);
    let out = label_insert(acc, key, value);
    if i < acc.len() {
        assert forall|j: int| 0 <= j < i implies (#[trigger] out[j]).0 != key by {
            assert(out[j] == acc[j]);
        }
        lemma_key_index_is(out, key, i);
    } else {
        assert forall|j: int| 0 <= j < acc.len() implies (#[trigger] out[j]).0 != key by {
            assert(out[j] == acc[j]);
        }
        lemma_key_index_is(out, key, acc.len() as int);
    }
}

proof fn lemma_key_index_bounds(acc: Seq<(Seq<char>, Seq<char>)>, key: Seq<char>)
    ensures
        0 <= key_index(acc, key) <= acc.len(),
        key_index(acc, key) < acc.len() ==> acc[key_index(acc, key)].0 == key,
        forall|j: int| 0 <= j < key_index(acc, key) ==> (#[trigger] acc[j]).0 != key,
    decreases acc.len(),
{
    if acc.len() > 0 && acc[0].0 != key {
        lemma_key_index_bounds(acc.drop_first(), key);
        assert forall|j: int| 0 <= j < key_index(acc, key) implies (#[trigger] acc[j]).0 != key by {
            if j > 0 {
                assert(acc[j] == acc.drop_first()[j - 1]);
            }
        }
    }
}

/// Setting a key keeps every key distinct.
pub proof fn law_label_set_keeps_keys_unique(
    acc: Seq<(Seq<char>, Seq<char>)>,
    key: Seq<char>,
    value: Seq<char>,
)
    requires
        keys_unique(acc),
    ensures
        keys_unique(label_insert(acc, key, value)),
{
    lemma_key_index_bounds(acc, key);
    let out = label_insert(acc, key, value);
    let i = key_index(acc, key);
    if i < acc.len() {
        assert forall|a: int, b: int| 0 <= a < b < out.len() implies (#[trigger] out[a]).0 != (
        #[trigger] out[b]).0 by {
            if a == i {
                assert(acc[b].0 != acc[i].0);
            } else if b == i {
                assert(acc[a].0 != acc[i].0);
            } else {
                assert(acc[a].0 != acc[b].0);
            }
        }
    } else {
        assert forall|a: int, b: int| 0 <= a < b < out.len() implies (#[trigger] out[a]).0 != (
        #[trigger] out[b]).0 by {
            if b == acc.len() {
                assert(out[a] == acc[a]);
            } else {
                assert(acc[a].0 != acc[b].0);
            }
        }
    }
}

/// A comma-separated label list never yields the same key twice.
pub proof fn law_csv_labels_have_unique_keys(
    acc: Seq<(Seq<char>, Seq<char>)>,
    rest: Seq<char>,
    strict: bool,
)
    requires
        keys_unique(acc),
    ensures
        parse_csv_from(acc, rest, strict) matches Ok(l) ==> keys_unique(l),
    decreases rest.len(),
{
    let i = first_index(rest, ',');
    lemma_first_index_bounds(rest, ',');
    let piece = trim(rest.subrange(0, i));
    if piece.len() != 0 {
        if let Some((k, v)) = split_once_eq(piece) {
            law_label_set_keeps_keys_unique(acc, trim(k), trim(v));
            if i < rest.len() {
                law_csv_labels_have_unique_keys(
                    label_insert(acc, trim(k), trim(v)),
                    rest.subrange(i + 1, rest.len() as int),
                    strict,
                );
            }
        }
    } else if i < rest.len() {
        law_csv_labels_have_unique_keys(acc, rest.subrange(i + 1, rest.len() as int), strict);
    }
}

} // verus!
