//! `posture` commands: the lines a person sees for the collected posture
//! attributes and for a posture check.

use crate::output::Output;
use crate::text::{decimal, score_color};
use crate::underlay::{strip_leading, strip_trailing};
use vstd::prelude::*;
use vstd::string::*;

verus! {

#[derive(Debug, Clone)]
pub struct PostureStatusArgs {
    pub json: bool,
}

#[derive(Debug, Clone)]
pub struct PostureCheckArgs {
    /// Assertion definitions to check against, read by the caller.
    pub file: Option<String>,
    pub json: bool,
}

#[derive(Debug, Clone)]
pub enum PostureCommand {
    Status(PostureStatusArgs),
    Check(PostureCheckArgs),
}

/// One collected attribute: its name, and its value as JSON text (absent
/// when the agent's row lacks it).
#[derive(Debug, Clone)]
pub struct PostureRow {
    pub attribute: Option<String>,
    pub value: Option<String>,
}

pub open spec fn or_text(s: Option<String>, d: Seq<char>) -> Seq<char> {
    match s {
        Some(t) => t@,
        None => d,
    }
}

/// A value without its surrounding double quotes.
pub open spec fn unquoted(s: Seq<char>) -> Seq<char> {
    strip_trailing(strip_leading(s, '"'), '"')
}

/// `  name = value` for one attribute row.
pub open spec fn row_line(out: Output, r: PostureRow) -> Seq<char> {
    "  "@ + out.painted("36"@, or_text(r.attribute, "?"@)) + " = "@ + unquoted(
        or_text(r.value, "?"@),
    )
}

/// The lines of `posture status`.
pub open spec fn spec_status_lines(out: Output, rows: Option<Seq<PostureRow>>) -> Seq<Seq<char>> {
    let head = seq![out.painted("1"@, "Posture attributes"@)];
    match rows {
        Some(rs) => if rs.len() == 0 {
            head.push(out.painted("2"@, "  (none collected)"@))
        } else {
            head + rs.map_values(|r: PostureRow| row_line(out, r))
        },
        None => head.push(out.painted("2"@, "  (none collected)"@)),
    }
}

pub open spec fn strings_view(v: Seq<String>) -> Seq<Seq<char>> {
    v.map_values(|s: String| s@)
}

/// `s` without leading and trailing `"` characters.
pub fn trim_quotes(s: &str) -> (r: String)
    ensures
        r@ == unquoted(s@),
{
    let n = s.unicode_len();
    assert(s@.subrange(0, n as int) =~= s@);
    let mut a: usize = 0;
    while a < n
        invariant_except_break
            a <= n,
            n == s@.len(),
            strip_leading(s@, '"') == strip_leading(s@.subrange(a as int, n as int), '"'),
        ensures
            a <= n,
            n == s@.len(),
            strip_leading(s@, '"') == s@.subrange(a as int, n as int),
        decreases n - a,
    {
        if s.get_char(a) != '"' {
            break;
        }
        proof {
            assert(s@.subrange(a as int, n as int).drop_first() =~= s@.subrange(a + 1, n as int));
        }
        a = a + 1;
    }
    let mut b: usize = n;
    while b > a
        invariant_except_break
            a <= b <= n,
            n == s@.len(),
            strip_trailing(s@.subrange(a as int, n as int), '"') == strip_trailing(
                s@.subrange(a as int, b as int),
                '"',
            ),
        ensures
            a <= b <= n,
            strip_trailing(s@.subrange(a as int, n as int), '"') == s@.subrange(a as int, b as int),
        decreases b - a,
    {
        if s.get_char(b - 1) != '"' {
            break;
        }
        proof {
            assert(s@.subrange(a as int, b as int).drop_last() =~= s@.subrange(a as int, b - 1));
        }
        b = b - 1;
    }
    String::from_str(s.substring_char(a, b))
}

fn row_line_of(out: &Output, r: &PostureRow) -> (s: String)
    ensures
        s@ == row_line(*out, *r),
{
    let mut s = String::from_str("  ");
    let name = match &r.attribute {
        Some(a) => out.cyan(a.as_str()),
        None => out.cyan("?"),
    };
    s.append(name.as_str());
    s.append(" = ");
    let value = match &r.value {
        Some(v) => trim_quotes(v.as_str()),
        None => trim_quotes("?"),
    };
    s.append(value.as_str());
    s
}

/// The lines `posture status` prints for a person.
pub fn posture_status_lines(out: &Output, rows: &Option<Vec<PostureRow>>) -> (r: Vec<String>)
    ensures
        strings_view(r@) == spec_status_lines(
            *out,
            match rows {
                Some(v) => Some(v@),
                None => None,
            },
        ),
{
    let mut lines: Vec<String> = Vec::new();
    lines.push(out.bold("Posture attributes"));
    let ghost head = strings_view(lines@);
    match rows {
        Some(rs) => {
            if rs.len() == 0 {
                lines.push(out.dim("  (none collected)"));
            } else {
                let mut i: usize = 0;
                while i < rs.len()
                    invariant
                        i <= rs@.len(),
                        lines@.len() == i + 1,
                        lines@[0]@ == out.painted("1"@, "Posture attributes"@),
                        forall|k: int| 0 <= k < i ==> (#[trigger] lines@[k + 1])@ == row_line(*out, rs@[k]),
                    decreases rs@.len() - i,
                {
                    let line = row_line_of(out, &rs[i]);
                    lines.push(line);
                    i = i + 1;
                }
                proof {
                    let want = spec_status_lines(*out, Some(rs@));
                    assert forall|k: int| 0 <= k < lines@.len() implies strings_view(lines@)[k] == want[k] by {
                        if k > 0 {
                            assert(lines@[(k - 1) + 1] == lines@[k]);
                        }
                    }
                    assert(strings_view(lines@) =~= want);
                }
            }
        },
        None => {
            lines.push(out.dim("  (none collected)"));
        },
    }
    proof {
        assert(strings_view(lines@) =~= spec_status_lines(
            *out,
            match rows {
                Some(v) => Some(v@),
                None => None,
            },
        ));
    }
    lines
}

/// An assertion a check found failing.
#[derive(Debug, Clone)]
pub struct PostureFailure {
    pub attribute: Option<String>,
    pub operator: Option<String>,
}

/// The outcome of one posture check.
#[derive(Debug, Clone)]
pub struct PostureResult {
    pub name: Option<String>,
    pub passed: Option<bool>,
    pub failing: Option<Vec<PostureFailure>>,
}

/// What a posture check returns: its score, its results, and the
/// attributes it saw (each value as JSON text).
#[derive(Debug, Clone)]
pub struct PostureCheckData {
    pub score: Option<u64>,
    pub results: Option<Vec<PostureResult>>,
    pub attributes: Option<Vec<(String, String)>>,
}

/// The score as it is shown: the low 32 bits of the reported number.
pub open spec fn shown_score(score: Option<u64>) -> u32 {
    match score {
        Some(s) => (s % 0x1_0000_0000) as u32,
        None => 0,
    }
}

pub open spec fn colored_score(out: Output, score: u32) -> Seq<char> {
    if score >= 80 {
        out.painted("32"@, decimal(score as nat))
    } else if score >= 50 {
        out.painted("33"@, decimal(score as nat))
    } else {
        out.painted("31"@, decimal(score as nat))
    }
}

pub open spec fn failure_line(out: Output, f: PostureFailure) -> Seq<char> {
    "    "@ + out.painted("2"@, or_text(f.attribute, "?"@) + " "@ + or_text(f.operator, "?"@))
}

/// The lines for one result: its name and verdict, then each failing
/// assertion.
pub open spec fn result_lines(out: Output, r: PostureResult) -> Seq<Seq<char>> {
    let head = "  "@ + out.painted("36"@, or_text(r.name, "?"@)) + " "@ + (if r.passed == Some(true) {
        out.painted("32"@, "pass"@)
    } else {
        out.painted("31"@, "fail"@)
    });
    seq![head] + match r.failing {
        Some(fs) => fs@.map_values(|f: PostureFailure| failure_line(out, f)),
        None => Seq::empty(),
    }
}

pub open spec fn all_result_lines(out: Output, rs: Seq<PostureResult>) -> Seq<Seq<char>>
    decreases rs.len(),
{
    if rs.len() == 0 {
        Seq::empty()
    } else {
        all_result_lines(out, rs.drop_last()) + result_lines(out, rs.last())
    }
}

pub open spec fn attribute_line(out: Output, a: (String, String)) -> Seq<char> {
    "  "@ + out.painted("36"@, a.0@) + " = "@ + a.1@
}

/// The lines of `posture check`.
pub open spec fn spec_check_lines(out: Output, d: PostureCheckData) -> Seq<Seq<char>> {
    let head = seq![out.painted("1"@, "Posture check"@)];
    let score = "  Score: "@ + colored_score(out, shown_score(d.score));
    let no_results = match d.results {
        Some(r) => r@.len() == 0,
        None => true,
    };
    if no_results {
        head.push(out.painted("2"@, "  No assertions file - showing score and attributes only."@)).push(
            score,
        ) + match d.attributes {
            Some(a) => a@.map_values(|p: (String, String)| attribute_line(out, p)),
            None => Seq::empty(),
        }
    } else {
        head.push(score) + all_result_lines(out, d.results.unwrap()@)
    }
}

fn low_u32(s: u64) -> (r: u32)
    ensures
        r == (s % 0x1_0000_0000) as u32,
{
    (s % 0x1_0000_0000) as u32
}

fn failure_line_of(out: &Output, f: &PostureFailure) -> (s: String)
    ensures
        s@ == failure_line(*out, *f),
{
    let mut text = match &f.attribute {
        Some(a) => a.clone(),
        None => String::from_str("?"),
    };
    text.append(" ");
    match &f.operator {
        Some(o) => text.append(o.as_str()),
        None => text.append("?"),
    }
    let mut s = String::from_str("    ");
    let d = out.dim(text.as_str());
    s.append(d.as_str());
    s
}

fn push_result_lines(out: &Output, r: &PostureResult, lines: &mut Vec<String>)
    ensures
        strings_view(final(lines)@) == strings_view(old(lines)@) + result_lines(*out, *r),
{
    let ghost start = strings_view(lines@);
    let mut head = String::from_str("  ");
    let name = match &r.name {
        Some(n) => out.cyan(n.as_str()),
        None => out.cyan("?"),
    };
    head.append(name.as_str());
    head.append(" ");
    let verdict = if r.passed == Some(true) {
        out.green("pass")
    } else {
        out.red("fail")
    };
    head.append(verdict.as_str());
    lines.push(head);
    let ghost with_head = strings_view(lines@);
    proof {
        assert(with_head =~= start + seq![result_lines(*out, *r)[0]]);
    }
    match &r.failing {
        Some(fs) => {
            let base = lines.len();
            let mut i: usize = 0;
            while i < fs.len()
                invariant
                    i <= fs@.len(),
                    lines@.len() == base + i,
                    strings_view(lines@).take(base as int) == with_head,
                    base == with_head.len(),
                    forall|k: int| 0 <= k < i ==> (#[trigger] lines@[base + k])@ == failure_line(*out, fs@[k]),
                decreases fs@.len() - i,
            {
                let line = failure_line_of(out, &fs[i]);
                let ghost before = strings_view(lines@);
                lines.push(line);
                proof {
                    assert(strings_view(lines@).take(base as int) =~= before.take(base as int));
                }
                i = i + 1;
            }
            proof {
                let want = start + result_lines(*out, *r);
                assert forall|k: int| 0 <= k < lines@.len() implies strings_view(lines@)[k] == want[k] by {
                    if k < base {
                        assert(strings_view(lines@).take(base as int)[k] == strings_view(lines@)[k]);
                    } else {
                        assert(lines@[base + (k - base)] == lines@[k]);
                    }
                }
                assert(strings_view(lines@) =~= want);
            }
        },
        None => {
            proof {
                assert(strings_view(lines@) =~= start + result_lines(*out, *r));
            }
        },
    }
}

/// The lines `posture check` prints for a person.
pub fn posture_check_lines(out: &Output, data: &PostureCheckData) -> (r: Vec<String>)
    ensures
        strings_view(r@) == spec_check_lines(*out, *data),
{
    let mut lines: Vec<String> = Vec::new();
    lines.push(out.bold("Posture check"));
    let score = match data.score {
        Some(s) => low_u32(s),
        None => 0,
    };
    let mut score_line = String::from_str("  Score: ");
    let colored = score_color(out, score);
    score_line.append(colored.as_str());
    let no_results = match &data.results {
        Some(rs) => rs.len() == 0,
        None => true,
    };
    if no_results {
        lines.push(out.dim("  No assertions file - showing score and attributes only."));
        lines.push(score_line);
        let ghost head = strings_view(lines@);
        match &data.attributes {
            Some(attrs) => {
                let mut i: usize = 0;
                while i < attrs.len()
                    invariant
                        i <= attrs@.len(),
                        lines@.len() == 3 + i,
                        strings_view(lines@).take(3) == head,
                        head.len() == 3,
                        forall|k: int| 0 <= k < i ==> (#[trigger] lines@[3 + k])@ == attribute_line(*out, attrs@[k]),
                    decreases attrs@.len() - i,
                {
                    let mut line = String::from_str("  ");
                    let key = out.cyan(attrs[i].0.as_str());
                    line.append(key.as_str());
                    line.append(" = ");
                    line.append(attrs[i].1.as_str());
                    let ghost before = strings_view(lines@);
                    lines.push(line);
                    proof {
                        assert(strings_view(lines@).take(3) =~= before.take(3));
                    }
                    i = i + 1;
                }
                proof {
                    let want = spec_check_lines(*out, *data);
                    assert forall|k: int| 0 <= k < lines@.len() implies strings_view(lines@)[k] == want[k] by {
                        if k < 3 {
                            assert(strings_view(lines@).take(3)[k] == strings_view(lines@)[k]);
                        } else {
                            assert(lines@[3 + (k - 3)] == lines@[k]);
                        }
                    }
                    assert(strings_view(lines@) =~= want);
                }
            },
            None => {
                proof {
                    assert(strings_view(lines@) =~= spec_check_lines(*out, *data));
                }
            },
        }
        return lines;
    }
    lines.push(score_line);
    let rs = match &data.results {
        Some(rs) => rs,
        None => {
            proof {
                assert(false);
            }
            return lines;
        },
    };
    let ghost head = strings_view(lines@);
    let mut i: usize = 0;
    while i < rs.len()
        invariant
            i <= rs@.len(),
            strings_view(lines@) == head + all_result_lines(*out, rs@.take(i as int)),
        decreases rs@.len() - i,
    {
        proof {
            assert(rs@.take(i as int + 1).drop_last() =~= rs@.take(i as int));
        }
        push_result_lines(out, &rs[i], &mut lines);
        proof {
            assert(head + all_result_lines(*out, rs@.take(i as int)) + result_lines(*out, rs@[i as int])
                =~= head + all_result_lines(*out, rs@.take(i as int + 1)));
        }
        i = i + 1;
    }
    proof {
        assert(rs@.take(rs@.len() as int) =~= rs@);
    }
    lines
}

} // verus!
