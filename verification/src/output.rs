//! Human-friendly CLI output: optional JSON mode and ANSI colour when the
//! output is a terminal.

use vstd::prelude::*;
use vstd::string::*;
use vstd::utf8::*;

verus! {

broadcast use vstd::utf8::encode_utf8_decode_utf8;

pub struct Output {
    pub json: bool,
    color: bool,
}

/// `text` wrapped in the ANSI select-graphic-rendition `code` and a reset.
pub open spec fn ansi(code: Seq<char>, text: Seq<char>) -> Seq<char> {
    "\x1b["@ + code + "m"@ + text + "\x1b[0m"@
}

impl Output {
    /// Whether text is coloured: only for human output on a terminal.
    pub closed spec fn colored(&self) -> bool {
        self.color
    }

    /// Whether results are printed as JSON.
    pub closed spec fn json_mode(&self) -> bool {
        self.json
    }

    pub open spec fn painted(&self, code: Seq<char>, text: Seq<char>) -> Seq<char> {
        if self.colored() {
            ansi(code, text)
        } else {
            text
        }
    }

    /// Output settings for `json` mode, where `terminal` tells whether
    /// standard output is a terminal.
    pub fn new(json: bool, terminal: bool) -> (o: Output)
        ensures
            o.json_mode() == json,
            o.colored() == (!json && terminal),
    {
        Output { json, color: !json && terminal }
    }

    pub fn paint(&self, code: &str, text: &str) -> (s: String)
        ensures
            s@ == self.painted(code@, text@),
    {
        if self.color {
            let mut s = String::from_str("\x1b[");
            s.append(code);
            s.append("m");
            s.append(text);
            s.append("\x1b[0m");
            s
        } else {
            String::from_str(text)
        }
    }

    pub fn green(&self, text: &str) -> (s: String)
        ensures
            s@ == self.painted("32"@, text@),
    {
        self.paint("32", text)
    }

    pub fn red(&self, text: &str) -> (s: String)
        ensures
            s@ == self.painted("31"@, text@),
    {
        self.paint("31", text)
    }

    pub fn dim(&self, text: &str) -> (s: String)
        ensures
            s@ == self.painted("2"@, text@),
    {
        self.paint("2", text)
    }

    pub fn bold(&self, text: &str) -> (s: String)
        ensures
            s@ == self.painted("1"@, text@),
    {
        self.paint("1", text)
    }

    pub fn cyan(&self, text: &str) -> (s: String)
        ensures
            s@ == self.painted("36"@, text@),
    {
        self.paint("36", text)
    }

    pub fn yellow(&self, text: &str) -> (s: String)
        ensures
            s@ == self.painted("33"@, text@),
    {
        self.paint("33", text)
    }

    /// A filled green dot for an online peer, a hollow dim one otherwise.
    pub fn online_dot(&self, online: bool) -> (s: String)
        ensures
            online ==> s@ == self.painted("32"@, "●"@),
            !online ==> s@ == self.painted("2"@, "○"@),
    {
        if online {
            self.green("●")
        } else {
            self.dim("○")
        }
    }
}

/// An endpoint id shortened for display: ids of at most 12 bytes are kept,
/// longer ones show their first 6 and last 4 bytes around an ellipsis.
pub open spec fn spec_short_endpoint(id: Seq<u8>) -> Seq<char> {
    if id.len() <= 12 {
        decode_utf8(id)
    } else {
        decode_utf8(id.subrange(0, 6)) + "…"@ + decode_utf8(id.subrange(id.len() - 4, id.len() as int))
    }
}

pub fn short_endpoint(id: &str) -> (s: String)
    requires
        id.spec_bytes().len() <= usize::MAX,
        id.spec_bytes().len() > 12 ==> is_char_boundary(id.spec_bytes(), 6) && is_char_boundary(
            id.spec_bytes(),
            id.spec_bytes().len() - 4,
        ),
    ensures
        s@ == spec_short_endpoint(id.spec_bytes()),
{
    if id.len() <= 12 {
        assert(decode_utf8(encode_utf8(id@)) == id@);
        String::from_str(id)
    } else {
        let head = id.split_at(6).0;
        let tail = id.split_at(id.len() - 4).1;
        assert(decode_utf8(encode_utf8(head@)) == head@);
        assert(decode_utf8(encode_utf8(tail@)) == tail@);
        let mut s = String::from_str(head);
        s.append("…");
        s.append(tail);
        s
    }
}

} // verus!
