//! Plain text of a markdown body, for full-text search: the text and code
//! of the parsed document, with a space wherever a line or an element
//! ends.

use vstd::prelude::*;
use vstd::string::StringExecFns;
use crate::text::{chars_of, string_from_chars, trim_bounds, trim_spec};

verus! {

/// The parser events the plain-text extraction tells apart.
#[derive(Debug)]
pub enum MdEvent {
    Text(String),
    Code(String),
    SoftBreak,
    HardBreak,
    /// The end of any element.
    End,
    /// Any other event (starts, HTML, rules, math, footnotes, task markers).
    Other,
}

pub enum MdEventV {
    Text(Seq<char>),
    Code(Seq<char>),
    SoftBreak,
    HardBreak,
    End,
    Other,
}

impl View for MdEvent {
    type V = MdEventV;

    open spec fn view(&self) -> MdEventV {
        match self {
            MdEvent::Text(t) => MdEventV::Text(t@),
            MdEvent::Code(t) => MdEventV::Code(t@),
            MdEvent::SoftBreak => MdEventV::SoftBreak,
            MdEvent::HardBreak => MdEventV::HardBreak,
            MdEvent::End => MdEventV::End,
            MdEvent::Other => MdEventV::Other,
        }
    }
}

/// The events `pulldown_cmark::Parser::new` (CommonMark, no extensions)
/// yields for a document.
pub uninterp spec fn markdown_events(md: Seq<char>) -> Seq<MdEventV>;

/// Parse `md` with `pulldown_cmark::Parser::new`, keeping each event's
/// kind (and its text, for text and code).
#[verifier::external_body]
fn parse_markdown(md: &str) -> (evs: Vec<MdEvent>)
    ensures
        evs@.map_values(|e: MdEvent| e@) == markdown_events(md@),
{
    pulldown_cmark::Parser::new(md).map(|e| match e {
        pulldown_cmark::Event::Text(t) => MdEvent::Text(t.into_string()),
        pulldown_cmark::Event::Code(t) => MdEvent::Code(t.into_string()),
        pulldown_cmark::Event::SoftBreak => MdEvent::SoftBreak,
        pulldown_cmark::Event::HardBreak => MdEvent::HardBreak,
        pulldown_cmark::Event::End(_) => MdEvent::End,
        _ => MdEvent::Other,
    }).collect()
}

/// One event's effect on the text: text and code are appended with a
/// space after them; a line break or an element's end leaves exactly one
/// space at the end; anything else adds nothing.
pub open spec fn strip_step(out: Seq<char>, e: MdEventV) -> Seq<char> {
    match e {
        MdEventV::Text(t) => out + t + seq![' '],
        MdEventV::Code(t) => out + t + seq![' '],
        MdEventV::Other => out,
        _ => if out.len() > 0 && out.last() == ' ' {
            out
        } else {
            out.push(' ')
        },
    }
}

pub open spec fn strip_fold(evs: Seq<MdEventV>, n: int) -> Seq<char>
    decreases n,
{
    if n <= 0 || n > evs.len() {
        Seq::empty()
    } else {
        strip_step(strip_fold(evs, n - 1), evs[n - 1])
    }
}

/// The plain text of a markdown document, trimmed.
pub open spec fn strip_spec(md: Seq<char>) -> Seq<char> {
    let evs = markdown_events(md);
    trim_spec(strip_fold(evs, evs.len() as int))
}

/// The plain text of `md`.
pub fn strip_markdown(md: &str) -> (r: String)
    ensures
        r@ == strip_spec(md@),
{
    let evs = parse_markdown(md);
    let ghost ev = evs@.map_values(|e: MdEvent| e@);
    let mut out: Vec<char> = Vec::new();
    let mut i: usize = 0;
    while i < evs.len()
        invariant
            i <= evs@.len(),
            ev == evs@.map_values(|e: MdEvent| e@),
            out@ == strip_fold(ev, i as int),
        decreases evs@.len() - i,
    {
        match &evs[i] {
            MdEvent::Text(t) => {
                let mut c = chars_of(t.as_str());
                out.append(&mut c);
                out.push(' ');
            },
            MdEvent::Code(t) => {
                let mut c = chars_of(t.as_str());
                out.append(&mut c);
                out.push(' ');
            },
            MdEvent::Other => {},
            _ => {
                if !(out.len() > 0 && out[out.len() - 1] == ' ') {
                    out.push(' ');
                }
            },
        }
        assert(out@ =~= strip_step(strip_fold(ev, i as int), ev[i as int]));
        i = i + 1;
    }
    let (a, b) = trim_bounds(out.as_slice(), 0, out.len());
    assert(out@.subrange(0, out@.len() as int) =~= out@);
    string_from_chars(&out[a..b])
}

} // verus!
