//! Reading one HTTP response: the status line, the headers up to the blank
//! line, and the body that follows it.

use vstd::prelude::*;
use vstd::slice::slice_subrange;
use crate::ascii::{
    eq_ignoring_case, is_blank, is_space, run_len, run_length, same_ignoring_case, space,
    spaces_length, token_len, token_length, trim, trim_start, trimmed, COLON, LF,
};
use crate::decimal::{number_value, parse_number};
use crate::error::FetchError;

verus! {

/// One parsed response.
#[derive(Debug, PartialEq, Eq)]
pub struct ParsedResponse {
    /// The status code of the status line.
    pub status: u16,
    /// The length that the `Content-Length` header declares.
    pub content_length: usize,
    /// Every byte that follows the blank line.
    pub body: Vec<u8>,
}

/// The mathematical form of a [`ParsedResponse`].
pub ghost struct ResponseView {
    pub status: u16,
    pub content_length: usize,
    pub body: Seq<u8>,
}

impl View for ParsedResponse {
    type V = ResponseView;

    open spec fn view(&self) -> ResponseView {
        ResponseView { status: self.status, content_length: self.content_length, body: self.body@ }
    }
}

/// The name of the header that declares the length of the body, in lower
/// case: `content-length`.
pub open spec fn length_header_name() -> Seq<u8> {
    seq![
        'c' as u8, 'o' as u8, 'n' as u8, 't' as u8, 'e' as u8, 'n' as u8, 't' as u8, '-' as u8,
        'l' as u8, 'e' as u8, 'n' as u8, 'g' as u8, 't' as u8, 'h' as u8,
    ]
}

/// The first line of `s`, without the line feed that ends it.
pub open spec fn first_line(s: Seq<u8>) -> Seq<u8> {
    s.take(run_len(s, LF) as int)
}

/// The length of the first line of `s` with its line feed, if it has one.
pub open spec fn line_step(s: Seq<u8>) -> nat {
    if run_len(s, LF) < s.len() {
        run_len(s, LF) + 1
    } else {
        s.len()
    }
}

/// What follows the first line of `s`.
pub open spec fn after_line(s: Seq<u8>) -> Seq<u8> {
    s.skip(line_step(s) as int)
}

/// The lines of `s`, each without its line feed. A line feed at the very end
/// of `s` starts no further line.
pub open spec fn lines(s: Seq<u8>) -> Seq<Seq<u8>>
    decreases s.len(),
{
    if s.len() == 0 {
        Seq::empty()
    } else {
        seq![first_line(s)] + lines(after_line(s))
    }
}

/// The length of the header block of `s`: its lines up to and including the
/// first blank one, or all of `s` if no line is blank.
pub open spec fn head_len(s: Seq<u8>) -> nat
    decreases s.len(),
{
    if s.len() == 0 {
        0
    } else if is_blank(first_line(s)) {
        line_step(s)
    } else {
        line_step(s) + head_len(after_line(s))
    }
}

/// The header block of `s`.
pub open spec fn head(s: Seq<u8>) -> Seq<u8> {
    s.take(head_len(s) as int)
}

/// The body of `s`: what follows its header block.
pub open spec fn body(s: Seq<u8>) -> Seq<u8> {
    s.skip(head_len(s) as int)
}

/// The second of the tokens that white space separates in `line`; empty if
/// `line` holds fewer than two.
pub open spec fn second_token(line: Seq<u8>) -> Seq<u8> {
    let first = trim_start(line);
    let second = trim_start(first.skip(token_len(first) as int));
    second.take(token_len(second) as int)
}

/// The status code that the line `line` carries, if it carries one.
pub open spec fn line_status(line: Seq<u8>) -> Option<u16> {
    match number_value(second_token(line), 0xffff) {
        Some(v) => Some(v as u16),
        None => None,
    }
}

/// The status code of the response `s`: the one of its first line.
pub open spec fn status_of(s: Seq<u8>) -> Option<u16> {
    line_status(first_line(s))
}

/// Whether `line` is a header named `Content-Length`: it holds a colon, and
/// what stands before the first one is that name in upper or lower case.
pub open spec fn names_length(line: Seq<u8>) -> bool {
    run_len(line, COLON) < line.len() && same_ignoring_case(
        line.take(run_len(line, COLON) as int),
        length_header_name(),
    )
}

/// The value of the header `line`: what stands between its first colon and
/// the next one, or the end of the line, without the white space around it.
/// Empty if `line` holds no colon.
pub open spec fn header_value(line: Seq<u8>) -> Seq<u8> {
    if run_len(line, COLON) < line.len() {
        let rest = line.skip(run_len(line, COLON) as int + 1);
        trimmed(rest.take(run_len(rest, COLON) as int))
    } else {
        Seq::empty()
    }
}

/// The length that the header `line` declares, if its value is a number.
pub open spec fn declared_length(line: Seq<u8>) -> Option<usize> {
    match number_value(header_value(line), usize::MAX as nat) {
        Some(v) => Some(v as usize),
        None => None,
    }
}

/// The first of `ls` that is a header named `Content-Length`.
pub open spec fn length_line(ls: Seq<Seq<u8>>) -> Option<Seq<u8>>
    decreases ls.len(),
{
    if ls.len() == 0 {
        None
    } else if names_length(ls[0]) {
        Some(ls[0])
    } else {
        length_line(ls.drop_first())
    }
}

/// The length that the lines `ls` declare: that of the first header among
/// them that is named `Content-Length`.
pub open spec fn lines_length(ls: Seq<Seq<u8>>) -> Option<usize> {
    match length_line(ls) {
        Some(line) => declared_length(line),
        None => None,
    }
}

/// The length that the response `s` declares for its body.
pub open spec fn content_length_of(s: Seq<u8>) -> Option<usize> {
    lines_length(lines(head(s)))
}

/// What parsing the response `s` gives. A missing status code is reported
/// before a missing length.
pub open spec fn parse(s: Seq<u8>) -> Result<ResponseView, FetchError> {
    match status_of(s) {
        None => Err(FetchError::MalformedStatusLine),
        Some(status) => match content_length_of(s) {
            None => Err(FetchError::MissingContentLength),
            Some(content_length) => Ok(ResponseView { status, content_length, body: body(s) }),
        },
    }
}


/// Whether every byte of `s` is white space.
pub fn blank(s: &[u8]) -> (r: bool)
    ensures
        r == is_blank(s@),
{
    let len: usize = s.len();
    let mut i: usize = 0;
    while i < len
        invariant
            len == s@.len(),
            i <= len,
            forall|j: int| 0 <= j < i ==> is_space(#[trigger] s@[j]),
        decreases len - i,
    {
        if !space(s[i]) {
            return false;
        }
        i += 1;
    }
    true
}

/// The length of the header block of `s`.
pub fn head_length(s: &[u8]) -> (n: usize)
    ensures
        n == head_len(s@),
        n <= s@.len(),
{
    let len: usize = s.len();
    let mut pos: usize = 0;
    let mut found: bool = false;
    assert(s@.skip(0) =~= s@);
    while pos < len && !found
        invariant
            len == s@.len(),
            pos <= len,
            found ==> head_len(s@) == pos,
            !found ==> head_len(s@) == pos + head_len(s@.skip(pos as int)),
        decreases len - pos + if found { 0int } else { 1int },
    {
        let n: usize = run_length(s, pos, LF);
        let line = slice_subrange(s, pos, pos + n);
        let step: usize = if pos + n < len {
            n + 1
        } else {
            n
        };
        proof {
            let rest = s@.skip(pos as int);
            assert(first_line(rest) =~= line@);
            assert(line_step(rest) == step);
            assert(after_line(rest) =~= s@.skip(pos + step));
        }
        found = blank(line);
        pos += step;
    }
    pos
}

/// The status code that `line` carries, if it carries one.
pub fn parse_status(line: &[u8]) -> (r: Option<u16>)
    ensures
        r == line_status(line@),
{
    let len: usize = line.len();
    let a: usize = spaces_length(line, 0);
    let b: usize = token_length(line, a);
    let c: usize = spaces_length(line, a + b);
    let d: usize = token_length(line, a + b + c);
    let token = slice_subrange(line, a + b + c, a + b + c + d);
    proof {
        assert(line@.skip(0) =~= line@);
        let first = trim_start(line@);
        assert(first == line@.skip(a as int));
        assert(first.skip(b as int) =~= line@.skip(a + b));
        let second = trim_start(first.skip(b as int));
        assert(second =~= line@.skip(a + b + c));
        assert(second.take(d as int) =~= token@);
    }
    match parse_number(token, 0xffff) {
        Some(v) => Some(v as u16),
        None => None,
    }
}

/// The name `content-length`.
fn length_header() -> (name: Vec<u8>)
    ensures
        name@ == length_header_name(),
{
    let name: Vec<u8> = vec![
        'c' as u8, 'o' as u8, 'n' as u8, 't' as u8, 'e' as u8, 'n' as u8, 't' as u8, '-' as u8,
        'l' as u8, 'e' as u8, 'n' as u8, 'g' as u8, 't' as u8, 'h' as u8,
    ];
    assert(name@ =~= length_header_name());
    name
}

/// Whether `line` is a header named `Content-Length`.
pub fn is_length_header(line: &[u8]) -> (r: bool)
    ensures
        r == names_length(line@),
{
    assert(line@.skip(0) =~= line@);
    let n: usize = run_length(line, 0, COLON);
    if n >= line.len() {
        return false;
    }
    let name = length_header();
    let found = slice_subrange(line, 0, n);
    assert(found@ =~= line@.take(n as int));
    eq_ignoring_case(found, name.as_slice())
}

/// The length that the header `line` declares, if its value is a number.
pub fn parse_declared_length(line: &[u8]) -> (r: Option<usize>)
    ensures
        r == declared_length(line@),
{
    assert(line@.skip(0) =~= line@);
    let n: usize = run_length(line, 0, COLON);
    if n >= line.len() {
        assert(number_value(Seq::<u8>::empty(), usize::MAX as nat).is_none());
        return None;
    }
    let m: usize = run_length(line, n + 1, COLON);
    let segment = slice_subrange(line, n + 1, n + 1 + m);
    proof {
        let rest = line@.skip(n + 1);
        assert(rest.take(m as int) =~= segment@);
    }
    let value = trim(segment);
    parse_number(value, usize::MAX)
}

/// The length that the lines of `text` declare.
pub fn find_content_length(text: &[u8]) -> (r: Option<usize>)
    ensures
        r == lines_length(lines(text@)),
{
    let len: usize = text.len();
    let mut pos: usize = 0;
    assert(text@.skip(0) =~= text@);
    while pos < len
        invariant
            len == text@.len(),
            pos <= len,
            length_line(lines(text@)) == length_line(lines(text@.skip(pos as int))),
        decreases len - pos,
    {
        let n: usize = run_length(text, pos, LF);
        let line = slice_subrange(text, pos, pos + n);
        let step: usize = if pos + n < len {
            n + 1
        } else {
            n
        };
        proof {
            let rest = text@.skip(pos as int);
            let ls = lines(rest);
            assert(first_line(rest) =~= line@);
            assert(line_step(rest) == step);
            assert(after_line(rest) =~= text@.skip(pos + step));
            assert(ls[0] == line@);
            assert(ls.drop_first() =~= lines(after_line(rest)));
        }
        if is_length_header(line) {
            return parse_declared_length(line);
        }
        pos += step;
    }
    None
}

/// Parses one response: `raw` holds everything that the peer sent, from the
/// status line to the end of the stream.
pub fn parse_response(raw: &[u8]) -> (r: Result<ParsedResponse, FetchError>)
    ensures
        match r {
            Ok(response) => parse(raw@) == Ok::<ResponseView, FetchError>(response@),
            Err(e) => parse(raw@) == Err::<ResponseView, FetchError>(e),
        },
{
    assert(raw@.skip(0) =~= raw@);
    let head_end: usize = head_length(raw);
    let n: usize = run_length(raw, 0, LF);
    let status_line = slice_subrange(raw, 0, n);
    assert(status_line@ =~= first_line(raw@));
    let status: u16 = match parse_status(status_line) {
        Some(status) => status,
        None => {
            return Err(FetchError::MalformedStatusLine);
        },
    };
    let head_text = slice_subrange(raw, 0, head_end);
    assert(head_text@ =~= head(raw@));
    let content_length: usize = match find_content_length(head_text) {
        Some(length) => length,
        None => {
            return Err(FetchError::MissingContentLength);
        },
    };
    let rest = slice_subrange(raw, head_end, raw.len());
    assert(rest@ =~= body(raw@));
    let body = vstd::slice::slice_to_vec(rest);
    Ok(ParsedResponse { status, content_length, body })
}

} // verus!
