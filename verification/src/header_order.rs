//! A response put together from its lines, and the proof that the order of
//! its headers is of no account to the parser.

use vstd::prelude::*;
use crate::ascii::{is_blank, is_space, lemma_run_len_bound, run_len, COLON, LF};
use crate::response::{
    after_line, body, declared_length, first_line, head, head_len, length_line, line_step, lines,
    lines_length, names_length, parse,
};

verus! {

/// `l` can stand as one line: it holds no line feed.
pub open spec fn is_line(l: Seq<u8>) -> bool {
    forall|i: int| 0 <= i < l.len() ==> #[trigger] l[i] != LF
}

/// The text made of the lines `ls`, each ended by a line feed.
pub open spec fn joined(ls: Seq<Seq<u8>>) -> Seq<u8>
    decreases ls.len(),
{
    if ls.len() == 0 {
        Seq::empty()
    } else {
        ls[0] + seq![LF] + joined(ls.drop_first())
    }
}

/// The response made of a status line, header lines, the blank line that
/// ends them, and a body. A carriage return before a line feed belongs to
/// the line.
pub open spec fn response_text(
    status_line: Seq<u8>,
    headers: Seq<Seq<u8>>,
    blank: Seq<u8>,
    payload: Seq<u8>,
) -> Seq<u8> {
    status_line + seq![LF] + joined(headers) + blank + seq![LF] + payload
}

/// The headers `hs` are lines, none of them blank.
pub open spec fn are_headers(hs: Seq<Seq<u8>>) -> bool {
    forall|i: int| 0 <= i < hs.len() ==> is_line(#[trigger] hs[i]) && !is_blank(hs[i])
}

/// The headers among `hs` that are named `Content-Length` all declare the
/// same.
pub open spec fn lengths_agree(hs: Seq<Seq<u8>>) -> bool {
    forall|i: int, j: int|
        0 <= i < hs.len() && 0 <= j < hs.len() && names_length(#[trigger] hs[i]) && names_length(
            #[trigger] hs[j],
        ) ==> declared_length(hs[i]) == declared_length(hs[j])
}

/// In a text that starts with a line and its line feed, the first line is
/// that line and the rest follows it.
pub proof fn lemma_first_line(l: Seq<u8>, rest: Seq<u8>)
    requires
        is_line(l),
    ensures
        run_len(l + seq![LF] + rest, LF) == l.len(),
        first_line(l + seq![LF] + rest) == l,
        line_step(l + seq![LF] + rest) == l.len() + 1,
        after_line(l + seq![LF] + rest) == rest,
    decreases l.len(),
{
    let s = l + seq![LF] + rest;
    if l.len() == 0 {
        assert(s[0] == LF);
    } else {
        assert(s[0] == l[0]);
        let t = l.drop_first();
        assert(is_line(t)) by {
            assert forall|i: int| 0 <= i < t.len() implies #[trigger] t[i] != LF by {
                assert(t[i] == l[i + 1]);
            }
        }
        lemma_first_line(t, rest);
        assert(s.drop_first() =~= t + seq![LF] + rest);
    }
    assert(s.take(l.len() as int) =~= l);
    assert(s.skip(l.len() as int + 1) =~= rest);
}

/// The lines of a text joined from lines are those lines.
pub proof fn lemma_lines_of_joined(ls: Seq<Seq<u8>>)
    requires
        forall|i: int| 0 <= i < ls.len() ==> is_line(#[trigger] ls[i]),
    ensures
        lines(joined(ls)) == ls,
    decreases ls.len(),
{
    if ls.len() > 0 {
        let rest = ls.drop_first();
        assert forall|i: int| 0 <= i < rest.len() implies is_line(#[trigger] rest[i]) by {
            assert(rest[i] == ls[i + 1]);
        }
        lemma_lines_of_joined(rest);
        lemma_first_line(ls[0], joined(rest));
        assert(seq![ls[0]] + rest =~= ls);
    }
}

/// One line joined is the line and its line feed.
pub proof fn lemma_joined_one(l: Seq<u8>)
    ensures
        joined(seq![l]) == l + seq![LF],
{
    let one = seq![l];
    assert(joined(one.drop_first()) =~= Seq::<u8>::empty());
    assert(joined(one) =~= l + seq![LF]);
}

/// The text joined from two runs of lines is the two texts in a row.
pub proof fn lemma_joined_concat(a: Seq<Seq<u8>>, b: Seq<Seq<u8>>)
    ensures
        joined(a + b) == joined(a) + joined(b),
    decreases a.len(),
{
    if a.len() == 0 {
        assert(a + b =~= b);
        assert(joined(a) + joined(b) =~= joined(b));
    } else {
        lemma_joined_concat(a.drop_first(), b);
        assert((a + b).drop_first() =~= a.drop_first() + b);
        assert((a + b)[0] == a[0]);
        assert(joined(a + b) =~= joined(a) + joined(b));
    }
}

/// The header block of a text is no longer than the text.
pub proof fn lemma_head_len_bound(s: Seq<u8>)
    ensures
        head_len(s) <= s.len(),
    decreases s.len(),
{
    if s.len() > 0 {
        lemma_run_len_bound(s, LF);
        if !is_blank(first_line(s)) {
            lemma_head_len_bound(after_line(s));
        }
    }
}

/// Parsing loses no byte: the header block and the body, in a row, are the
/// response.
pub proof fn lemma_head_then_body(s: Seq<u8>)
    ensures
        head(s) + body(s) == s,
{
    lemma_head_len_bound(s);
    assert(head(s) + body(s) =~= s);
}

/// The header block of headers, a blank line and a body ends with the
/// blank line.
pub proof fn lemma_head_of_headers(hs: Seq<Seq<u8>>, blank: Seq<u8>, payload: Seq<u8>)
    requires
        are_headers(hs),
        is_line(blank),
        is_blank(blank),
    ensures
        head(joined(hs) + blank + seq![LF] + payload) == joined(hs) + blank + seq![LF],
        body(joined(hs) + blank + seq![LF] + payload) == payload,
    decreases hs.len(),
{
    let text = joined(hs) + blank + seq![LF] + payload;
    if hs.len() == 0 {
        assert(text =~= blank + seq![LF] + payload);
        lemma_first_line(blank, payload);
        assert(text.take(blank.len() as int + 1) =~= joined(hs) + blank + seq![LF]);
        assert(text.skip(blank.len() as int + 1) =~= payload);
    } else {
        let rest = hs.drop_first();
        assert(are_headers(rest)) by {
            assert forall|i: int| 0 <= i < rest.len() implies is_line(#[trigger] rest[i])
                && !is_blank(rest[i]) by {
                assert(rest[i] == hs[i + 1]);
            }
        }
        let tail = joined(rest) + blank + seq![LF] + payload;
        assert(text =~= hs[0] + seq![LF] + tail);
        lemma_first_line(hs[0], tail);
        lemma_head_of_headers(rest, blank, payload);
        lemma_head_len_bound(tail);
        let n = hs[0].len() + 1;
        assert(head_len(text) == n + head_len(tail));
        assert(text.take((n + head_len(tail)) as int) =~= hs[0] + seq![LF] + tail.take(
            head_len(tail) as int,
        ));
        assert(text.skip((n + head_len(tail)) as int) =~= tail.skip(head_len(tail) as int));
        assert(joined(hs) + blank + seq![LF] =~= hs[0] + seq![LF] + (joined(rest) + blank
            + seq![LF]));
    }
}

/// A blank line is no header: it holds no colon.
pub proof fn lemma_blank_names_nothing(blank: Seq<u8>)
    requires
        is_blank(blank),
    ensures
        !names_length(blank),
{
    lemma_run_len_bound(blank, COLON);
    let n = run_len(blank, COLON);
    if n < blank.len() {
        assert(is_space(blank[n as int]));
    }
}

/// The first header named `Content-Length` among `ls` is one of `ls`; there
/// is none only if no line of `ls` is so named.
pub proof fn lemma_length_line_is_member(ls: Seq<Seq<u8>>)
    ensures
        match length_line(ls) {
            Some(l) => ls.contains(l) && names_length(l),
            None => forall|i: int| 0 <= i < ls.len() ==> !names_length(#[trigger] ls[i]),
        },
    decreases ls.len(),
{
    if ls.len() > 0 {
        if names_length(ls[0]) {
            assert(ls.contains(ls[0]));
        } else {
            let rest = ls.drop_first();
            lemma_length_line_is_member(rest);
            match length_line(rest) {
                Some(l) => {
                    let k = choose|k: int| 0 <= k < rest.len() && rest[k] == l;
                    assert(ls[k + 1] == l);
                },
                None => {
                    assert forall|i: int| 0 <= i < ls.len() implies !names_length(
                        #[trigger] ls[i],
                    ) by {
                        if i > 0 {
                            assert(rest[i - 1] == ls[i]);
                        }
                    }
                },
            }
        }
    }
}

/// Putting lines in front that are no headers named `Content-Length`, or
/// behind, does not change which length is declared.
pub proof fn lemma_length_of_framed(first: Seq<u8>, hs: Seq<Seq<u8>>, last: Seq<u8>)
    requires
        !names_length(last),
    ensures
        lines_length(seq![first] + hs + seq![last]) == if names_length(first) {
            declared_length(first)
        } else {
            lines_length(hs)
        },
{
    let all = seq![first] + hs + seq![last];
    assert(all[0] == first);
    assert(all.drop_first() =~= hs + seq![last]);
    lemma_length_line_behind(hs, last);
}

/// A line behind `hs` that is no header named `Content-Length` does not
/// change which line is found.
pub proof fn lemma_length_line_behind(hs: Seq<Seq<u8>>, last: Seq<u8>)
    requires
        !names_length(last),
    ensures
        length_line(hs + seq![last]) == length_line(hs),
    decreases hs.len(),
{
    let all = hs + seq![last];
    if hs.len() == 0 {
        assert(all[0] == last);
        assert(length_line(all.drop_first()).is_none());
    } else {
        assert(all[0] == hs[0]);
        assert(all.drop_first() =~= hs.drop_first() + seq![last]);
        lemma_length_line_behind(hs.drop_first(), last);
    }
}

/// Headers that agree on the length declare the same in every order.
pub proof fn lemma_length_of_reordered(h1: Seq<Seq<u8>>, h2: Seq<Seq<u8>>)
    requires
        h1.to_multiset() == h2.to_multiset(),
        lengths_agree(h1),
    ensures
        lines_length(h1) == lines_length(h2),
{
    h1.to_multiset_ensures();
    h2.to_multiset_ensures();
    lemma_length_line_is_member(h1);
    lemma_length_line_is_member(h2);
    match length_line(h1) {
        Some(l1) => {
            assert(h2.contains(l1)) by {
                assert(h1.to_multiset().count(l1) > 0);
                assert(h2.to_multiset().count(l1) > 0);
            }
            let k = choose|k: int| 0 <= k < h2.len() && h2[k] == l1;
            assert(names_length(h2[k]));
            let l2 = length_line(h2).unwrap();
            assert(h1.contains(l2)) by {
                assert(h2.to_multiset().count(l2) > 0);
                assert(h1.to_multiset().count(l2) > 0);
            }
            let i = choose|i: int| 0 <= i < h1.len() && h1[i] == l1;
            let j = choose|j: int| 0 <= j < h1.len() && h1[j] == l2;
            assert(names_length(h1[i]) && names_length(h1[j]));
        },
        None => {
            match length_line(h2) {
                Some(l2) => {
                    assert(h1.contains(l2)) by {
                        assert(h2.to_multiset().count(l2) > 0);
                        assert(h1.to_multiset().count(l2) > 0);
                    }
                    let j = choose|j: int| 0 <= j < h1.len() && h1[j] == l2;
                    assert(names_length(h1[j]));
                },
                None => {},
            }
        },
    }
}

/// Parsing does not depend on the order of the headers. Take a response
/// made of a status line, headers, a blank line and a body, in which the
/// headers named `Content-Length` all declare the same. Put the headers in
/// any other order: the parser gives the same status, length and body, or
/// the same error.
pub proof fn lemma_header_order_irrelevant(
    status_line: Seq<u8>,
    h1: Seq<Seq<u8>>,
    h2: Seq<Seq<u8>>,
    blank: Seq<u8>,
    payload: Seq<u8>,
)
    requires
        is_line(status_line),
        !is_blank(status_line),
        are_headers(h1),
        lengths_agree(h1),
        h1.to_multiset() == h2.to_multiset(),
        is_line(blank),
        is_blank(blank),
    ensures
        parse(response_text(status_line, h1, blank, payload)) == parse(
            response_text(status_line, h2, blank, payload),
        ),
{
    assert(are_headers(h2)) by {
        h1.to_multiset_ensures();
        h2.to_multiset_ensures();
        assert forall|i: int| 0 <= i < h2.len() implies is_line(#[trigger] h2[i]) && !is_blank(
            h2[i],
        ) by {
            assert(h2.contains(h2[i]));
            assert(h1.contains(h2[i])) by {
                assert(h2.to_multiset().count(h2[i]) > 0);
                assert(h1.to_multiset().count(h2[i]) > 0);
            }
            let k = choose|k: int| 0 <= k < h1.len() && h1[k] == h2[i];
            assert(is_line(h1[k]));
        }
    }
    lemma_length_of_reordered(h1, h2);
    lemma_parse_of_response(status_line, h1, blank, payload);
    lemma_parse_of_response(status_line, h2, blank, payload);
}

/// What the parser reads in a response made of its lines: the status in the
/// status line, the length among the status line and the headers, and the
/// body behind the blank line.
pub proof fn lemma_parse_of_response(
    status_line: Seq<u8>,
    hs: Seq<Seq<u8>>,
    blank: Seq<u8>,
    payload: Seq<u8>,
)
    requires
        is_line(status_line),
        !is_blank(status_line),
        are_headers(hs),
        is_line(blank),
        is_blank(blank),
    ensures
        first_line(response_text(status_line, hs, blank, payload)) == status_line,
        body(response_text(status_line, hs, blank, payload)) == payload,
        lines(head(response_text(status_line, hs, blank, payload))) == seq![status_line] + hs
            + seq![blank],
        lines_length(lines(head(response_text(status_line, hs, blank, payload)))) == if names_length(
            status_line,
        ) {
            declared_length(status_line)
        } else {
            lines_length(hs)
        },
{
    let text = response_text(status_line, hs, blank, payload);
    let tail = joined(hs) + blank + seq![LF] + payload;
    assert(text =~= status_line + seq![LF] + tail);
    lemma_first_line(status_line, tail);
    lemma_head_of_headers(hs, blank, payload);
    lemma_head_len_bound(tail);
    let n = status_line.len() + 1;
    assert(head_len(text) == n + head_len(tail));
    let block = joined(hs) + blank + seq![LF];
    assert(head(text) =~= status_line + seq![LF] + block) by {
        assert(tail.take(head_len(tail) as int) == block);
        assert(text.take((n + head_len(tail)) as int) =~= status_line + seq![LF] + tail.take(
            head_len(tail) as int,
        ));
    }
    assert(body(text) =~= payload) by {
        assert(text.skip((n + head_len(tail)) as int) =~= tail.skip(head_len(tail) as int));
    }
    let all = seq![status_line] + hs + seq![blank];
    assert(joined(all) =~= status_line + seq![LF] + block) by {
        lemma_joined_concat(seq![status_line] + hs, seq![blank]);
        lemma_joined_concat(seq![status_line], hs);
        lemma_joined_one(blank);
        lemma_joined_one(status_line);
    }
    assert forall|i: int| 0 <= i < all.len() implies is_line(#[trigger] all[i]) by {
        if i == 0 {
        } else if i <= hs.len() {
            assert(all[i] == hs[i - 1]);
        } else {
            assert(all[i] == blank);
        }
    }
    lemma_lines_of_joined(all);
    lemma_blank_names_nothing(blank);
    lemma_length_of_framed(status_line, hs, blank);
}

} // verus!
