//! What holds of the library as a whole, proved from the definitions that
//! its contracts are written in.

use vstd::prelude::*;
use crate::ascii::{lower, same_ignoring_case, ZERO};
use crate::decimal::{all_digits, decimal, digits_value, is_digit, number_value};
use crate::digest::{digest_matches, hex_digit, hex_lower, sha256_of};
use crate::error::FetchError;
use crate::response::{head, length_line, lines, names_length, parse, status_of, ResponseView};
use crate::transfer::{
    action_of, initial, next, run, status_ok, Action, EventView, Phase, TransferView,
};

verus! {

/// A transfer that has ended takes no notice of further events.
pub proof fn lemma_ended_transfer_stays(s: TransferView, events: Seq<EventView>)
    requires
        s.phase != Phase::Fetching,
    ensures
        run(s, events) == s,
    decreases events.len(),
{
    if events.len() > 0 {
        lemma_ended_transfer_stays(next(s, events[0]), events.drop_first());
    }
}

/// The bytes gathered never shrink and never change: whatever happens,
/// the payload before is the start of the payload after.
pub proof fn lemma_payload_only_grows(s: TransferView, events: Seq<EventView>)
    ensures
        s.payload.is_prefix_of(run(s, events).payload),
    decreases events.len(),
{
    if events.len() > 0 {
        let t = next(s, events[0]);
        lemma_payload_only_grows(t, events.drop_first());
        assert(s.payload.is_prefix_of(t.payload)) by {
            assert(s.payload =~= t.payload.take(s.payload.len() as int));
        }
        let u = run(t, events.drop_first());
        assert(s.payload =~= u.payload.take(s.payload.len() as int)) by {
            assert(t.payload =~= u.payload.take(t.payload.len() as int));
        }
    }
}

/// A response whose status is neither 200 nor 206 ends the transfer with
/// `UnexpectedStatus` and that status; no byte of it is kept, and nothing
/// that follows adds one.
pub proof fn lemma_unexpected_status_ends_transfer(
    s: TransferView,
    raw: Seq<u8>,
    later: Seq<EventView>,
)
    requires
        s.phase == Phase::Fetching,
        parse(raw).is_ok(),
        !status_ok(parse(raw).unwrap().status),
    ensures
        run(next(s, EventView::Response(raw)), later) == (TransferView {
            phase: Phase::Failed(FetchError::UnexpectedStatus(parse(raw).unwrap().status)),
            ..s
        }),
        action_of(run(next(s, EventView::Response(raw)), later)) == Action::Abort(
            FetchError::UnexpectedStatus(parse(raw).unwrap().status),
        ),
{
    lemma_ended_transfer_stays(next(s, EventView::Response(raw)), later);
}

/// The bodies of `rs`, one after the other.
pub open spec fn bodies(rs: Seq<ResponseView>) -> Seq<u8>
    decreases rs.len(),
{
    if rs.len() == 0 {
        Seq::empty()
    } else {
        bodies(rs.drop_last()) + rs.last().body
    }
}

/// The sum of the lengths of the bodies of `rs`.
pub open spec fn total_length(rs: Seq<ResponseView>) -> nat
    decreases rs.len(),
{
    if rs.len() == 0 {
        0
    } else {
        total_length(rs.drop_last()) + rs.last().body.len()
    }
}

/// The events in which the responses `raws` come in, one per round trip.
pub open spec fn responses(raws: Seq<Seq<u8>>) -> Seq<EventView> {
    Seq::new(raws.len(), |i: int| EventView::Response(raws[i]))
}

/// `raw` parses to a response with status 200 or 206.
pub open spec fn carries_content(raw: Seq<u8>) -> bool {
    parse(raw).is_ok() && status_ok(parse(raw).unwrap().status)
}

/// `raw` parses to a response whose body is as long as it declares.
pub open spec fn is_full(raw: Seq<u8>) -> bool {
    parse(raw).is_ok() && parse(raw).unwrap().body.len() == parse(raw).unwrap().content_length
}

/// The parsed forms of `raws`.
pub open spec fn parsed(raws: Seq<Seq<u8>>) -> Seq<ResponseView> {
    Seq::new(raws.len(), |i: int| parse(raws[i]).unwrap())
}

/// Rounds of which none but the last may be full leave the transfer with
/// the bodies of all of them, in order, behind what it held before: as many
/// bytes as the bodies have together. The transfer is then complete if the
/// last round was full, and asks for the next byte if it was not.
pub proof fn lemma_rounds_accumulate(s: TransferView, raws: Seq<Seq<u8>>)
    requires
        s.phase == Phase::Fetching,
        raws.len() > 0,
        forall|i: int| 0 <= i < raws.len() ==> carries_content(#[trigger] raws[i]),
        forall|i: int| 0 <= i < raws.len() - 1 ==> !is_full(#[trigger] raws[i]),
    ensures
        run(s, responses(raws)).payload == s.payload + bodies(parsed(raws)),
        run(s, responses(raws)).payload.len() == s.payload.len() + total_length(parsed(raws)),
        run(s, responses(raws)).phase == if is_full(raws.last()) {
            Phase::Complete
        } else {
            Phase::Fetching
        },
        run(s, responses(raws)).declared == Some(parse(raws.last()).unwrap().content_length),
        run(s, responses(raws)).ceiling == s.ceiling,
    decreases raws.len(),
{
    let events = responses(raws);
    let rs = parsed(raws);
    lemma_run_last(s, events);
    assert(events.last() == EventView::Response(raws.last()));
    assert(events.drop_last() =~= responses(raws.drop_last()));
    assert(rs.drop_last() =~= parsed(raws.drop_last()));
    assert(rs.last() == parse(raws.last()).unwrap());
    if raws.len() == 1 {
        assert(events.drop_last().len() == 0);
        assert(bodies(rs.drop_last()) =~= Seq::<u8>::empty());
        assert(s.payload + rs.last().body =~= s.payload + bodies(rs));
    } else {
        let front = raws.drop_last();
        assert forall|i: int| 0 <= i < front.len() implies carries_content(
            #[trigger] front[i],
        ) by {
            assert(front[i] == raws[i]);
        }
        assert forall|i: int| 0 <= i < front.len() - 1 implies !is_full(#[trigger] front[i]) by {
            assert(front[i] == raws[i]);
        }
        assert(!is_full(front.last())) by {
            assert(front.last() == raws[raws.len() - 2]);
        }
        lemma_rounds_accumulate(s, front);
        let before = run(s, responses(front));
        assert(before.payload + rs.last().body =~= s.payload + bodies(rs));
    }
}

/// Running a sequence of events is running all but the last, then the
/// last.
pub proof fn lemma_run_last(s: TransferView, events: Seq<EventView>)
    requires
        events.len() > 0,
    ensures
        run(s, events) == next(run(s, events.drop_last()), events.last()),
    decreases events.len(),
{
    if events.len() == 1 {
        assert(events.drop_last() =~= events.drop_first());
        assert(run(s, events.drop_last()) == s);
        assert(run(next(s, events[0]), events.drop_first()) == next(s, events[0]));
    } else {
        let rest = events.drop_first();
        lemma_run_last(next(s, events[0]), rest);
        assert(rest.drop_last() =~= events.drop_last().drop_first());
        assert(rest.last() == events.last());
        assert(events.drop_last()[0] == events[0]);
    }
}

/// A transfer whose rounds all carry content, and of which the last is the
/// only full one, ends complete with exactly the bytes of all the bodies:
/// as many as their lengths sum to. What the caller has to do then is to
/// verify, and no later event changes that.
pub proof fn lemma_transfer_completes(
    ceiling: usize,
    raws: Seq<Seq<u8>>,
    later: Seq<EventView>,
)
    requires
        raws.len() > 0,
        forall|i: int| 0 <= i < raws.len() ==> carries_content(#[trigger] raws[i]),
        forall|i: int| 0 <= i < raws.len() - 1 ==> !is_full(#[trigger] raws[i]),
        is_full(raws.last()),
    ensures
        run(initial(ceiling), responses(raws)).phase == Phase::Complete,
        run(initial(ceiling), responses(raws)).payload == bodies(parsed(raws)),
        run(initial(ceiling), responses(raws)).payload.len() == total_length(parsed(raws)),
        action_of(run(initial(ceiling), responses(raws))) == Action::Verify,
        run(run(initial(ceiling), responses(raws)), later) == run(
            initial(ceiling),
            responses(raws),
        ),
{
    lemma_rounds_accumulate(initial(ceiling), raws);
    assert(initial(ceiling).payload + bodies(parsed(raws)) =~= bodies(parsed(raws)));
    lemma_ended_transfer_stays(run(initial(ceiling), responses(raws)), later);
}

/// A full round ends the transfer at once, whatever came before it: the
/// next action is to verify, never to fetch.
pub proof fn lemma_full_round_completes(s: TransferView, raw: Seq<u8>)
    requires
        s.phase == Phase::Fetching,
        carries_content(raw),
        is_full(raw),
    ensures
        next(s, EventView::Response(raw)).phase == Phase::Complete,
        action_of(next(s, EventView::Response(raw))) == Action::Verify,
        next(s, EventView::Response(raw)).payload == s.payload + parse(raw).unwrap().body,
{
}

/// Lines of which none is a header named `Content-Length` declare no
/// length.
pub proof fn lemma_no_length_line(ls: Seq<Seq<u8>>)
    requires
        forall|i: int| 0 <= i < ls.len() ==> !names_length(#[trigger] ls[i]),
    ensures
        length_line(ls).is_none(),
    decreases ls.len(),
{
    if ls.len() > 0 {
        let rest = ls.drop_first();
        assert forall|i: int| 0 <= i < rest.len() implies !names_length(#[trigger] rest[i]) by {
            assert(rest[i] == ls[i + 1]);
        }
        lemma_no_length_line(rest);
    }
}

/// A response with a status code and no header named `Content-Length` is
/// rejected with `MissingContentLength`; a transfer that receives it fails
/// with that error and keeps no byte of it.
pub proof fn lemma_missing_length_rejected(s: TransferView, raw: Seq<u8>)
    requires
        status_of(raw).is_some(),
        forall|i: int|
            0 <= i < lines(head(raw)).len() ==> !names_length(#[trigger] lines(head(raw))[i]),
    ensures
        parse(raw) == Err::<ResponseView, FetchError>(FetchError::MissingContentLength),
        s.phase == Phase::Fetching ==> next(s, EventView::Response(raw)) == (TransferView {
            phase: Phase::Failed(FetchError::MissingContentLength),
            ..s
        }),
        next(s, EventView::Response(raw)).payload == s.payload,
{
    lemma_no_length_line(lines(head(raw)));
}


/// The digest text is a function of the payload: equal payloads have equal
/// digest texts, however often they are computed.
pub proof fn lemma_digest_text_deterministic(a: Seq<u8>, b: Seq<u8>)
    requires
        a == b,
    ensures
        hex_lower(sha256_of(a)) == hex_lower(sha256_of(b)),
{
}

/// Different byte strings have different hexadecimal forms.
pub proof fn lemma_hex_injective(a: Seq<u8>, b: Seq<u8>)
    requires
        hex_lower(a) == hex_lower(b),
    ensures
        a == b,
{
    assert(a.len() == b.len()) by {
        assert(hex_lower(a).len() == 2 * a.len());
        assert(hex_lower(b).len() == 2 * b.len());
    }
    assert forall|i: int| 0 <= i < a.len() implies a[i] == b[i] by {
        let x = a[i];
        let y = b[i];
        assert(hex_lower(a)[2 * i] == hex_digit(x / 16));
        assert(hex_lower(b)[2 * i] == hex_digit(y / 16));
        assert(hex_lower(a)[2 * i + 1] == hex_digit(x % 16));
        assert(hex_lower(b)[2 * i + 1] == hex_digit(y % 16));
        assert(x / 16 < 16 && y / 16 < 16 && x % 16 < 16 && y % 16 < 16);
        assert(x / 16 == y / 16);
        assert(x % 16 == y % 16);
    }
    assert(a =~= b);
}

/// The expected text matches exactly one digest: a digest written in
/// hexadecimal matches itself and no other.
pub proof fn lemma_digest_matches_itself_only(digest: Seq<u8>, other: Seq<u8>)
    ensures
        digest_matches(digest, hex_lower(other)) <==> digest == other,
{
    let d = hex_lower(digest);
    let o = hex_lower(other);
    assert forall|i: int| 0 <= i < o.len() implies lower(#[trigger] o[i]) == o[i] by {
        let x = other[i / 2];
        assert(x / 16 < 16 && x % 16 < 16);
    }
    assert forall|i: int| 0 <= i < d.len() implies lower(#[trigger] d[i]) == d[i] by {
        let x = digest[i / 2];
        assert(x / 16 < 16 && x % 16 < 16);
    }
    if digest_matches(digest, o) {
        assert(o =~= d);
        lemma_hex_injective(other, digest);
    }
}

/// The case of the letters in the expected text is of no account.
pub proof fn lemma_digest_match_ignores_case(
    digest: Seq<u8>,
    expected: Seq<u8>,
    respelled: Seq<u8>,
)
    requires
        same_ignoring_case(expected, respelled),
    ensures
        digest_matches(digest, expected) == digest_matches(digest, respelled),
{
    let text = hex_lower(digest);
    if digest_matches(digest, expected) {
        assert forall|i: int| 0 <= i < respelled.len() implies lower(#[trigger] respelled[i])
            == lower(text[i]) by {
            assert(lower(expected[i]) == lower(respelled[i]));
            assert(lower(expected[i]) == lower(text[i]));
        }
    }
    if digest_matches(digest, respelled) {
        assert forall|i: int| 0 <= i < expected.len() implies lower(#[trigger] expected[i])
            == lower(text[i]) by {
            assert(lower(expected[i]) == lower(respelled[i]));
            assert(lower(respelled[i]) == lower(text[i]));
        }
    }
}


/// A number that is written and read again is the same number: the text
/// that `decimal` gives for `n` is all digits and denotes `n`, so it reads
/// as `n` under every limit that `n` respects.
pub proof fn lemma_decimal_reads_back(n: nat, limit: nat)
    requires
        n <= limit,
    ensures
        decimal(n).len() > 0,
        all_digits(decimal(n)),
        digits_value(decimal(n)) == n,
        number_value(decimal(n), limit) == Some(n),
    decreases n,
{
    let text = decimal(n);
    if n < 10 {
        assert(text.drop_last().len() == 0);
        assert(digits_value(text.drop_last()) == 0);
        assert(text.last() == (ZERO + n) as u8);
    } else {
        lemma_decimal_reads_back(n / 10, limit);
        let front = decimal(n / 10);
        assert(text.drop_last() =~= front);
        assert(text.last() == (ZERO + n % 10) as u8);
        assert forall|i: int| 0 <= i < text.len() implies is_digit(#[trigger] text[i]) by {
            if i < front.len() {
                assert(text[i] == front[i]);
            }
        }
    }
    assert(is_digit(text[0]));
}

} // verus!
