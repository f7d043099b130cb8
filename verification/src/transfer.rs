//! The retrieval as a state machine: which request comes next, what each
//! response does to the bytes gathered so far, and when the transfer ends.
//! The caller performs the round trips; every decision is taken here.

use vstd::prelude::*;
use vstd::string::StringSliceAdditionalSpecFns;
use crate::digest::{digest_matches, sha256_of, verify_payload};
use crate::error::FetchError;
use crate::request::{build_request, request_text};
use crate::response::{parse, parse_response, ParsedResponse, ResponseView};

verus! {

/// The highest byte position that a request asks for when nothing else is
/// configured: one mebibyte.
pub const MAX_DATA_SIZE: usize = 1_048_576;

/// Where a transfer stands.
#[derive(Debug, Clone, Copy, PartialEq, Eq, Structural)]
pub enum Phase {
    /// Another round trip is due.
    Fetching,
    /// The last response came in full; the payload can be verified.
    Complete,
    /// The transfer was given up, for the reason held.
    Failed(FetchError),
}

/// What the caller has to do next.
#[derive(Debug, Clone, Copy, PartialEq, Eq, Structural)]
pub enum Action {
    /// Open a connection, ask for the bytes `range_start` to `range_end`
    /// and report what came back.
    Fetch { range_start: usize, range_end: usize },
    /// Verify the payload: the transfer is complete.
    Verify,
    /// Give up and report the error.
    Abort(FetchError),
}

/// What a round trip came to.
#[derive(Debug)]
pub enum Event {
    /// Every byte that the peer sent before the stream ended.
    Response(Vec<u8>),
    /// The connection could not be opened, or a read or write failed.
    TransportFailed,
}

/// The mathematical form of an [`Event`].
pub ghost enum EventView {
    Response(Seq<u8>),
    TransportFailed,
}

impl View for Event {
    type V = EventView;

    open spec fn view(&self) -> EventView {
        match self {
            Event::Response(raw) => EventView::Response(raw@),
            Event::TransportFailed => EventView::TransportFailed,
        }
    }
}

/// The state of one download.
#[derive(Debug)]
pub struct Transfer {
    payload: Vec<u8>,
    declared: Option<usize>,
    phase: Phase,
    ceiling: usize,
}

/// The mathematical form of a [`Transfer`].
pub ghost struct TransferView {
    /// The bytes gathered so far, in the order in which they came.
    pub payload: Seq<u8>,
    /// The length that the latest accepted response declared.
    pub declared: Option<usize>,
    /// Where the transfer stands.
    pub phase: Phase,
    /// The end of every range that is asked for.
    pub ceiling: usize,
}

impl View for Transfer {
    type V = TransferView;

    closed spec fn view(&self) -> TransferView {
        TransferView {
            payload: self.payload@,
            declared: self.declared,
            phase: self.phase,
            ceiling: self.ceiling,
        }
    }
}

/// A transfer before its first round trip.
pub open spec fn initial(ceiling: usize) -> TransferView {
    TransferView { payload: Seq::empty(), declared: None, phase: Phase::Fetching, ceiling }
}

/// Whether a response with this status carries content: 200 for all of it,
/// 206 for a part.
pub open spec fn status_ok(status: u16) -> bool {
    status == 200 || status == 206
}

/// The state `s` after the failure `error`. A transfer that has ended stays
/// as it is.
pub open spec fn failed(s: TransferView, error: FetchError) -> TransferView {
    if s.phase == Phase::Fetching {
        TransferView { phase: Phase::Failed(error), ..s }
    } else {
        s
    }
}

/// The state `s` after the response `r`. A status other than 200 and 206
/// ends the transfer and adds nothing. Otherwise the body is appended, and
/// the transfer is complete if and only if the body is as long as the
/// response declared. A transfer that has ended stays as it is.
pub open spec fn absorbed(s: TransferView, r: ResponseView) -> TransferView {
    if s.phase != Phase::Fetching {
        s
    } else if !status_ok(r.status) {
        TransferView { phase: Phase::Failed(FetchError::UnexpectedStatus(r.status)), ..s }
    } else {
        TransferView {
            payload: s.payload + r.body,
            declared: Some(r.content_length),
            phase: if r.body.len() == r.content_length {
                Phase::Complete
            } else {
                Phase::Fetching
            },
            ceiling: s.ceiling,
        }
    }
}

/// The state `s` after the event `e`.
pub open spec fn next(s: TransferView, e: EventView) -> TransferView {
    match e {
        EventView::TransportFailed => failed(s, FetchError::ConnectionError),
        EventView::Response(raw) => match parse(raw) {
            Ok(r) => absorbed(s, r),
            Err(error) => failed(s, error),
        },
    }
}

/// The state `s` after the events `events`, one after the other.
pub open spec fn run(s: TransferView, events: Seq<EventView>) -> TransferView
    decreases events.len(),
{
    if events.len() == 0 {
        s
    } else {
        run(next(s, events[0]), events.drop_first())
    }
}

/// What is to be done in state `s`: while fetching, ask for everything from
/// the first byte that is missing up to the ceiling.
pub open spec fn action_of(s: TransferView) -> Action {
    match s.phase {
        Phase::Fetching => Action::Fetch {
            range_start: s.payload.len() as usize,
            range_end: s.ceiling,
        },
        Phase::Complete => Action::Verify,
        Phase::Failed(error) => Action::Abort(error),
    }
}

impl Transfer {
    /// A transfer that has received nothing yet. Every request will ask
    /// for the bytes up to `ceiling`.
    pub fn new(ceiling: usize) -> (t: Transfer)
        ensures
            t@ == initial(ceiling),
    {
        Transfer { payload: Vec::new(), declared: None, phase: Phase::Fetching, ceiling }
    }

    /// What the caller has to do next.
    pub fn action(&self) -> (a: Action)
        ensures
            a == action_of(self@),
    {
        match self.phase {
            Phase::Fetching => Action::Fetch {
                range_start: self.payload.len(),
                range_end: self.ceiling,
            },
            Phase::Complete => Action::Verify,
            Phase::Failed(error) => Action::Abort(error),
        }
    }

    /// The request that is due: for everything from the first byte that is
    /// missing up to the ceiling, on `host`. None once the transfer has
    /// ended.
    pub fn next_request(&self, host: &str) -> (r: Option<Vec<u8>>)
        ensures
            match r {
                Some(request) => self@.phase == Phase::Fetching && request@ == request_text(
                    host.spec_bytes(),
                    self@.payload.len(),
                    self@.ceiling as nat,
                ),
                None => self@.phase != Phase::Fetching,
            },
    {
        match self.phase {
            Phase::Fetching => Some(build_request(host, self.payload.len(), self.ceiling)),
            _ => None,
        }
    }

    /// Ends the transfer with `error`, unless it has ended already.
    pub fn fail(&mut self, error: FetchError) -> (a: Action)
        ensures
            final(self)@ == failed(old(self)@, error),
            a == action_of(final(self)@),
    {
        match self.phase {
            Phase::Fetching => {
                self.phase = Phase::Failed(error);
            },
            _ => {},
        }
        self.action()
    }

    /// Takes in one parsed response.
    pub fn absorb(&mut self, response: ParsedResponse) -> (a: Action)
        ensures
            final(self)@ == absorbed(old(self)@, response@),
            a == action_of(final(self)@),
    {
        match self.phase {
            Phase::Fetching => {
                if response.status != 200 && response.status != 206 {
                    self.phase = Phase::Failed(FetchError::UnexpectedStatus(response.status));
                } else {
                    let mut body = response.body;
                    let received: usize = body.len();
                    self.payload.append(&mut body);
                    self.declared = Some(response.content_length);
                    if received == response.content_length {
                        self.phase = Phase::Complete;
                    }
                }
            },
            _ => {},
        }
        self.action()
    }

    /// Takes in what one round trip came to, and says what to do next.
    pub fn step(&mut self, event: Event) -> (a: Action)
        ensures
            final(self)@ == next(old(self)@, event@),
            a == action_of(final(self)@),
    {
        match event {
            Event::TransportFailed => self.fail(FetchError::ConnectionError),
            Event::Response(raw) => match parse_response(raw.as_slice()) {
                Ok(response) => self.absorb(response),
                Err(error) => self.fail(error),
            },
        }
    }

    /// Where the transfer stands.
    pub fn phase(&self) -> (p: Phase)
        ensures
            p == self@.phase,
    {
        self.phase
    }

    /// The bytes gathered so far.
    pub fn payload(&self) -> (bytes: &[u8])
        ensures
            bytes@ == self@.payload,
    {
        self.payload.as_slice()
    }

    /// The number of bytes gathered so far.
    pub fn received(&self) -> (n: usize)
        ensures
            n == self@.payload.len(),
    {
        self.payload.len()
    }

    /// The length that the latest accepted response declared.
    pub fn declared(&self) -> (n: Option<usize>)
        ensures
            n == self@.declared,
    {
        self.declared
    }

    /// The end of every range that is asked for.
    pub fn ceiling(&self) -> (n: usize)
        ensures
            n == self@.ceiling,
    {
        self.ceiling
    }

    /// Whether `expected` is the SHA-256 digest of the bytes gathered so
    /// far, in hexadecimal, in upper or lower case.
    pub fn verify(&self, expected: &str) -> (r: bool)
        ensures
            r == digest_matches(sha256_of(self@.payload), expected.spec_bytes()),
    {
        verify_payload(self.payload.as_slice(), expected)
    }

    /// Hands out the payload of a complete transfer, and nothing of any
    /// other.
    pub fn into_payload(self) -> (r: Option<Vec<u8>>)
        ensures
            match r {
                Some(bytes) => self@.phase == Phase::Complete && bytes@ == self@.payload,
                None => self@.phase != Phase::Complete,
            },
    {
        match self.phase {
            Phase::Complete => Some(self.payload),
            _ => None,
        }
    }
}

} // verus!
