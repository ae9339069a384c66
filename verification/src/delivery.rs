//! What a receiver hands on, over any number of calls, is what was sent to it.

use vstd::prelude::*;

use crate::crypto::ED25519_SIGNATURE_LEN;
use crate::hdlc;
use crate::hdlc::FrameError;
use crate::keys;
use crate::packet;
use crate::packet::PacketError;
use crate::transport;
use crate::transport::{ReadOutcome, Receiving, TransportFault};

verus! {

/// What happens at the application's side of the receiving direction.
pub enum ReadEvent {
    /// A payload is accepted.
    Accepted(Seq<u8>),
    /// The application asks for up to so many bytes.
    Read(nat),
}

/// What was handed on in the course of `events`, starting from nothing, and what is unread behind
/// them. There is no answer if a payload was accepted while something was unread.
pub open spec fn read_over(events: Seq<ReadEvent>) -> Option<(Seq<u8>, Seq<u8>)>
    decreases events.len(),
{
    if events.len() == 0 {
        Some((Seq::empty(), Seq::empty()))
    } else {
        match read_over(events.drop_last()) {
            None => None,
            Some((handed, unread)) => match events.last() {
                ReadEvent::Accepted(data) => if unread.len() == 0 {
                    Some((handed, data))
                } else {
                    None
                },
                ReadEvent::Read(max) => {
                    let n = transport::handed_on(unread.len(), max) as int;
                    Some((handed + unread.take(n), unread.skip(n)))
                },
            },
        }
    }
}

/// The payloads that were accepted in the course of `events`, one behind the other.
pub open spec fn accepted_over(events: Seq<ReadEvent>) -> Seq<u8>
    decreases events.len(),
{
    if events.len() == 0 {
        Seq::empty()
    } else {
        match events.last() {
            ReadEvent::Accepted(data) => accepted_over(events.drop_last()) + data,
            ReadEvent::Read(_) => accepted_over(events.drop_last()),
        }
    }
}

/// What reads have handed on, followed by what is unread, is the accepted payloads one behind the
/// other: no byte is lost, repeated or reordered, whatever the sizes of the reads.
pub proof fn law_reads_hand_on_the_accepted_payloads(events: Seq<ReadEvent>)
    requires
        read_over(events) is Some,
    ensures
        ({
            let (handed, unread) = read_over(events)->Some_0;
            handed + unread == accepted_over(events)
        }),
    decreases events.len(),
{
    let (handed, unread) = read_over(events)->Some_0;
    if events.len() > 0 {
        law_reads_hand_on_the_accepted_payloads(events.drop_last());
    }
    assert(handed + unread =~= accepted_over(events));
}

/// The payloads that a receiver accepts out of `frames`, one behind the other, and how many it has
/// accepted in the end. It has accepted `count` before, of a peer with the key `key`; a frame that
/// it does not accept is passed over.
pub open spec fn accepted_from(key: Seq<u8>, count: nat, frames: Seq<Seq<u8>>) -> (Seq<u8>, nat)
    decreases frames.len(),
{
    if frames.len() == 0 {
        (Seq::empty(), count)
    } else {
        match transport::payload_in_frame(frames.first(), key, count) {
            Ok(data) => {
                let (rest, last) = accepted_from(key, count + 1, frames.drop_first());
                (data + rest, last)
            },
            Err(_) => accepted_from(key, count, frames.drop_first()),
        }
    }
}

/// One request for payload bytes: how many there is room for, the bytes that the stream has
/// brought, and whether it has ended behind them.
pub struct ReadCall {
    pub max: nat,
    pub input: Seq<u8>,
    pub ended: bool,
}

/// The bytes that an outcome hands on.
pub open spec fn handed_by(outcome: ReadOutcome) -> Seq<u8> {
    match outcome {
        ReadOutcome::Ready(data) => data,
        _ => Seq::empty(),
    }
}

/// What a sequence of requests comes to: how the receiving direction stands behind them, all that
/// was handed on, and all bytes of the stream that were used.
pub open spec fn polled_over(key: Seq<u8>, start: Receiving, calls: Seq<ReadCall>) -> (
    Receiving,
    Seq<u8>,
    Seq<u8>,
)
    decreases calls.len(),
{
    if calls.len() == 0 {
        (start, Seq::empty(), Seq::empty())
    } else {
        let (state, handed, used) = polled_over(key, start, calls.drop_last());
        let call = calls.last();
        let (next, outcome, n) = transport::polled(key, state, call.max, call.input, call.ended);
        (next, handed + handed_by(outcome), used + call.input.take(n as int))
    }
}

/// Payloads are accepted out of two runs of frames as out of both together.
proof fn lemma_accepted_from_concat(
    key: Seq<u8>,
    count: nat,
    first: Seq<Seq<u8>>,
    second: Seq<Seq<u8>>,
)
    ensures
        ({
            let (a, middle) = accepted_from(key, count, first);
            let (b, last) = accepted_from(key, middle, second);
            accepted_from(key, count, first + second) == (a + b, last)
        }),
    decreases first.len(),
{
    let (a, middle) = accepted_from(key, count, first);
    let (b, last) = accepted_from(key, middle, second);
    if first.len() == 0 {
        assert(first + second =~= second);
        assert(a + b =~= b);
    } else {
        assert((first + second).drop_first() =~= first.drop_first() + second);
        match transport::payload_in_frame(first.first(), key, count) {
            Ok(data) => {
                lemma_accepted_from_concat(key, count + 1, first.drop_first(), second);
                let (rest, _) = accepted_from(key, count + 1, first.drop_first());
                assert(data + (rest + b) =~= a + b);
            },
            Err(_) => {
                lemma_accepted_from_concat(key, count, first.drop_first(), second);
            },
        }
    }
}

/// One request hands on, and leaves unread, what was unread before and what it accepts out of the
/// bytes that it uses.
proof fn lemma_polled(key: Seq<u8>, state: Receiving, max: nat, input: Seq<u8>, ended: bool)
    ensures
        ({
            let (next, outcome, n) = transport::polled(key, state, max, input, ended);
            let used = input.take(n as int);
            let (accepted, count) = accepted_from(
                key,
                state.count,
                hdlc::frames_in(state.open, used),
            );
            &&& n <= input.len()
            &&& next.open == hdlc::open_after(state.open, used)
            &&& next.count == count
            &&& handed_by(outcome) + next.unread == state.unread + accepted
        }),
    decreases input.len(),
{
    let (next, outcome, n) = transport::polled(key, state, max, input, ended);
    let used = input.take(n as int);
    let frames = hdlc::frames_in(state.open, used);
    let accepted = accepted_from(key, state.count, frames).0;
    if max > 0 && state.unread.len() == 0 && input.len() > 0 {
        let (step, fault) = transport::byte_received(key, state, input.first());
        let rest = input.drop_first();
        let (_, frame) = hdlc::read_byte(state.open, input.first());
        if fault is None {
            lemma_polled(key, step, max, rest, ended);
        }
        let more = if fault is None {
            transport::polled(key, step, max, rest, ended).2
        } else {
            0
        };
        let tail = rest.take(more as int);
        let later = hdlc::frames_in(step.open, tail);
        assert(n == more + 1);
        assert(used.first() == input.first());
        assert(used.drop_first() =~= tail);
        if fault is Some {
            assert(tail =~= Seq::empty());
            assert(hdlc::open_after(step.open, tail) == step.open);
        }
        assert(next.open == hdlc::open_after(state.open, used));
        match frame {
            None => {
                assert(frames == later);
                assert(step.unread == state.unread && step.count == state.count);
            },
            Some(f) => {
                assert(frames == seq![f] + later);
                assert(frames.first() == f);
                assert(frames.drop_first() =~= later);
                match transport::payload_in_frame(f, key, state.count) {
                    Ok(data) => {
                        let remaining = accepted_from(key, state.count + 1, later).0;
                        assert(accepted == data + remaining);
                        assert(state.unread + (data + remaining) =~= data + remaining);
                    },
                    Err(_) => {
                        assert(later =~= Seq::empty());
                        assert(accepted_from(key, state.count, later) == (
                            Seq::<u8>::empty(),
                            state.count,
                        ));
                        assert(Seq::empty() + state.unread =~= state.unread + accepted);
                    },
                }
            },
        }
    } else {
        assert(used =~= Seq::empty());
        assert(handed_by(outcome) + next.unread =~= state.unread + accepted);
    }
}

/// What two requests hand on one behind the other, and what is unread behind them.
proof fn lemma_handed_in_turn(
    first: Seq<u8>,
    second: Seq<u8>,
    start: Seq<u8>,
    middle: Seq<u8>,
    last: Seq<u8>,
    a: Seq<u8>,
    b: Seq<u8>,
)
    requires
        first + middle == start + a,
        second + last == middle + b,
    ensures
        (first + second) + last == start + (a + b),
        (first + second).is_prefix_of(start + (a + b)),
{
    assert((first + second) + last =~= first + (second + last));
    assert(first + (middle + b) =~= (first + middle) + b);
    assert((start + a) + b =~= start + (a + b));
    let all = (first + second) + last;
    assert(first + second =~= all.take((first + second).len() as int));
}

/// Over any sequence of requests, with room for any number of bytes each and whatever the stream
/// brings in between, what was handed on so far, followed by what is unread, is what was unread at
/// first and then the payloads accepted out of the stream, one behind the other. So what was
/// handed on is a prefix of that: no byte is lost, repeated or reordered.
pub proof fn law_requests_hand_on_the_accepted_payloads(
    key: Seq<u8>,
    start: Receiving,
    calls: Seq<ReadCall>,
)
    ensures
        ({
            let (state, handed, used) = polled_over(key, start, calls);
            let (accepted, count) = accepted_from(
                key,
                start.count,
                hdlc::frames_in(start.open, used),
            );
            &&& handed + state.unread == start.unread + accepted
            &&& handed.is_prefix_of(start.unread + accepted)
            &&& state.count == count
            &&& state.open == hdlc::open_after(start.open, used)
        }),
    decreases calls.len(),
{
    let (state, handed, used) = polled_over(key, start, calls);
    let accepted = accepted_from(key, start.count, hdlc::frames_in(start.open, used)).0;
    if calls.len() > 0 {
        let before = calls.drop_last();
        let call = calls.last();
        law_requests_hand_on_the_accepted_payloads(key, start, before);
        let (middle, handed_before, used_before) = polled_over(key, start, before);
        let (_, outcome, n) = transport::polled(key, middle, call.max, call.input, call.ended);
        let now = call.input.take(n as int);
        lemma_polled(key, middle, call.max, call.input, call.ended);
        hdlc::law_stream_can_be_read_in_pieces(start.open, used_before, now);
        let first = hdlc::frames_in(start.open, used_before);
        let second = hdlc::frames_in(middle.open, now);
        lemma_accepted_from_concat(key, start.count, first, second);
        let a = accepted_from(key, start.count, first).0;
        let b = accepted_from(key, middle.count, second).0;
        lemma_handed_in_turn(
            handed_before,
            handed_by(outcome),
            start.unread,
            middle.unread,
            state.unread,
            a,
            b,
        );
    } else {
        assert(handed + state.unread =~= start.unread + accepted);
    }
}

/// A request for at least one byte that succeeds without handing any on comes only at the end of
/// the stream, between frames and with nothing unread.
pub proof fn law_empty_read_means_the_end(
    key: Seq<u8>,
    state: Receiving,
    max: nat,
    input: Seq<u8>,
    ended: bool,
)
    requires
        max > 0,
        transport::polled(key, state, max, input, ended).1 == ReadOutcome::Ready(Seq::empty()),
    ensures
        ended,
        transport::polled(key, state, max, input, ended).2 == input.len(),
        transport::polled(key, state, max, input, ended).0.open is None,
        transport::polled(key, state, max, input, ended).0.unread.len() == 0,
    decreases input.len(),
{
    if state.unread.len() > 0 {
        let n = transport::handed_on(state.unread.len(), max) as int;
        assert(state.unread.take(n).len() > 0);
    } else if input.len() > 0 {
        let (next, fault) = transport::byte_received(key, state, input.first());
        law_empty_read_means_the_end(key, next, max, input.drop_first(), ended);
    }
}

/// A request without room for a byte succeeds, uses nothing and changes nothing.
pub proof fn law_read_without_room_uses_nothing(
    key: Seq<u8>,
    state: Receiving,
    input: Seq<u8>,
    ended: bool,
)
    ensures
        transport::polled(key, state, 0, input, ended) == (
            state,
            ReadOutcome::Ready(Seq::empty()),
            0nat,
        ),
{
}

/// The messages of signed payloads, one behind the other.
pub open spec fn messages(sent: Seq<Seq<u8>>) -> Seq<u8>
    decreases sent.len(),
{
    if sent.len() == 0 {
        Seq::empty()
    } else {
        sent.first().skip(ED25519_SIGNATURE_LEN as int) + messages(sent.drop_first())
    }
}

/// The messages of payloads that were signed in order are accepted out of their frames.
proof fn lemma_accepted_from_sent(key: Seq<u8>, count: nat, sent: Seq<Seq<u8>>)
    requires
        forall|i: int|
            0 <= i < sent.len() ==> #[trigger] keys::packet_accepted(
                key,
                (count + i) as nat,
                sent[i],
            ),
    ensures
        accepted_from(
            key,
            count,
            Seq::new(sent.len(), |i: int| transport::payload_frame(sent[i])),
        ) == (messages(sent), count + sent.len()),
    decreases sent.len(),
{
    let frames = Seq::new(sent.len(), |i: int| transport::payload_frame(sent[i]));
    if sent.len() > 0 {
        let rest = sent.drop_first();
        assert(keys::packet_accepted(key, (count + 0) as nat, sent[0]));
        transport::law_payload_comes_out_of_its_frame(sent[0], key, count);
        assert forall|i: int| 0 <= i < rest.len() implies #[trigger] keys::packet_accepted(
            key,
            ((count + 1) as nat + i) as nat,
            rest[i],
        ) by {
            assert(keys::packet_accepted(key, (count + (i + 1)) as nat, sent[i + 1]));
        }
        lemma_accepted_from_sent(key, count + 1, rest);
        assert(frames.drop_first() =~= Seq::new(
            rest.len(),
            |i: int| transport::payload_frame(rest[i]),
        ));
    }
}

/// Whatever the sizes of the requests, an application whose stream has brought the frames of
/// payloads that were signed in order has been handed their messages in order, but for what is
/// still unread.
pub proof fn law_application_gets_what_was_sent(
    key: Seq<u8>,
    start: Receiving,
    calls: Seq<ReadCall>,
    sent: Seq<Seq<u8>>,
)
    requires
        start.open is None,
        forall|i: int|
            0 <= i < sent.len() ==> #[trigger] keys::packet_accepted(
                key,
                (start.count + i) as nat,
                sent[i],
            ),
        polled_over(key, start, calls).2 == transport::payload_stream(sent),
    ensures
        ({
            let (state, handed, _) = polled_over(key, start, calls);
            &&& handed + state.unread == start.unread + messages(sent)
            &&& state.count == start.count + sent.len()
        }),
{
    law_requests_hand_on_the_accepted_payloads(key, start, calls);
    transport::law_payloads_are_delivered_in_order(key, start.count, sent);
    lemma_accepted_from_sent(key, start.count, sent);
}

/// The bytes before the first frame is complete only lead up to it: a request goes on behind them
/// as if it started there.
proof fn lemma_before_the_first_frame(
    key: Seq<u8>,
    state: Receiving,
    max: nat,
    input: Seq<u8>,
    ended: bool,
    k: int,
)
    requires
        max > 0,
        state.unread.len() == 0,
        0 <= k <= input.len(),
        hdlc::frames_in(state.open, input.take(k)).len() == 0,
    ensures
        ({
            let middle = Receiving {
                open: hdlc::open_after(state.open, input.take(k)),
                count: state.count,
                unread: state.unread,
            };
            let (next, outcome, n) = transport::polled(key, middle, max, input.skip(k), ended);
            transport::polled(key, state, max, input, ended) == (next, outcome, (n + k) as nat)
        }),
    decreases k,
{
    if k == 0 {
        assert(input.skip(0) =~= input);
        assert(input.take(0) =~= Seq::empty());
        assert(hdlc::open_after(state.open, input.take(0)) == state.open);
    } else {
        let head = input.take(k);
        let rest = input.drop_first();
        let (open, frame) = hdlc::read_byte(state.open, input.first());
        assert(head.first() == input.first());
        assert(head.drop_first() =~= rest.take(k - 1));
        assert(frame is None);
        let step = Receiving { open, count: state.count, unread: state.unread };
        assert(transport::byte_received(key, state, input.first()) == (
            step,
            None::<TransportFault>,
        ));
        lemma_before_the_first_frame(key, step, max, rest, ended, k - 1);
        assert(rest.skip(k - 1) =~= input.skip(k));
    }
}

/// Of the bytes up to the end of the first frame, the last one completes it.
proof fn lemma_first_frame_ends(
    open: Option<Seq<u8>>,
    input: Seq<u8>,
    k: int,
    frame: Seq<u8>,
)
    requires
        0 < k <= input.len(),
        hdlc::frames_in(open, input.take(k - 1)).len() == 0,
        hdlc::frames_in(open, input.take(k)) == seq![frame],
    ensures
        hdlc::read_byte(hdlc::open_after(open, input.take(k - 1)), input[k - 1]) == (
            hdlc::open_after(open, input.take(k)),
            Some(frame),
        ),
{
    let before = input.take(k - 1);
    let last = seq![input[k - 1]];
    assert(input.take(k) =~= before + last);
    hdlc::law_stream_can_be_read_in_pieces(open, before, last);
    let middle = hdlc::open_after(open, before);
    let (after, found) = hdlc::read_byte(middle, input[k - 1]);
    assert(last.drop_first() =~= Seq::empty());
    assert(hdlc::open_after(after, last.drop_first()) == after);
    assert(hdlc::open_after(middle, last) == after);
    assert(hdlc::frames_in(after, last.drop_first()) =~= Seq::empty());
    assert(hdlc::frames_in(open, before) + hdlc::frames_in(middle, last) =~= hdlc::frames_in(
        middle,
        last,
    ));
    match found {
        Some(f) => {
            assert(hdlc::frames_in(middle, last) =~= seq![f]);
            assert(seq![f][0] == seq![frame][0]);
        },
        None => {
            assert(hdlc::frames_in(middle, last).len() == 0);
            assert(seq![frame].len() == 1);
        },
    }
}

/// A request never passes over a refused frame. Where there is room for a byte and nothing is
/// unread, and the first frame that the stream completes is refused, the request fails with what
/// is wrong with that frame; exactly the bytes up to the end of the frame are used, and nothing
/// counts as accepted.
pub proof fn law_refused_frame_fails_the_request(
    key: Seq<u8>,
    state: Receiving,
    max: nat,
    input: Seq<u8>,
    ended: bool,
    k: int,
    frame: Seq<u8>,
    fault: TransportFault,
)
    requires
        max > 0,
        state.unread.len() == 0,
        0 < k <= input.len(),
        hdlc::frames_in(state.open, input.take(k - 1)).len() == 0,
        hdlc::frames_in(state.open, input.take(k)) == seq![frame],
        transport::payload_in_frame(frame, key, state.count) == Err::<Seq<u8>, TransportFault>(
            fault,
        ),
    ensures
        ({
            let (next, outcome, n) = transport::polled(key, state, max, input, ended);
            &&& outcome == ReadOutcome::Failed(fault)
            &&& n == k
            &&& next.count == state.count
            &&& next.unread == state.unread
            &&& next.open == hdlc::open_after(state.open, input.take(k))
        }),
{
    lemma_before_the_first_frame(key, state, max, input, ended, k - 1);
    lemma_first_frame_ends(state.open, input, k, frame);
    assert(input.skip(k - 1).first() == input[k - 1]);
}

/// An accepted frame ends the search: where there is room for a byte and nothing is unread, and
/// the first frame that the stream completes carries a payload, the request hands on as much of
/// that payload as there is room for, and the rest stays unread. A payload without bytes is
/// counted, and the search goes on behind its frame.
pub proof fn law_accepted_frame_answers_the_request(
    key: Seq<u8>,
    state: Receiving,
    max: nat,
    input: Seq<u8>,
    ended: bool,
    k: int,
    frame: Seq<u8>,
    data: Seq<u8>,
)
    requires
        max > 0,
        state.unread.len() == 0,
        0 < k <= input.len(),
        hdlc::frames_in(state.open, input.take(k - 1)).len() == 0,
        hdlc::frames_in(state.open, input.take(k)) == seq![frame],
        transport::payload_in_frame(frame, key, state.count) == Ok::<Seq<u8>, TransportFault>(data),
    ensures
        ({
            let (next, outcome, n) = transport::polled(key, state, max, input, ended);
            let open = hdlc::open_after(state.open, input.take(k));
            &&& data.len() > 0 ==> {
                &&& n == k
                &&& next.count == state.count + 1
                &&& next.open == open
                &&& data.len() <= max ==> outcome == ReadOutcome::Ready(data) && next.unread
                    == Seq::<u8>::empty()
                &&& data.len() > max ==> outcome == ReadOutcome::Ready(
                    data.subrange(0, max as int),
                ) && next.unread == data.subrange(max as int, data.len() as int)
            }
            &&& data.len() == 0 ==> {
                let behind = transport::polled(
                    key,
                    Receiving { open, count: state.count + 1, unread: data },
                    max,
                    input.skip(k),
                    ended,
                );
                next == behind.0 && outcome == behind.1 && n == behind.2 + k
            }
        }),
{
    lemma_before_the_first_frame(key, state, max, input, ended, k - 1);
    lemma_first_frame_ends(state.open, input, k, frame);
    let open = hdlc::open_after(state.open, input.take(k));
    let rest = input.skip(k - 1);
    assert(rest.first() == input[k - 1]);
    assert(rest.drop_first() =~= input.skip(k));
    let middle = Receiving {
        open: hdlc::open_after(state.open, input.take(k - 1)),
        count: state.count,
        unread: state.unread,
    };
    let full = Receiving { open, count: state.count + 1, unread: data };
    assert(transport::byte_received(key, middle, rest.first()) == (full, None::<TransportFault>));
    let behind = transport::polled(key, full, max, input.skip(k), ended);
    assert(transport::polled(key, middle, max, rest, ended) == (behind.0, behind.1, behind.2 + 1));
    if data.len() > 0 {
        if data.len() <= max {
            assert(data.take(data.len() as int) =~= data);
            assert(data.skip(data.len() as int) =~= Seq::empty());
        } else {
            assert(data.take(max as int) =~= data.subrange(0, max as int));
            assert(data.skip(max as int) =~= data.subrange(max as int, data.len() as int));
        }
    }
}

/// What the outcome of a request says of the bytes that it used. Unless it failed on a frame,
/// every frame that was completed within them was accepted, and each counts. If it failed on a
/// frame, that frame is the last one, all before it were accepted, and the fault is what is wrong
/// with it. A request runs dry only where it has used all bytes and the stream goes on, and misses
/// the end of a frame only where the stream has ended inside one.
pub proof fn law_outcome_tells_of_every_frame(
    key: Seq<u8>,
    state: Receiving,
    max: nat,
    input: Seq<u8>,
    ended: bool,
)
    ensures
        ({
            let (next, outcome, n) = transport::polled(key, state, max, input, ended);
            let frames = hdlc::frames_in(state.open, input.take(n as int));
            let end = ReadOutcome::Failed(TransportFault::UnexpectedEnd);
            let whole = !(outcome is Failed) || outcome == end;
            &&& n <= input.len()
            &&& whole ==> next.count == state.count + frames.len()
            &&& !whole ==> frames.len() > 0 && next.count == state.count + frames.len() - 1
                && transport::payload_in_frame(frames.last(), key, next.count) == Err::<
                Seq<u8>,
                TransportFault,
            >(outcome->Failed_0)
            &&& forall|i: int|
                0 <= i < next.count - state.count ==> #[trigger] transport::payload_in_frame(
                    frames[i],
                    key,
                    (state.count + i) as nat,
                ) is Ok
            &&& outcome is Starved ==> !ended && n == input.len()
            &&& outcome == end ==> ended && n == input.len() && next.open is Some
        }),
    decreases input.len(),
{
    let (next, outcome, n) = transport::polled(key, state, max, input, ended);
    let used = input.take(n as int);
    let frames = hdlc::frames_in(state.open, used);
    if max > 0 && state.unread.len() == 0 && input.len() > 0 {
        let (step, fault) = transport::byte_received(key, state, input.first());
        let rest = input.drop_first();
        let (open, frame) = hdlc::read_byte(state.open, input.first());
        if fault is None {
            law_outcome_tells_of_every_frame(key, step, max, rest, ended);
        }
        let more = if fault is None {
            transport::polled(key, step, max, rest, ended).2
        } else {
            0
        };
        let tail = rest.take(more as int);
        let later = hdlc::frames_in(open, tail);
        assert(n == more + 1);
        assert(used.first() == input.first());
        assert(used.drop_first() =~= tail);
        match frame {
            None => {
                assert(frames == later);
            },
            Some(f) => {
                assert(frames == seq![f] + later);
                assert(frames[0] == f);
                if fault is Some {
                    assert(tail =~= Seq::empty());
                    assert(later =~= Seq::empty());
                    assert(frames.last() == f);
                } else {
                    assert forall|i: int|
                        0 <= i < next.count
                            - state.count implies #[trigger] transport::payload_in_frame(
                        frames[i],
                        key,
                        (state.count + i) as nat,
                    ) is Ok by {
                        if i > 0 {
                            assert(frames[i] == later[i - 1]);
                            assert(transport::payload_in_frame(
                                later[i - 1],
                                key,
                                (step.count + (i - 1)) as nat,
                            ) is Ok);
                        }
                    }
                    if later.len() > 0 {
                        assert(frames.last() == later.last());
                    }
                }
            },
        }
    } else {
        assert(used =~= Seq::empty());
        assert(frames =~= Seq::empty());
    }
}

/// A broken frame fails the request that comes upon it: where the stream goes on with bytes
/// between two flags that are no good frame, the request fails with what is wrong with them and
/// uses those bytes and no more.
pub proof fn law_broken_frame_fails_the_request(
    key: Seq<u8>,
    state: Receiving,
    max: nat,
    inside: Seq<u8>,
    rest: Seq<u8>,
    ended: bool,
    error: FrameError,
)
    requires
        max > 0,
        state.open is None,
        state.unread.len() == 0,
        !inside.contains(0x7e),
        hdlc::payload_of(seq![0x7eu8] + inside + seq![0x7eu8]) == Err::<Seq<u8>, FrameError>(error),
    ensures
        transport::polled(key, state, max, seq![0x7eu8] + inside + seq![0x7eu8] + rest, ended) == (
            state,
            ReadOutcome::Failed(TransportFault::Frame(error)),
            inside.len() + 2,
        ),
{
    lemma_refused_between_flags(
        key,
        state,
        max,
        inside,
        rest,
        ended,
        TransportFault::Frame(error),
    );
}

/// What stands between two flags and is refused fails the request.
proof fn lemma_refused_between_flags(
    key: Seq<u8>,
    state: Receiving,
    max: nat,
    inside: Seq<u8>,
    rest: Seq<u8>,
    ended: bool,
    fault: TransportFault,
)
    requires
        max > 0,
        state.open is None,
        state.unread.len() == 0,
        !inside.contains(0x7e),
        transport::payload_in_frame(seq![0x7eu8] + inside + seq![0x7eu8], key, state.count)
            == Err::<Seq<u8>, TransportFault>(fault),
    ensures
        transport::polled(key, state, max, seq![0x7eu8] + inside + seq![0x7eu8] + rest, ended) == (
            state,
            ReadOutcome::Failed(fault),
            inside.len() + 2,
        ),
{
    let none = Seq::<u8>::empty();
    let frame = seq![0x7eu8] + inside + seq![0x7eu8];
    let input = frame + rest;
    let k = frame.len() as int;
    hdlc::law_flags_bound_a_frame(none, inside, none);
    assert(input.take(k) =~= none + frame + none);
    assert(input.take(k - 1) =~= none + (seq![0x7eu8] + inside));
    assert(hdlc::frames_in(None, none) =~= Seq::empty());
    assert(hdlc::frames_in(None, input.take(k)) =~= seq![frame]);
    law_refused_frame_fails_the_request(key, state, max, input, ended, k, frame, fault);
    assert(transport::polled(key, state, max, input, ended).0 =~= state);
}

/// A frame whose check sequence is not that of its payload fails the request that comes upon it.
pub proof fn law_wrong_check_fails_the_request(
    key: Seq<u8>,
    state: Receiving,
    max: nat,
    payload: Seq<u8>,
    check: Seq<u8>,
    rest: Seq<u8>,
    ended: bool,
)
    requires
        max > 0,
        state.open is None,
        state.unread.len() == 0,
        check.len() == 2,
        hdlc::fcs_register(payload + check) != 0xf0b8,
    ensures
        transport::polled(
            key,
            state,
            max,
            seq![0x7eu8] + hdlc::escape(payload + check) + seq![0x7eu8] + rest,
            ended,
        ) == (
            state,
            ReadOutcome::Failed(TransportFault::Frame(FrameError::FcsMismatch)),
            hdlc::escape(payload + check).len() + 2,
        ),
{
    hdlc::law_register_residue(payload);
    hdlc::law_wrong_check_is_refused(payload, check);
    hdlc::law_escape_holds_no_flag(payload + check);
    law_broken_frame_fails_the_request(
        key,
        state,
        max,
        hdlc::escape(payload + check),
        rest,
        ended,
        FrameError::FcsMismatch,
    );
}

/// A good frame whose payload is not accepted, because the peer's key does not accept its
/// signature for the number of payloads accepted so far, fails the request that comes upon it, and
/// does not count.
pub proof fn law_rejected_signature_fails_the_request(
    key: Seq<u8>,
    state: Receiving,
    max: nat,
    signed: Seq<u8>,
    rest: Seq<u8>,
    ended: bool,
)
    requires
        max > 0,
        state.open is None,
        state.unread.len() == 0,
        !keys::packet_accepted(key, state.count, signed),
    ensures
        transport::polled(key, state, max, transport::payload_frame(signed) + rest, ended) == (
            state,
            ReadOutcome::Failed(TransportFault::Packet(PacketError::SignatureRejected)),
            transport::payload_frame(signed).len(),
        ),
{
    let wire = seq![5u8] + signed;
    let inside = hdlc::escape(wire + hdlc::fcs_bytes(hdlc::fcs_of(wire)));
    hdlc::law_frame_round_trip(wire);
    hdlc::law_escape_holds_no_flag(wire + hdlc::fcs_bytes(hdlc::fcs_of(wire)));
    assert(wire.subrange(1, wire.len() as int) =~= signed);
    packet::law_payload_needs_its_signature(wire, None, None, key, state.count);
    assert(transport::payload_frame(signed) =~= seq![0x7eu8] + inside + seq![0x7eu8]);
    lemma_refused_between_flags(
        key,
        state,
        max,
        inside,
        rest,
        ended,
        TransportFault::Packet(PacketError::SignatureRejected),
    );
}

/// What is left unread comes before the stream: a request hands on as much of it as there is room
/// for and uses nothing of the stream.
pub proof fn law_unread_bytes_come_first(
    key: Seq<u8>,
    state: Receiving,
    max: nat,
    input: Seq<u8>,
    ended: bool,
)
    requires
        max > 0,
        state.unread.len() > 0,
    ensures
        ({
            let (next, outcome, n) = transport::polled(key, state, max, input, ended);
            &&& n == 0
            &&& next.open == state.open
            &&& next.count == state.count
            &&& state.unread.len() <= max ==> outcome == ReadOutcome::Ready(state.unread)
                && next.unread == Seq::<u8>::empty()
            &&& state.unread.len() > max ==> outcome == ReadOutcome::Ready(
                state.unread.subrange(0, max as int),
            ) && next.unread == state.unread.subrange(max as int, state.unread.len() as int)
        }),
{
    let data = state.unread;
    if data.len() <= max {
        assert(data.take(data.len() as int) =~= data);
        assert(data.skip(data.len() as int) =~= Seq::empty());
    } else {
        assert(data.take(max as int) =~= data.subrange(0, max as int));
        assert(data.skip(max as int) =~= data.subrange(max as int, data.len() as int));
    }
}

/// A stream without another whole frame: the request waits for more where the stream goes on; at
/// its end it succeeds with nothing between frames, and fails inside one.
pub proof fn law_stream_without_a_frame(
    key: Seq<u8>,
    state: Receiving,
    max: nat,
    input: Seq<u8>,
    ended: bool,
)
    requires
        max > 0,
        state.unread.len() == 0,
        hdlc::frames_in(state.open, input).len() == 0,
    ensures
        ({
            let (next, outcome, n) = transport::polled(key, state, max, input, ended);
            let open = hdlc::open_after(state.open, input);
            &&& n == input.len()
            &&& next == (Receiving { open, count: state.count, unread: state.unread })
            &&& !ended ==> outcome == ReadOutcome::Starved
            &&& ended && open is None ==> outcome == ReadOutcome::Ready(Seq::empty())
            &&& ended && open is Some ==> outcome == ReadOutcome::Failed(
                TransportFault::UnexpectedEnd,
            )
        }),
{
    assert(input.take(input.len() as int) =~= input);
    lemma_before_the_first_frame(key, state, max, input, ended, input.len() as int);
}

} // verus!
