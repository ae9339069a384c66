//! Signed payloads over a byte stream: what is buffered, signed, framed and checked once the
//! handshake is over.

use vstd::prelude::*;
use vstd::slice::{slice_subrange, slice_to_vec};
use vstd::string::StringExecFns;

use crate::crypto::ED25519_SIGNATURE_LEN;
use crate::hdlc;
use crate::hdlc::{FrameError, FrameReader};
use crate::keys;
use crate::keys::{PacketSign, PacketVerify};
use crate::packet;
use crate::packet::{Packet, PacketError, PacketView, PACKET_TYPE_PAYLOAD};

verus! {

/// Why no payload came or went, as a mathematical value.
pub enum TransportFault {
    Frame(FrameError),
    Packet(PacketError),
    Unexpected(Seq<char>),
    UnexpectedEnd,
    WriteZero,
}

/// Why no payload came or went.
#[derive(Debug)]
pub enum TransportError {
    /// A frame is broken.
    Frame(FrameError),
    /// A packet is broken or not accepted.
    Packet(PacketError),
    /// Another packet than a `Payload` came, with the description given.
    Unexpected(String),
    /// The stream ended inside a frame.
    UnexpectedEnd,
    /// The stream takes no more bytes.
    WriteZero,
}

impl View for TransportError {
    type V = TransportFault;

    open spec fn view(&self) -> TransportFault {
        match self {
            TransportError::Frame(e) => TransportFault::Frame(*e),
            TransportError::Packet(e) => TransportFault::Packet(*e),
            TransportError::Unexpected(description) => TransportFault::Unexpected(description@),
            TransportError::UnexpectedEnd => TransportFault::UnexpectedEnd,
            TransportError::WriteZero => TransportFault::WriteZero,
        }
    }
}

/// What is said of a fault.
pub open spec fn transport_fault_text(fault: TransportFault) -> Seq<char> {
    match fault {
        TransportFault::Frame(e) => e.text(),
        TransportFault::Packet(e) => e.text(),
        TransportFault::Unexpected(description) => "expected Payload, got "@ + description,
        TransportFault::UnexpectedEnd => "unexpected end of file"@,
        TransportFault::WriteZero => "failed to write framed payload"@,
    }
}

/// What is said of a packet that carries no payload tells what came, and what is said of a broken
/// frame or packet is what is wrong with it.
pub proof fn law_transport_fault_tells_what_came(
    description: Seq<char>,
    frame: FrameError,
    packet: PacketError,
)
    ensures
        transport_fault_text(TransportFault::Unexpected(description)) == "expected Payload, got "@
            + description,
        transport_fault_text(TransportFault::Frame(frame)) == frame.text(),
        transport_fault_text(TransportFault::Packet(packet)) == packet.text(),
{
}

impl TransportError {
    /// Describe the error in words.
    pub fn message(&self) -> (out: String)
        ensures
            out@ == transport_fault_text(self@),
    {
        match self {
            TransportError::Frame(e) => e.message(),
            TransportError::Packet(e) => e.message(),
            TransportError::Unexpected(description) => {
                let mut out = String::from_str("expected Payload, got ");
                out.append(description.as_str());
                out
            },
            TransportError::UnexpectedEnd => String::from_str("unexpected end of file"),
            TransportError::WriteZero => String::from_str("failed to write framed payload"),
        }
    }
}

/// Bytes that are handed on piece by piece.
pub struct Remainder {
    buffer: Vec<u8>,
    offset: usize,
}

impl View for Remainder {
    type V = Seq<u8>;

    /// The bytes that have not been handed on yet.
    closed spec fn view(&self) -> Seq<u8> {
        self.buffer@.skip(self.offset as int)
    }
}

impl Remainder {
    #[verifier::type_invariant]
    spec fn inv(self) -> bool {
        self.offset <= self.buffer@.len()
    }

    /// Take in bytes of which none has been handed on.
    pub fn new(buffer: Vec<u8>) -> (r: Self)
        ensures
            r@ == buffer@,
    {
        assert(buffer@.skip(0) =~= buffer@);
        Remainder { buffer, offset: 0 }
    }

    /// Return how many bytes remain.
    pub fn len(&self) -> (n: usize)
        ensures
            n == self@.len(),
    {
        proof {
            use_type_invariant(self);
        }
        self.buffer.len() - self.offset
    }

    /// Return the bytes that remain.
    pub fn pending(&self) -> (data: &[u8])
        ensures
            data@ == self@,
    {
        proof {
            use_type_invariant(self);
        }
        let data = slice_subrange(self.buffer.as_slice(), self.offset, self.buffer.len());
        assert(data@ =~= self@);
        data
    }

    /// Mark `n` more bytes as handed on.
    pub fn advance(&mut self, n: usize)
        requires
            n <= old(self)@.len(),
        ensures
            final(self)@ == old(self)@.skip(n as int),
    {
        proof {
            use_type_invariant(&*self);
        }
        let ghost before = self@;
        let len: usize = self.buffer.len();
        let offset: usize = self.offset + n;
        if offset == len {
            *self = Remainder { buffer: Vec::new(), offset: 0 };
        } else {
            self.offset = offset;
        }
        assert(self@ =~= before.skip(n as int));
    }

    /// Hand on up to `max` bytes.
    pub fn take(&mut self, max: usize) -> (data: Vec<u8>)
        ensures
            data@.len() == if old(self)@.len() < max {
                old(self)@.len()
            } else {
                max as nat
            },
            data@ + final(self)@ == old(self)@,
    {
        let ghost before = self@;
        let available: usize = self.len();
        let n: usize = if available < max {
            available
        } else {
            max
        };
        let data = slice_to_vec(slice_subrange(self.pending(), 0, n));
        self.advance(n);
        assert(data@ + self@ =~= before);
        data
    }
}

/// The payload in a packet, or that it is another packet.
pub open spec fn payload_in(packet: PacketView) -> Result<Seq<u8>, TransportFault> {
    match packet {
        PacketView::Payload(data) => Ok(data),
        _ => Err(TransportFault::Unexpected(packet::description(packet))),
    }
}

/// The payload that `frame` carries for a receiver that has accepted `counter` packets of the
/// sender with the key `key`.
pub open spec fn payload_in_frame(frame: Seq<u8>, key: Seq<u8>, counter: nat) -> Result<
    Seq<u8>,
    TransportFault,
> {
    match hdlc::payload_of(frame) {
        Err(e) => Err(TransportFault::Frame(e)),
        Ok(wire) => match packet::parsed(wire, None, None, Some((key, counter))) {
            Err(e) => Err(TransportFault::Packet(e)),
            Ok(packet) => payload_in(packet),
        },
    }
}

/// Where the receiving direction of a connection stands.
#[verifier::ext_equal]
pub struct Receiving {
    /// The bytes of the frame that is being read, if one is.
    pub open: Option<Seq<u8>>,
    /// How many payloads have been accepted.
    pub count: nat,
    /// The payload bytes that the application has not taken yet.
    pub unread: Seq<u8>,
}

/// How many bytes are handed on of `available` ones, where there is room for `max`.
pub open spec fn handed_on(available: nat, max: nat) -> nat {
    if available < max {
        available
    } else {
        max
    }
}

/// What one byte of the stream does to the receiving direction, where the peer has the key `key`:
/// how it stands afterwards, and what is wrong with the frame that the byte completes.
pub open spec fn byte_received(key: Seq<u8>, state: Receiving, byte: u8) -> (
    Receiving,
    Option<TransportFault>,
) {
    let (open, frame) = hdlc::read_byte(state.open, byte);
    match frame {
        None => (Receiving { open, ..state }, None),
        Some(frame) => match payload_in_frame(frame, key, state.count) {
            Ok(data) => (Receiving { open, count: state.count + 1, unread: data }, None),
            Err(fault) => (Receiving { open, ..state }, Some(fault)),
        },
    }
}

/// What comes of asking for payload bytes, as a mathematical value.
#[verifier::ext_equal]
pub enum ReadOutcome {
    Ready(Seq<u8>),
    Starved,
    Failed(TransportFault),
}

/// What comes of asking for up to `max` payload bytes, when the stream has brought the bytes
/// `input`, and then its end if it has `ended`: how the receiving direction stands afterwards, the
/// outcome, and how many bytes of `input` were used.
///
/// Bytes of the stream are used only as long as nothing is unread. Nothing is used, and nothing
/// handed on, where there is no room for a byte.
pub open spec fn polled(
    key: Seq<u8>,
    state: Receiving,
    max: nat,
    input: Seq<u8>,
    ended: bool,
) -> (Receiving, ReadOutcome, nat)
    decreases input.len(),
{
    if max == 0 {
        (state, ReadOutcome::Ready(Seq::empty()), 0)
    } else if state.unread.len() > 0 {
        let n = handed_on(state.unread.len(), max) as int;
        (
            Receiving { unread: state.unread.skip(n), ..state },
            ReadOutcome::Ready(state.unread.take(n)),
            0,
        )
    } else if input.len() > 0 {
        let (next, fault) = byte_received(key, state, input.first());
        match fault {
            Some(fault) => (next, ReadOutcome::Failed(fault), 1),
            None => {
                let (last, outcome, used) = polled(key, next, max, input.drop_first(), ended);
                (last, outcome, used + 1)
            },
        }
    } else if !ended {
        (state, ReadOutcome::Starved, 0)
    } else if state.open is Some {
        (state, ReadOutcome::Failed(TransportFault::UnexpectedEnd), 0)
    } else {
        (state, ReadOutcome::Ready(Seq::empty()), 0)
    }
}

/// The frame in which a signed payload travels.
pub open spec fn payload_frame(signed: Seq<u8>) -> Seq<u8> {
    hdlc::frame_of(seq![PACKET_TYPE_PAYLOAD] + signed)
}

/// The frames in which signed payloads travel, one behind the other.
pub open spec fn payload_stream(sent: Seq<Seq<u8>>) -> Seq<u8>
    decreases sent.len(),
{
    if sent.len() == 0 {
        Seq::empty()
    } else {
        payload_frame(sent.first()) + payload_stream(sent.drop_first())
    }
}

/// A signed payload comes out of its frame at a receiver that has accepted as many packets as
/// were signed before it.
pub proof fn law_payload_comes_out_of_its_frame(signed: Seq<u8>, key: Seq<u8>, counter: nat)
    requires
        keys::packet_accepted(key, counter, signed),
    ensures
        payload_in_frame(payload_frame(signed), key, counter) == Ok::<Seq<u8>, TransportFault>(
            signed.skip(ED25519_SIGNATURE_LEN as int),
        ),
{
    hdlc::law_frame_round_trip(seq![PACKET_TYPE_PAYLOAD] + signed);
    packet::law_payload_round_trip(signed, key, counter, None, None);
}

/// A message travels in the clear: whoever reads the frame of a signed message reads the message,
/// and needs no key for it.
pub proof fn law_message_travels_in_the_clear(signature: Seq<u8>, message: Seq<u8>)
    requires
        signature.len() == ED25519_SIGNATURE_LEN,
    ensures
        hdlc::payload_of(payload_frame(signature + message)) matches Ok(wire) && wire.skip(
            1 + ED25519_SIGNATURE_LEN,
        ) == message,
{
    let wire = seq![PACKET_TYPE_PAYLOAD] + (signature + message);
    hdlc::law_frame_round_trip(wire);
    assert(wire.skip(1 + ED25519_SIGNATURE_LEN) =~= message);
}

/// A reader finds the frames of a stream of signed payloads, all of them and in order, and each
/// payload comes out of its frame at a receiver that counts along.
pub proof fn law_payloads_are_delivered_in_order(key: Seq<u8>, counter: nat, sent: Seq<Seq<u8>>)
    requires
        forall|i: int|
            0 <= i < sent.len() ==> #[trigger] keys::packet_accepted(
                key,
                (counter + i) as nat,
                sent[i],
            ),
    ensures
        hdlc::frames_in(None, payload_stream(sent)) == Seq::new(
            sent.len(),
            |i: int| payload_frame(sent[i]),
        ),
        forall|i: int|
            0 <= i < sent.len() ==> #[trigger] payload_in_frame(
                payload_frame(sent[i]),
                key,
                (counter + i) as nat,
            ) == Ok::<Seq<u8>, TransportFault>(sent[i].skip(ED25519_SIGNATURE_LEN as int)),
    decreases sent.len(),
{
    assert forall|i: int| 0 <= i < sent.len() implies #[trigger] payload_in_frame(
        payload_frame(sent[i]),
        key,
        (counter + i) as nat,
    ) == Ok::<Seq<u8>, TransportFault>(sent[i].skip(ED25519_SIGNATURE_LEN as int)) by {
        assert(keys::packet_accepted(key, (counter + i) as nat, sent[i]));
        law_payload_comes_out_of_its_frame(sent[i], key, (counter + i) as nat);
    }
    if sent.len() > 0 {
        let rest = sent.drop_first();
        let tail = payload_stream(rest);
        assert forall|i: int| 0 <= i < rest.len() implies #[trigger] keys::packet_accepted(
            key,
            ((counter + 1) as nat + i) as nat,
            rest[i],
        ) by {
            assert(keys::packet_accepted(key, (counter + (i + 1)) as nat, sent[i + 1]));
        }
        law_payloads_are_delivered_in_order(key, counter + 1, rest);
        hdlc::law_reader_finds_frames(
            Seq::empty(),
            seq![PACKET_TYPE_PAYLOAD] + sent.first(),
            tail,
        );
        assert(Seq::empty() + payload_frame(sent.first()) + tail =~= payload_stream(sent));
    }
    assert(hdlc::frames_in(None, payload_stream(sent)) =~= Seq::new(
        sent.len(),
        |i: int| payload_frame(sent[i]),
    ));
}

/// A frame gives a payload exactly where it is a good frame that carries a packet of the type 5
/// whose signature is accepted for the number of payloads accepted so far; the payload is what
/// follows the type and the signature. A packet of another type, however good, gives none.
pub proof fn law_only_accepted_payloads_come_out(
    frame: Seq<u8>,
    key: Seq<u8>,
    counter: nat,
    data: Seq<u8>,
)
    ensures
        payload_in_frame(frame, key, counter) == Ok::<Seq<u8>, TransportFault>(data) <==> {
            &&& hdlc::payload_of(frame) is Ok
            &&& hdlc::payload_of(frame)->Ok_0.len() >= 65
            &&& hdlc::payload_of(frame)->Ok_0[0] == 5
            &&& keys::packet_accepted(
                key,
                counter,
                hdlc::payload_of(frame)->Ok_0.subrange(
                    1,
                    hdlc::payload_of(frame)->Ok_0.len() as int,
                ),
            )
            &&& data == hdlc::payload_of(frame)->Ok_0.subrange(
                65,
                hdlc::payload_of(frame)->Ok_0.len() as int,
            )
        },
        hdlc::payload_of(frame) matches Err(e) ==> payload_in_frame(frame, key, counter) == Err::<
            Seq<u8>,
            TransportFault,
        >(TransportFault::Frame(e)),
        hdlc::payload_of(frame) matches Ok(wire) ==> {
            &&& packet::parsed(wire, None, None, Some((key, counter))) matches Err(e)
                ==> payload_in_frame(frame, key, counter) == Err::<Seq<u8>, TransportFault>(
                TransportFault::Packet(e),
            )
            &&& packet::parsed(wire, None, None, Some((key, counter))) matches Ok(packet)
                ==> wire[0] != 5 ==> payload_in_frame(frame, key, counter) == Err::<
                Seq<u8>,
                TransportFault,
            >(TransportFault::Unexpected(packet::description(packet)))
        },
{
    if let Ok(wire) = hdlc::payload_of(frame) {
        packet::law_packet_is_read_by_type(wire, None, None, Some((key, counter)));
        if wire.len() > 0 && wire[0] == 5 {
            packet::law_payload_needs_its_signature(wire, None, None, key, counter);
        }
    }
}

/// What comes of asking for payload bytes.
#[derive(Debug)]
pub enum ReadPoll {
    /// These are the bytes. There are none where there is no room for any, and at the end of the
    /// stream.
    Ready(Vec<u8>),
    /// The stream has to bring more bytes first.
    Starved,
    /// What the stream brought is broken or not accepted.
    Failed(TransportError),
}

impl View for ReadPoll {
    type V = ReadOutcome;

    open spec fn view(&self) -> ReadOutcome {
        match self {
            ReadPoll::Ready(data) => ReadOutcome::Ready(data@),
            ReadPoll::Starved => ReadOutcome::Starved,
            ReadPoll::Failed(e) => ReadOutcome::Failed(e@),
        }
    }
}

/// Take the payload out of a packet.
pub fn expect_payload(packet: Packet) -> (r: Result<Vec<u8>, TransportError>)
    ensures
        match r {
            Ok(data) => payload_in(packet@) == Ok::<Seq<u8>, TransportFault>(data@),
            Err(e) => payload_in(packet@) == Err::<Seq<u8>, TransportFault>(e@),
        },
{
    match packet {
        Packet::Payload(data) => Ok(data),
        other => Err(TransportError::Unexpected(other.describe())),
    }
}

/// Both directions of an established connection, between the payloads of the application and the
/// bytes of the stream.
pub struct PayloadTransport {
    packet_sign: PacketSign,
    peer_packet_verify: PacketVerify,
    frame_reader: FrameReader,
    read_buffer: Remainder,
    write_buffer: Remainder,
}

impl PayloadTransport {
    /// The private key that payloads are signed with.
    pub closed spec fn private_key(&self) -> Seq<u8> {
        self.packet_sign.private_key()
    }

    /// The public key of that private key.
    pub closed spec fn public_key(&self) -> Seq<u8> {
        self.packet_sign.public_key()
    }

    /// How many payloads have been signed.
    pub closed spec fn sent_count(&self) -> nat {
        self.packet_sign.sign_count()
    }

    /// The public key that the peer's payloads are signed with.
    pub closed spec fn peer_key(&self) -> Seq<u8> {
        self.peer_packet_verify.public_key()
    }

    /// How many payloads of the peer have been accepted.
    pub closed spec fn received_count(&self) -> nat {
        self.peer_packet_verify.verify_count()
    }

    /// The bytes of the frame that is being read, if one is.
    pub closed spec fn open_frame(&self) -> Option<Seq<u8>> {
        self.frame_reader@
    }

    /// The payload bytes that the application has not taken yet.
    pub closed spec fn unread(&self) -> Seq<u8> {
        self.read_buffer@
    }

    /// The bytes that the stream has not taken yet.
    pub closed spec fn unsent(&self) -> Seq<u8> {
        self.write_buffer@
    }

    /// Where the receiving direction stands.
    pub open spec fn receiving(&self) -> Receiving {
        Receiving {
            open: self.open_frame(),
            count: self.received_count(),
            unread: self.unread(),
        }
    }

    /// Whether signing and sending are as in `other`.
    pub open spec fn same_sending(&self, other: &Self) -> bool {
        &&& self.private_key() == other.private_key()
        &&& self.public_key() == other.public_key()
        &&& self.sent_count() == other.sent_count()
        &&& self.unsent() == other.unsent()
    }

    /// Whether reading and checking are as in `other`.
    pub open spec fn same_receiving(&self, other: &Self) -> bool {
        &&& self.peer_key() == other.peer_key()
        &&& self.receiving() == other.receiving()
    }

    /// Create a payload transport from packet keys.
    pub fn new(packet_sign: PacketSign, peer_packet_verify: PacketVerify) -> (t: Self)
        ensures
            t.private_key() == packet_sign.private_key(),
            t.public_key() == packet_sign.public_key(),
            t.sent_count() == packet_sign.sign_count(),
            t.unsent() == Seq::<u8>::empty(),
            t.peer_key() == peer_packet_verify.public_key(),
            t.received_count() == peer_packet_verify.verify_count(),
            t.open_frame() is None,
            t.unread() == Seq::<u8>::empty(),
    {
        PayloadTransport {
            packet_sign,
            peer_packet_verify,
            frame_reader: FrameReader::new(),
            read_buffer: Remainder::new(Vec::new()),
            write_buffer: Remainder::new(Vec::new()),
        }
    }

    /// Return how many payloads have been signed.
    pub fn sent(&self) -> (n: u64)
        ensures
            n == self.sent_count(),
    {
        self.packet_sign.signed()
    }

    /// Return how many payloads of the peer have been accepted.
    pub fn received(&self) -> (n: u64)
        ensures
            n == self.received_count(),
    {
        self.peer_packet_verify.verified()
    }

    /// Return whether a frame has been opened and not yet closed.
    pub fn is_in_frame(&self) -> (r: bool)
        ensures
            r == (self.open_frame() is Some),
    {
        self.frame_reader.is_in_frame()
    }

    /// Take in one byte of the stream, and hand out the frame that it completes.
    pub fn push_byte(&mut self, byte: u8) -> (r: Option<Vec<u8>>)
        ensures
            final(self).same_sending(old(self)),
            final(self).peer_key() == old(self).peer_key(),
            final(self).received_count() == old(self).received_count(),
            final(self).unread() == old(self).unread(),
            final(self).open_frame() == hdlc::read_byte(old(self).open_frame(), byte).0,
            match r {
                Some(frame) => hdlc::read_byte(old(self).open_frame(), byte).1 == Some(frame@),
                None => hdlc::read_byte(old(self).open_frame(), byte).1 is None,
            },
    {
        self.frame_reader.push(byte)
    }

    /// Check a frame and take in the payload that it carries, once everything before it has been
    /// read. Return whether there is anything to read: a payload may be empty.
    pub fn accept_frame(&mut self, frame: &[u8]) -> (r: Result<bool, TransportError>)
        requires
            old(self).unread().len() == 0,
            hdlc::payload_of(frame@) matches Ok(wire) ==> packet::may_be_accepted(wire)
                ==> old(self).received_count() < u64::MAX,
        ensures
            final(self).same_sending(old(self)),
            final(self).peer_key() == old(self).peer_key(),
            final(self).open_frame() == old(self).open_frame(),
            match payload_in_frame(frame@, old(self).peer_key(), old(self).received_count()) {
                Ok(data) => {
                    &&& r == Ok::<bool, TransportError>(data.len() > 0)
                    &&& final(self).unread() == data
                    &&& final(self).received_count() == old(self).received_count() + 1
                },
                Err(fault) => {
                    &&& r matches Err(e) && e@ == fault
                    &&& final(self).unread() == old(self).unread()
                    &&& final(self).received_count() == old(self).received_count()
                },
            },
    {
        let wire = match hdlc::decode(frame) {
            Ok(wire) => wire,
            Err(e) => return Err(TransportError::Frame(e)),
        };
        let packet = match Packet::deserialize(
            wire.as_slice(),
            None,
            None,
            Some(&mut self.peer_packet_verify),
        ) {
            Ok(packet) => packet,
            Err(e) => return Err(TransportError::Packet(e)),
        };
        match expect_payload(packet) {
            Err(e) => Err(e),
            Ok(data) => {
                let some: bool = data.len() > 0;
                self.read_buffer = Remainder::new(data);
                Ok(some)
            },
        }
    }

    /// Return whether there is anything to read.
    pub fn has_unread(&self) -> (r: bool)
        ensures
            r == (self.unread().len() > 0),
    {
        self.read_buffer.len() > 0
    }

    /// Hand up to `max` payload bytes to the application.
    pub fn read(&mut self, max: usize) -> (data: Vec<u8>)
        ensures
            final(self).same_sending(old(self)),
            final(self).peer_key() == old(self).peer_key(),
            final(self).received_count() == old(self).received_count(),
            final(self).open_frame() == old(self).open_frame(),
            data@.len() == handed_on(old(self).unread().len(), max as nat),
            data@ + final(self).unread() == old(self).unread(),
    {
        self.read_buffer.take(max)
    }

    /// Take in one byte of the stream, once everything before it has been read.
    fn receive_byte(&mut self, byte: u8) -> (r: Result<(), TransportError>)
        requires
            old(self).unread().len() == 0,
            old(self).received_count() < u64::MAX,
        ensures
            final(self).same_sending(old(self)),
            final(self).peer_key() == old(self).peer_key(),
            ({
                let (next, fault) = byte_received(old(self).peer_key(), old(self).receiving(), byte);
                &&& final(self).receiving() == next
                &&& match r {
                    Ok(()) => fault is None,
                    Err(e) => fault == Some(e@),
                }
            }),
    {
        match self.push_byte(byte) {
            None => Ok(()),
            Some(frame) => match self.accept_frame(frame.as_slice()) {
                Ok(_) => Ok(()),
                Err(e) => Err(e),
            },
        }
    }

    /// Hand up to `max` payload bytes to the application. Where nothing is unread, take them from
    /// what the stream has brought: the bytes `input`, and its end behind them if it has `ended`.
    /// Return the outcome, and how many bytes of `input` were used.
    pub fn poll_read(&mut self, max: usize, input: &[u8], ended: bool) -> (r: (ReadPoll, usize))
        requires
            old(self).received_count() + input@.len() <= u64::MAX,
        ensures
            final(self).same_sending(old(self)),
            final(self).peer_key() == old(self).peer_key(),
            polled(old(self).peer_key(), old(self).receiving(), max as nat, input@, ended) == (
                final(self).receiving(),
                r.0@,
                r.1 as nat,
            ),
    {
        if max == 0 {
            let none: Vec<u8> = Vec::new();
            assert(none@ =~= Seq::empty());
            return (ReadPoll::Ready(none), 0);
        }
        let ghost key = self.peer_key();
        let ghost start = self.receiving();
        let mut used: usize = 0;
        assert(input@.skip(0) =~= input@);
        while !self.has_unread() && used < input.len()
            invariant
                max > 0,
                used <= input@.len(),
                self.received_count() + (input@.len() - used) <= u64::MAX,
                self.peer_key() == key,
                self.same_sending(old(self)),
                key == old(self).peer_key(),
                start == old(self).receiving(),
                ({
                    let (last, outcome, more) = polled(
                        key,
                        self.receiving(),
                        max as nat,
                        input@.skip(used as int),
                        ended,
                    );
                    polled(key, start, max as nat, input@, ended) == (last, outcome, more + used as nat)
                }),
            decreases input@.len() - used,
        {
            assert(input@.skip(used as int).drop_first() =~= input@.skip(used + 1));
            match self.receive_byte(input[used]) {
                Ok(()) => {
                    used = used + 1;
                },
                Err(e) => {
                    return (ReadPoll::Failed(e), used + 1);
                },
            }
        }
        if self.has_unread() {
            let ghost unread = self.unread();
            let data = self.read(max);
            proof {
                let n = handed_on(unread.len(), max as nat) as int;
                assert(data@ =~= unread.take(n));
                assert(self.unread() =~= unread.skip(n));
            }
            return (ReadPoll::Ready(data), used);
        }
        if !ended {
            return (ReadPoll::Starved, used);
        }
        if self.is_in_frame() {
            return (ReadPoll::Failed(TransportError::UnexpectedEnd), used);
        }
        let none: Vec<u8> = Vec::new();
        assert(none@ =~= Seq::empty());
        (ReadPoll::Ready(none), used)
    }

    /// Sign and frame a payload of the application, and return how many bytes of it were taken.
    /// Nothing is sent for an empty payload.
    pub fn write(&mut self, data: &[u8]) -> (r: Result<usize, TransportError>)
        requires
            old(self).unsent().len() == 0,
            data@.len() > 0 ==> old(self).sent_count() < u64::MAX,
        ensures
            final(self).same_receiving(old(self)),
            final(self).private_key() == old(self).private_key(),
            final(self).public_key() == old(self).public_key(),
            r matches Ok(n) && n == data@.len(),
            data@.len() == 0 ==> final(self).same_sending(old(self)),
            data@.len() > 0 ==> {
                &&& final(self).unsent() == payload_frame(
                    keys::signed_packet(old(self).private_key(), old(self).sent_count(), data@),
                )
                &&& payload_in_frame(
                    final(self).unsent(),
                    old(self).public_key(),
                    old(self).sent_count(),
                ) == Ok::<Seq<u8>, TransportFault>(data@)
                &&& final(self).sent_count() == old(self).sent_count() + 1
            },
    {
        if data.len() == 0 {
            return Ok(0);
        }
        let packet = Packet::Payload(slice_to_vec(data));
        match packet.serialize_packet_signed(&mut self.packet_sign) {
            Err(e) => Err(TransportError::Packet(e)),
            Ok(wire) => {
                proof {
                    hdlc::law_frame_round_trip(wire@);
                }
                self.write_buffer = Remainder::new(hdlc::encode(wire.as_slice()));
                Ok(data.len())
            },
        }
    }

    /// Return the bytes that the stream has not taken yet.
    pub fn pending_write(&self) -> (data: &[u8])
        ensures
            data@ == self.unsent(),
    {
        self.write_buffer.pending()
    }

    /// Take note that the stream took `written` bytes of those that it was offered. A stream that
    /// takes none takes no more.
    pub fn advance_write(&mut self, written: usize) -> (r: Result<(), TransportError>)
        requires
            written <= old(self).unsent().len(),
        ensures
            final(self).same_receiving(old(self)),
            final(self).private_key() == old(self).private_key(),
            final(self).public_key() == old(self).public_key(),
            final(self).sent_count() == old(self).sent_count(),
            final(self).unsent() == old(self).unsent().skip(written as int),
            match r {
                Ok(()) => written > 0,
                Err(e) => written == 0 && e@ == TransportFault::WriteZero,
            },
    {
        if written == 0 {
            assert(self.unsent().skip(0) =~= self.unsent());
            return Err(TransportError::WriteZero);
        }
        self.write_buffer.advance(written);
        Ok(())
    }
}

} // verus!
