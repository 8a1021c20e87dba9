//! The client side of the TLS 1.2 handshake, apart from the cryptography:
//! message framing, the Finished check, the key block, and the state machine
//! as a function from state and event to next state and action.
use vstd::prelude::*;

use crate::alert::TlsErrorKind;

verus! {

/// The handshake message types this client sends or accepts.
#[derive(Debug, Clone, Copy, PartialEq, Eq, Structural)]
pub enum HandshakeType {
    ClientHello,
    ServerHello,
    Certificate,
    ServerKeyExchange,
    ServerHelloDone,
    ClientKeyExchange,
    Finished,
}

impl HandshakeType {
    pub open spec fn spec_code(self) -> u8 {
        match self {
            HandshakeType::ClientHello => 1,
            HandshakeType::ServerHello => 2,
            HandshakeType::Certificate => 11,
            HandshakeType::ServerKeyExchange => 12,
            HandshakeType::ServerHelloDone => 14,
            HandshakeType::ClientKeyExchange => 16,
            HandshakeType::Finished => 20,
        }
    }

    pub fn code(&self) -> (r: u8)
        ensures
            r == self.spec_code(),
    {
        match self {
            HandshakeType::ClientHello => 1,
            HandshakeType::ServerHello => 2,
            HandshakeType::Certificate => 11,
            HandshakeType::ServerKeyExchange => 12,
            HandshakeType::ServerHelloDone => 14,
            HandshakeType::ClientKeyExchange => 16,
            HandshakeType::Finished => 20,
        }
    }

    pub fn from_code(b: u8) -> (r: Option<HandshakeType>)
        ensures
            r is Some <==> (b == 1 || b == 2 || b == 11 || b == 12 || b == 14 || b == 16 || b
                == 20),
            r matches Some(t) ==> t.spec_code() == b,
    {
        if b == 1 {
            Some(HandshakeType::ClientHello)
        } else if b == 2 {
            Some(HandshakeType::ServerHello)
        } else if b == 11 {
            Some(HandshakeType::Certificate)
        } else if b == 12 {
            Some(HandshakeType::ServerKeyExchange)
        } else if b == 14 {
            Some(HandshakeType::ServerHelloDone)
        } else if b == 16 {
            Some(HandshakeType::ClientKeyExchange)
        } else if b == 20 {
            Some(HandshakeType::Finished)
        } else {
            None
        }
    }
}

/// The largest body length that 24 bits can carry.
pub const MAX_BODY_LEN: u32 = 0xff_ffff;

/// A message header: type, then the body length in 24 bits, big-endian.
pub open spec fn message_header_bytes(t: HandshakeType, len: u32) -> Seq<u8> {
    seq![t.spec_code(), (len / 0x10000) as u8, (len / 0x100 % 0x100) as u8, (len % 0x100) as u8]
}

/// What a received message header says; a type this client does not know
/// is an unexpected message.
pub open spec fn message_header_of(h: Seq<u8>) -> Result<(HandshakeType, u32), TlsErrorKind> {
    if h.len() != 4 {
        Err(TlsErrorKind::DecodeError)
    } else {
        let b = h[0];
        if !(b == 1 || b == 2 || b == 11 || b == 12 || b == 14 || b == 16 || b == 20) {
            Err(TlsErrorKind::UnexpectedMessage)
        } else {
            let t = if b == 1 {
                HandshakeType::ClientHello
            } else if b == 2 {
                HandshakeType::ServerHello
            } else if b == 11 {
                HandshakeType::Certificate
            } else if b == 12 {
                HandshakeType::ServerKeyExchange
            } else if b == 14 {
                HandshakeType::ServerHelloDone
            } else if b == 16 {
                HandshakeType::ClientKeyExchange
            } else {
                HandshakeType::Finished
            };
            Ok((t, (h[1] * 0x10000 + h[2] * 0x100 + h[3]) as u32))
        }
    }
}

pub fn encode_message_header(t: HandshakeType, len: u32) -> (r: Vec<u8>)
    requires
        len <= MAX_BODY_LEN,
    ensures
        r@ == message_header_bytes(t, len),
{
    let r = vec![t.code(), (len / 0x10000) as u8, (len / 0x100 % 0x100) as u8, (len % 0x100) as u8];
    assert(r@ =~= message_header_bytes(t, len));
    r
}

pub fn parse_message_header(h: &[u8]) -> (r: Result<(HandshakeType, u32), TlsErrorKind>)
    ensures
        r == message_header_of(h@),
{
    if h.len() != 4 {
        return Err(TlsErrorKind::DecodeError);
    }
    let t = match HandshakeType::from_code(h[0]) {
        Some(t) => t,
        None => {
            return Err(TlsErrorKind::UnexpectedMessage);
        },
    };
    Ok((t, h[1] as u32 * 0x10000 + h[2] as u32 * 0x100 + h[3] as u32))
}

/// A header that this client writes reads back as what was written.
pub proof fn lemma_message_header_round_trip(t: HandshakeType, len: u32)
    requires
        len <= MAX_BODY_LEN,
    ensures
        message_header_of(message_header_bytes(t, len)) == Ok::<(HandshakeType, u32), TlsErrorKind>(
            (t, len),
        ),
{
    let h = message_header_bytes(t, len);
    assert(h[1] * 0x10000 + h[2] * 0x100 + h[3] == len);
}

/// The length of Finished's verify_data.
pub const VERIFY_DATA_LEN: usize = 12;

/// A received Finished is accepted when its body is exactly the expected
/// verify_data.
pub open spec fn finished_accepts(expected: Seq<u8>, received: Seq<u8>) -> bool {
    received.len() == VERIFY_DATA_LEN && received == expected
}

/// Compares a received Finished body with the expected verify_data. Every
/// byte is looked at, whatever the earlier ones held, so the time taken does
/// not depend on where they differ.
pub fn verify_finished(expected: &[u8], received: &[u8]) -> (r: bool)
    requires
        expected@.len() == VERIFY_DATA_LEN,
    ensures
        r == finished_accepts(expected@, received@),
{
    if received.len() != VERIFY_DATA_LEN {
        return false;
    }
    let mut diff: u8 = 0;
    let mut i: usize = 0;
    while i < VERIFY_DATA_LEN
        invariant
            i <= VERIFY_DATA_LEN,
            expected@.len() == VERIFY_DATA_LEN,
            received@.len() == VERIFY_DATA_LEN,
            diff == 0 <==> forall|j: int| 0 <= j < i ==> expected@[j] == received@[j],
        decreases VERIFY_DATA_LEN - i,
    {
        let x = expected[i];
        let y = received[i];
        let d = diff;
        assert((d | (x ^ y)) == 0 <==> (d == 0 && x == y)) by (bit_vector);
        diff = d | (x ^ y);
        i = i + 1;
    }
    assert(diff == 0 ==> expected@ =~= received@);
    diff == 0
}

/// Flipping any one bit of the received verify_data makes it rejected.
pub proof fn lemma_finished_rejects_bit_flip(expected: Seq<u8>, i: int, bit: u8)
    requires
        expected.len() == VERIFY_DATA_LEN,
        0 <= i < VERIFY_DATA_LEN,
        bit < 8,
    ensures
        !finished_accepts(expected, expected.update(i, expected[i] ^ (1u8 << bit))),
{
    let b = expected[i];
    assert(b ^ (1u8 << bit) != b) by (bit_vector)
        requires
            bit < 8,
    ;
    assert(expected.update(i, b ^ (1u8 << bit))[i] != expected[i]);
}

/// The size of each write key of this suite.
pub const KEY_LEN: usize = 32;

/// `client_write_key ‖ server_write_key`: the key block splits in two halves.
pub fn split_key_block(key_block: &[u8]) -> (r: (Vec<u8>, Vec<u8>))
    requires
        key_block@.len() == 2 * KEY_LEN,
    ensures
        r.0@ == key_block@.subrange(0, KEY_LEN as int),
        r.1@ == key_block@.subrange(KEY_LEN as int, 2 * KEY_LEN as int),
{
    let mut client: Vec<u8> = Vec::new();
    let mut server: Vec<u8> = Vec::new();
    let mut i: usize = 0;
    while i < KEY_LEN
        invariant
            i <= KEY_LEN,
            key_block@.len() == 2 * KEY_LEN,
            client@ == key_block@.subrange(0, i as int),
            server@ == key_block@.subrange(KEY_LEN as int, KEY_LEN + i),
        decreases KEY_LEN - i,
    {
        client.push(key_block[i]);
        server.push(key_block[KEY_LEN + i]);
        i = i + 1;
        assert(client@ =~= key_block@.subrange(0, i as int));
        assert(server@ =~= key_block@.subrange(KEY_LEN as int, KEY_LEN + i));
    }
    (client, server)
}

/// Where the client stands in the handshake.
#[derive(Debug, Clone, Copy, PartialEq, Eq, Structural)]
pub enum HandshakeState {
    Start,
    WaitServerHello,
    WaitCertificate,
    WaitServerKeyExchange,
    WaitServerHelloDone,
    WaitChangeCipherSpecOut,
    WaitChangeCipherSpecIn,
    WaitFinished,
    Established,
}

/// What happened: a message from the peer (checked already by its parser),
/// the client's own flight going out, or the transport closing.
#[derive(Debug, Clone, Copy, PartialEq, Eq, Structural)]
pub enum HandshakeEvent {
    Begin,
    ServerHello,
    Certificate,
    ServerKeyExchange,
    ServerHelloDone,
    /// The client flight was sent: ClientKeyExchange, ChangeCipherSpec, Finished.
    ClientFlightSent,
    ChangeCipherSpec,
    /// The server's Finished, and whether `verify_finished` accepted it.
    Finished { verified: bool },
    /// Any other handshake message.
    OtherHandshake,
    Alert,
    ApplicationData,
    TransportClosed,
}

/// What the caller does next.
#[derive(Debug, Clone, Copy, PartialEq, Eq, Structural)]
pub enum HandshakeAction {
    SendClientHello,
    /// Derive the ephemeral key pair and the premaster secret.
    DeriveSharedSecret,
    /// Send ClientKeyExchange; derive the master secret and key block; send
    /// ChangeCipherSpec; install the outbound key; send Finished.
    SendClientFlight,
    /// Install the inbound key, numbering from zero.
    InstallInboundKey,
    /// Hand the record's data to the application.
    DeliverData,
    Nothing,
}

pub type Step = Result<(HandshakeState, HandshakeAction), TlsErrorKind>;

/// One transition of the client. An alert ends the session with
/// `AlertReceived`, the transport closing with `IoFailure`, and anything the
/// state does not expect with `UnexpectedMessage`.
pub open spec fn spec_step(s: HandshakeState, e: HandshakeEvent) -> Step {
    match (s, e) {
        (_, HandshakeEvent::TransportClosed) => Err(TlsErrorKind::IoFailure),
        (_, HandshakeEvent::Alert) => Err(TlsErrorKind::AlertReceived),
        (HandshakeState::Start, HandshakeEvent::Begin) => Ok(
            (HandshakeState::WaitServerHello, HandshakeAction::SendClientHello),
        ),
        (HandshakeState::WaitServerHello, HandshakeEvent::ServerHello) => Ok(
            (HandshakeState::WaitCertificate, HandshakeAction::Nothing),
        ),
        (HandshakeState::WaitCertificate, HandshakeEvent::Certificate) => Ok(
            (HandshakeState::WaitServerKeyExchange, HandshakeAction::Nothing),
        ),
        (HandshakeState::WaitServerKeyExchange, HandshakeEvent::ServerKeyExchange) => Ok(
            (HandshakeState::WaitServerHelloDone, HandshakeAction::DeriveSharedSecret),
        ),
        (HandshakeState::WaitServerHelloDone, HandshakeEvent::ServerHelloDone) => Ok(
            (HandshakeState::WaitChangeCipherSpecOut, HandshakeAction::SendClientFlight),
        ),
        (HandshakeState::WaitChangeCipherSpecOut, HandshakeEvent::ClientFlightSent) => Ok(
            (HandshakeState::WaitChangeCipherSpecIn, HandshakeAction::Nothing),
        ),
        (HandshakeState::WaitChangeCipherSpecIn, HandshakeEvent::ChangeCipherSpec) => Ok(
            (HandshakeState::WaitFinished, HandshakeAction::InstallInboundKey),
        ),
        (HandshakeState::WaitFinished, HandshakeEvent::Finished { verified }) => if verified {
            Ok((HandshakeState::Established, HandshakeAction::Nothing))
        } else {
            Err(TlsErrorKind::DecryptError)
        },
        (HandshakeState::Established, HandshakeEvent::ApplicationData) => Ok(
            (HandshakeState::Established, HandshakeAction::DeliverData),
        ),
        _ => Err(TlsErrorKind::UnexpectedMessage),
    }
}

pub fn step(s: HandshakeState, e: HandshakeEvent) -> (r: Step)
    ensures
        r == spec_step(s, e),
{
    match e {
        HandshakeEvent::TransportClosed => {
            return Err(TlsErrorKind::IoFailure);
        },
        HandshakeEvent::Alert => {
            return Err(TlsErrorKind::AlertReceived);
        },
        _ => {},
    }
    match (s, e) {
        (HandshakeState::Start, HandshakeEvent::Begin) => Ok(
            (HandshakeState::WaitServerHello, HandshakeAction::SendClientHello),
        ),
        (HandshakeState::WaitServerHello, HandshakeEvent::ServerHello) => Ok(
            (HandshakeState::WaitCertificate, HandshakeAction::Nothing),
        ),
        (HandshakeState::WaitCertificate, HandshakeEvent::Certificate) => Ok(
            (HandshakeState::WaitServerKeyExchange, HandshakeAction::Nothing),
        ),
        (HandshakeState::WaitServerKeyExchange, HandshakeEvent::ServerKeyExchange) => Ok(
            (HandshakeState::WaitServerHelloDone, HandshakeAction::DeriveSharedSecret),
        ),
        (HandshakeState::WaitServerHelloDone, HandshakeEvent::ServerHelloDone) => Ok(
            (HandshakeState::WaitChangeCipherSpecOut, HandshakeAction::SendClientFlight),
        ),
        (HandshakeState::WaitChangeCipherSpecOut, HandshakeEvent::ClientFlightSent) => Ok(
            (HandshakeState::WaitChangeCipherSpecIn, HandshakeAction::Nothing),
        ),
        (HandshakeState::WaitChangeCipherSpecIn, HandshakeEvent::ChangeCipherSpec) => Ok(
            (HandshakeState::WaitFinished, HandshakeAction::InstallInboundKey),
        ),
        (HandshakeState::WaitFinished, HandshakeEvent::Finished { verified }) => {
            if verified {
                Ok((HandshakeState::Established, HandshakeAction::Nothing))
            } else {
                Err(TlsErrorKind::DecryptError)
            }
        },
        (HandshakeState::Established, HandshakeEvent::ApplicationData) => Ok(
            (HandshakeState::Established, HandshakeAction::DeliverData),
        ),
        _ => Err(TlsErrorKind::UnexpectedMessage),
    }
}

/// The session becomes established only from WaitFinished, on a server
/// Finished that was verified.
pub proof fn lemma_established_only_after_finished(s: HandshakeState, e: HandshakeEvent)
    requires
        s != HandshakeState::Established,
        spec_step(s, e) matches Ok((next, _)) && next == HandshakeState::Established,
    ensures
        s == HandshakeState::WaitFinished,
        e == (HandshakeEvent::Finished { verified: true }),
{
}

/// The transport closing, in any state and in particular before the server
/// Finished has arrived, is an I/O failure: never a finished handshake.
pub proof fn lemma_closing_is_io_failure(s: HandshakeState)
    ensures
        spec_step(s, HandshakeEvent::TransportClosed) == Err::<
            (HandshakeState, HandshakeAction),
            TlsErrorKind,
        >(TlsErrorKind::IoFailure),
{
}

/// Application data before the handshake is finished is fatal.
pub proof fn lemma_no_data_before_established(s: HandshakeState)
    requires
        s != HandshakeState::Established,
    ensures
        spec_step(s, HandshakeEvent::ApplicationData) == Err::<
            (HandshakeState, HandshakeAction),
            TlsErrorKind,
        >(TlsErrorKind::UnexpectedMessage),
{
}

/// The inbound key is installed only on the server's ChangeCipherSpec, in
/// WaitChangeCipherSpecIn.
pub proof fn lemma_inbound_key_on_change_cipher_spec(s: HandshakeState, e: HandshakeEvent)
    requires
        spec_step(s, e) matches Ok((_, a)) && a == HandshakeAction::InstallInboundKey,
    ensures
        s == HandshakeState::WaitChangeCipherSpecIn,
        e == HandshakeEvent::ChangeCipherSpec,
{
}

/// The handshake messages exchanged so far, headers included, as they were
/// on the wire.
#[derive(Debug)]
pub struct Transcript {
    bytes: Vec<u8>,
}

impl View for Transcript {
    type V = Seq<u8>;

    closed spec fn view(&self) -> Seq<u8> {
        self.bytes@
    }
}

impl Transcript {
    pub fn new() -> (r: Transcript)
        ensures
            r@ == Seq::<u8>::empty(),
    {
        Transcript { bytes: Vec::new() }
    }

    /// Appends one message, in the order it was sent or received.
    pub fn append(&mut self, message: &[u8])
        ensures
            final(self)@ == old(self)@ + message@,
    {
        let mut i: usize = 0;
        while i < message.len()
            invariant
                i <= message@.len(),
                self@ == old(self)@ + message@.subrange(0, i as int),
            decreases message.len() - i,
        {
            self.bytes.push(message[i]);
            i = i + 1;
            assert(self@ =~= old(self)@ + message@.subrange(0, i as int));
        }
        assert(message@.subrange(0, message@.len() as int) =~= message@);
    }

    pub fn as_bytes(&self) -> (r: &[u8])
        ensures
            r@ == self@,
    {
        self.bytes.as_slice()
    }
}

/// Handshake bytes received but not yet handed out as whole messages.
#[derive(Debug)]
pub struct HandshakeBuffer {
    pending: Vec<u8>,
}

impl View for HandshakeBuffer {
    type V = Seq<u8>;

    closed spec fn view(&self) -> Seq<u8> {
        self.pending@
    }
}

/// The first whole message in `p`, if there is one: its type, and its length
/// with the header.
pub open spec fn first_message(p: Seq<u8>) -> Result<Option<(HandshakeType, int)>, TlsErrorKind> {
    if p.len() < 4 {
        Ok(None)
    } else {
        match message_header_of(p.subrange(0, 4)) {
            Err(e) => Err(e),
            Ok((t, len)) => if p.len() < 4 + len {
                Ok(None)
            } else {
                Ok(Some((t, 4 + len)))
            },
        }
    }
}

impl HandshakeBuffer {
    pub fn new() -> (r: HandshakeBuffer)
        ensures
            r@ == Seq::<u8>::empty(),
    {
        HandshakeBuffer { pending: Vec::new() }
    }

    /// Whether a record of another content type may arrive now: not while a
    /// handshake message is cut in the middle.
    pub fn is_empty(&self) -> (r: bool)
        ensures
            r == (self@.len() == 0),
    {
        self.pending.len() == 0
    }

    /// Adds the fragment carried by one handshake record.
    pub fn push_fragment(&mut self, fragment: &[u8])
        ensures
            final(self)@ == old(self)@ + fragment@,
    {
        let mut i: usize = 0;
        while i < fragment.len()
            invariant
                i <= fragment@.len(),
                self@ == old(self)@ + fragment@.subrange(0, i as int),
            decreases fragment.len() - i,
        {
            self.pending.push(fragment[i]);
            i = i + 1;
            assert(self@ =~= old(self)@ + fragment@.subrange(0, i as int));
        }
        assert(fragment@.subrange(0, fragment@.len() as int) =~= fragment@);
    }

    /// Takes the first whole message: its type and its bytes, header
    /// included. `Ok(None)` while it is not all there.
    pub fn take_message(&mut self) -> (r: Result<Option<(HandshakeType, Vec<u8>)>, TlsErrorKind>)
        ensures
            match first_message(old(self)@) {
                Err(e) => r matches Err(x) && x == e && final(self)@ == old(self)@,
                Ok(None) => r matches Ok(None) && final(self)@ == old(self)@,
                Ok(Some((t, n))) => r matches Ok(Some((u, m))) && u == t && m@ == old(
                    self,
                )@.subrange(0, n) && final(self)@ == old(self)@.subrange(n, old(self)@.len() as int),
            },
    {
        if self.pending.len() < 4 {
            return Ok(None);
        }
        let (t, len) = match parse_message_header(&self.pending.as_slice()[0..4]) {
            Ok(h) => h,
            Err(e) => {
                return Err(e);
            },
        };
        if (self.pending.len() - 4) < len as usize {
            return Ok(None);
        }
        let n = 4 + len as usize;
        let rest = self.pending.split_off(n);
        let mut message: Vec<u8> = Vec::new();
        message.append(&mut self.pending);
        self.pending = rest;
        Ok(Some((t, message)))
    }
}

} // verus!
