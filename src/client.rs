//! The client's handshake engine without I/O: it checks each server message,
//! keeps the transcript, derives the keys and Finished values, and moves
//! through the state machine. The caller moves the records, and does the
//! P-256 arithmetic: it hands over the client's public point and the shared
//! secret when asked to.
use vstd::prelude::*;

use crate::alert::TlsErrorKind;
use crate::handshake::{
    encode_message_header, finished_accepts, message_header_bytes, message_header_of,
    parse_message_header, spec_step, split_key_block, step, verify_finished, HandshakeAction,
    HandshakeEvent, HandshakeState, HandshakeType, Transcript,
};
use crate::messages::{
    client_hello_body, client_hello_body_bytes, client_key_exchange_body,
    client_key_exchange_bytes, leaf_certificate_of, parse_certificate_message, parse_server_hello,
    parse_server_key_exchange, server_hello_of, server_key_exchange_of, POINT_LEN, RANDOM_LEN,
};
use crate::prf::{
    client_finished_label, key_block_bytes, key_expansion_label, master_secret,
    master_secret_label, prf, server_finished_label, verify_data,
};
use crate::sha256::sha256;
use crate::x509::cert::{Certificate, CertificateModel};

verus! {

/// The body of a whole handshake message.
pub open spec fn body_of(msg: Seq<u8>) -> Seq<u8> {
    msg.subrange(4, msg.len() as int)
}

/// The header of a whole handshake message, checked against its length.
pub open spec fn framed_type(msg: Seq<u8>) -> Result<HandshakeType, TlsErrorKind> {
    if msg.len() < 4 {
        Err(TlsErrorKind::DecodeError)
    } else {
        match message_header_of(msg.subrange(0, 4)) {
            Err(e) => Err(e),
            Ok((t, len)) => if len != msg.len() - 4 {
                Err(TlsErrorKind::DecodeError)
            } else {
                Ok(t)
            },
        }
    }
}

/// The event that a whole server message stands for once its body has been
/// checked. A Finished is verified only where one is expected, against
/// `expected`.
pub open spec fn server_event(msg: Seq<u8>, waiting_finished: bool, expected: Seq<u8>) -> Result<
    HandshakeEvent,
    TlsErrorKind,
> {
    match framed_type(msg) {
        Err(e) => Err(e),
        Ok(t) => {
            let body = body_of(msg);
            match t {
                HandshakeType::ServerHello => match server_hello_of(body) {
                    Ok(_) => Ok(HandshakeEvent::ServerHello),
                    Err(e) => Err(e),
                },
                HandshakeType::Certificate => match leaf_certificate_of(body) {
                    Ok(_) => Ok(HandshakeEvent::Certificate),
                    Err(e) => Err(e),
                },
                HandshakeType::ServerKeyExchange => match server_key_exchange_of(body) {
                    Ok(_) => Ok(HandshakeEvent::ServerKeyExchange),
                    Err(e) => Err(e),
                },
                HandshakeType::ServerHelloDone => if body.len() == 0 {
                    Ok(HandshakeEvent::ServerHelloDone)
                } else {
                    Err(TlsErrorKind::DecodeError)
                },
                HandshakeType::Finished => Ok(
                    HandshakeEvent::Finished {
                        verified: waiting_finished && finished_accepts(expected, body),
                    },
                ),
                _ => Ok(HandshakeEvent::OtherHandshake),
            }
        },
    }
}

/// The verify_data of a Finished over `transcript`.
pub open spec fn finished_data(master: Seq<u8>, client: bool, transcript: Seq<u8>) -> Seq<u8> {
    prf(
        master,
        if client {
            client_finished_label()
        } else {
            server_finished_label()
        },
        sha256(transcript),
        12,
    )
}

/// What the client sends after ServerHelloDone, and the keys it derived.
pub struct ClientFlight {
    /// The ClientKeyExchange message.
    pub client_key_exchange: Vec<u8>,
    /// The client's Finished message, to be sent under the new outbound key.
    pub finished: Vec<u8>,
    /// The outbound key, to install after sending ChangeCipherSpec.
    pub client_write_key: Vec<u8>,
    /// The inbound key, to install on the server's ChangeCipherSpec.
    pub server_write_key: Vec<u8>,
}

/// The longest transcript this engine keeps.
pub const MAX_TRANSCRIPT_LEN: usize = 0x1000_0000;

/// The client side of one handshake.
pub struct ClientHandshake {
    state: HandshakeState,
    transcript: Transcript,
    client_random: Vec<u8>,
    server_random: Vec<u8>,
    server_point: Vec<u8>,
    leaf: Option<Certificate>,
    master: Vec<u8>,
}

impl ClientHandshake {
    pub closed spec fn spec_state(&self) -> HandshakeState {
        self.state
    }

    pub closed spec fn spec_transcript(&self) -> Seq<u8> {
        self.transcript@
    }

    pub closed spec fn spec_client_random(&self) -> Seq<u8> {
        self.client_random@
    }

    pub closed spec fn spec_server_random(&self) -> Seq<u8> {
        self.server_random@
    }

    pub closed spec fn spec_server_point(&self) -> Seq<u8> {
        self.server_point@
    }

    pub closed spec fn spec_master(&self) -> Seq<u8> {
        self.master@
    }

    /// The server's leaf certificate, once its Certificate message has come.
    pub closed spec fn spec_leaf(&self) -> Option<CertificateModel> {
        match self.leaf {
            Some(c) => Some(c@),
            None => None,
        }
    }

    pub closed spec fn wf(&self) -> bool {
        &&& self.client_random@.len() == RANDOM_LEN
        &&& (self.state != HandshakeState::Start && self.state != HandshakeState::WaitServerHello)
            ==> self.server_random@.len() == RANDOM_LEN
        &&& self.transcript@.len() <= MAX_TRANSCRIPT_LEN
        &&& (self.state == HandshakeState::WaitChangeCipherSpecIn || self.state
            == HandshakeState::WaitFinished || self.state == HandshakeState::Established)
            ==> self.master@.len() == 48
    }

    /// Starts a handshake with the given client Random: the ClientHello to send.
    pub fn start(client_random: &[u8]) -> (r: (ClientHandshake, Vec<u8>))
        requires
            client_random@.len() == RANDOM_LEN,
        ensures
            r.0.wf(),
            r.0.spec_state() == HandshakeState::WaitServerHello,
            r.0.spec_client_random() == client_random@,
            r.1@ == message_header_bytes(HandshakeType::ClientHello, 57) + client_hello_body(
                client_random@,
            ),
            r.0.spec_transcript() == r.1@,
    {
        let body = client_hello_body_bytes(client_random);
        assert(body@.len() == 57);
        let mut msg = encode_message_header(HandshakeType::ClientHello, 57);
        let mut b = body;
        msg.append(&mut b);
        let mut transcript = Transcript::new();
        transcript.append(msg.as_slice());
        assert(Seq::<u8>::empty() + msg@ =~= msg@);
        let mut cr: Vec<u8> = Vec::new();
        let mut i: usize = 0;
        while i < RANDOM_LEN
            invariant
                i <= RANDOM_LEN,
                client_random@.len() == RANDOM_LEN,
                cr@ == client_random@.subrange(0, i as int),
            decreases RANDOM_LEN - i,
        {
            cr.push(client_random[i]);
            i = i + 1;
            assert(cr@ =~= client_random@.subrange(0, i as int));
        }
        assert(client_random@.subrange(0, RANDOM_LEN as int) =~= client_random@);
        let hs = ClientHandshake {
            state: HandshakeState::WaitServerHello,
            transcript,
            client_random: cr,
            server_random: Vec::new(),
            server_point: Vec::new(),
            leaf: None,
            master: Vec::new(),
        };
        (hs, msg)
    }

    pub fn state(&self) -> (r: HandshakeState)
        ensures
            r == self.spec_state(),
    {
        self.state
    }

    /// The server's leaf certificate, once its Certificate message has come.
    pub fn leaf_certificate(&self) -> (r: &Option<Certificate>)
        ensures
            match r {
                Some(c) => self.spec_leaf() == Some(c@),
                None => self.spec_leaf() is None,
            },
    {
        &self.leaf
    }

    /// The server's ephemeral point, once its ServerKeyExchange has come.
    pub fn server_point(&self) -> (r: &[u8])
        ensures
            r@ == self.spec_server_point(),
    {
        self.server_point.as_slice()
    }

    /// Takes one whole handshake message from the server. Where the state
    /// machine accepts it, the message joins the transcript and the action
    /// for the caller is returned.
    pub fn receive(&mut self, msg: &[u8]) -> (r: Result<HandshakeAction, TlsErrorKind>)
        requires
            old(self).wf(),
        ensures
            final(self).wf(),
            final(self).spec_client_random() == old(self).spec_client_random(),
            old(self).spec_transcript().len() + msg@.len() <= MAX_TRANSCRIPT_LEN ==> match server_event(
                msg@,
                old(self).spec_state() == HandshakeState::WaitFinished,
                finished_data(old(self).spec_master(), false, old(self).spec_transcript()),
            ) {
                Err(e) => r == Err::<HandshakeAction, TlsErrorKind>(e),
                Ok(ev) => match spec_step(old(self).spec_state(), ev) {
                    Err(e) => r == Err::<HandshakeAction, TlsErrorKind>(e),
                    Ok((s, a)) => r == Ok::<HandshakeAction, TlsErrorKind>(a) && final(self).spec_state() == s && final(self).spec_transcript() == old(self).spec_transcript() + msg@,
                },
            },
            old(self).spec_transcript().len() + msg@.len() > MAX_TRANSCRIPT_LEN ==> r == Err::<
                HandshakeAction,
                TlsErrorKind,
            >(TlsErrorKind::InternalError),
            r is Ok && old(self).spec_state() == HandshakeState::WaitServerHello ==> final(self).spec_server_random() == server_hello_of(body_of(msg@))->Ok_0,
            r is Ok && old(self).spec_state() == HandshakeState::WaitServerKeyExchange ==> final(self).spec_server_point() == server_key_exchange_of(body_of(msg@))->Ok_0,
            r is Ok && old(self).spec_state() == HandshakeState::WaitCertificate ==> final(self).spec_leaf() == Some(leaf_certificate_of(body_of(msg@))->Ok_0),
    {
        if msg.len() > MAX_TRANSCRIPT_LEN - self.transcript.as_bytes().len() {
            return Err(TlsErrorKind::InternalError);
        }
        if msg.len() < 4 {
            return Err(TlsErrorKind::DecodeError);
        }
        let (t, len) = match parse_message_header(&msg[0..4]) {
            Ok(h) => h,
            Err(e) => {
                return Err(e);
            },
        };
        if len as usize != msg.len() - 4 {
            return Err(TlsErrorKind::DecodeError);
        }
        let body = &msg[4..msg.len()];
        assert(body@ == body_of(msg@));
        let mut random: Option<Vec<u8>> = None;
        let mut point: Option<Vec<u8>> = None;
        let mut leaf: Option<Certificate> = None;
        let event = match t {
            HandshakeType::ServerHello => match parse_server_hello(body) {
                Ok(sr) => {
                    random = Some(sr);
                    HandshakeEvent::ServerHello
                },
                Err(e) => {
                    return Err(e);
                },
            },
            HandshakeType::Certificate => match parse_certificate_message(body) {
                Ok(c) => {
                    leaf = Some(c);
                    HandshakeEvent::Certificate
                },
                Err(e) => {
                    return Err(e);
                },
            },
            HandshakeType::ServerKeyExchange => match parse_server_key_exchange(body) {
                Ok(p) => {
                    point = Some(p);
                    HandshakeEvent::ServerKeyExchange
                },
                Err(e) => {
                    return Err(e);
                },
            },
            HandshakeType::ServerHelloDone => {
                if body.len() != 0 {
                    return Err(TlsErrorKind::DecodeError);
                }
                HandshakeEvent::ServerHelloDone
            },
            HandshakeType::Finished => {
                if self.state == HandshakeState::WaitFinished {
                    let expected = verify_data(
                        self.master.as_slice(),
                        false,
                        self.transcript.as_bytes(),
                    );
                    HandshakeEvent::Finished {
                        verified: verify_finished(expected.as_slice(), body),
                    }
                } else {
                    HandshakeEvent::Finished { verified: false }
                }
            },
            _ => HandshakeEvent::OtherHandshake,
        };
        let (next, action) = match step(self.state, event) {
            Ok(x) => x,
            Err(e) => {
                return Err(e);
            },
        };
        match random {
            Some(sr) => {
                self.server_random = sr;
            },
            None => {},
        }
        match point {
            Some(p) => {
                self.server_point = p;
            },
            None => {},
        }
        match leaf {
            Some(c) => {
                self.leaf = Some(c);
            },
            None => {},
        }
        self.state = next;
        self.transcript.append(msg);
        Ok(action)
    }

    /// After ServerHelloDone: the client's flight for its public point and
    /// the premaster secret (the shared P-256 X coordinate). The master
    /// secret is PRF(pms, "master secret", client_random ‖ server_random),
    /// the key block PRF(master, "key expansion", server_random ‖
    /// client_random), and the Finished covers the transcript up to and
    /// including ClientKeyExchange.
    pub fn client_flight(&mut self, client_point: &[u8], pms: &[u8]) -> (r: Result<
        ClientFlight,
        TlsErrorKind,
    >)
        requires
            old(self).wf(),
            client_point@.len() == POINT_LEN,
            pms@.len() == 32,
        ensures
            final(self).wf(),
            old(self).spec_state() != HandshakeState::WaitChangeCipherSpecOut ==> r == Err::<
                ClientFlight,
                TlsErrorKind,
            >(TlsErrorKind::UnexpectedMessage) && final(self).spec_state() == old(self).spec_state(),
            old(self).spec_state() == HandshakeState::WaitChangeCipherSpecOut && old(self).spec_transcript().len()
                <= MAX_TRANSCRIPT_LEN - 200 ==> r is Ok,
            r is Ok ==> ({
                let f = r->Ok_0;
                let cr = old(self).spec_client_random();
                let sr = old(self).spec_server_random();
                let master = prf(pms@, master_secret_label(), cr + sr, 48);
                let kb = prf(master, key_expansion_label(), sr + cr, 64);
                let cke = message_header_bytes(HandshakeType::ClientKeyExchange, 66)
                    + client_key_exchange_body(client_point@);
                let with_cke = old(self).spec_transcript() + cke;
                let fin = message_header_bytes(HandshakeType::Finished, 12) + finished_data(
                    master,
                    true,
                    with_cke,
                );
                &&& old(self).spec_state() == HandshakeState::WaitChangeCipherSpecOut
                &&& f.client_key_exchange@ == cke
                &&& f.finished@ == fin
                &&& f.client_write_key@ == kb.subrange(0, 32)
                &&& f.server_write_key@ == kb.subrange(32, 64)
                &&& final(self).spec_master() == master
                &&& final(self).spec_transcript() == with_cke + fin
                &&& final(self).spec_state() == HandshakeState::WaitChangeCipherSpecIn
            }),
    {
        if self.state != HandshakeState::WaitChangeCipherSpecOut {
            return Err(TlsErrorKind::UnexpectedMessage);
        }
        if self.server_random.len() != RANDOM_LEN || self.transcript.as_bytes().len() > MAX_TRANSCRIPT_LEN - 200 {
            return Err(TlsErrorKind::InternalError);
        }
        let (next, _) = match step(self.state, HandshakeEvent::ClientFlightSent) {
            Ok(x) => x,
            Err(e) => {
                return Err(e);
            },
        };
        let mut cke = encode_message_header(HandshakeType::ClientKeyExchange, 66);
        let mut cke_body = client_key_exchange_bytes(client_point);
        cke.append(&mut cke_body);
        self.transcript.append(cke.as_slice());
        let master = master_secret(pms, self.client_random.as_slice(), self.server_random.as_slice());
        let kb = key_block_bytes(master.as_slice(), self.server_random.as_slice(), self.client_random.as_slice());
        let (client_write_key, server_write_key) = split_key_block(kb.as_slice());
        let vd = verify_data(master.as_slice(), true, self.transcript.as_bytes());
        let mut fin = encode_message_header(HandshakeType::Finished, 12);
        let mut vd_bytes = vd;
        fin.append(&mut vd_bytes);
        self.transcript.append(fin.as_slice());
        self.master = master;
        self.state = next;
        Ok(
            ClientFlight {
                client_key_exchange: cke,
                finished: fin,
                client_write_key,
                server_write_key,
            },
        )
    }

    /// The server's ChangeCipherSpec: the caller installs the inbound key.
    pub fn change_cipher_spec(&mut self) -> (r: Result<HandshakeAction, TlsErrorKind>)
        requires
            old(self).wf(),
        ensures
            final(self).wf(),
            match spec_step(old(self).spec_state(), HandshakeEvent::ChangeCipherSpec) {
                Err(e) => r == Err::<HandshakeAction, TlsErrorKind>(e) && final(self).spec_state()
                    == old(self).spec_state(),
                Ok((s, a)) => r == Ok::<HandshakeAction, TlsErrorKind>(a) && final(self).spec_state() == s,
            },
            final(self).spec_transcript() == old(self).spec_transcript(),
            final(self).spec_master() == old(self).spec_master(),
    {
        match step(self.state, HandshakeEvent::ChangeCipherSpec) {
            Ok((next, action)) => {
                self.state = next;
                Ok(action)
            },
            Err(e) => Err(e),
        }
    }
}

} // verus!
