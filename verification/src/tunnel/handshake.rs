//! The handshake that starts a tunnel: `Noise_IKpsk2_25519_ChaChaPoly_BLAKE2s`.
use crate::bytes;
use crate::tunnel::crypto;
use crate::tunnel::error::{self, Error};
use crate::tunnel::keys::{PublicKey, SecretKey};
use crate::tunnel::noise::{self, NoiseStream};
use crate::tunnel::psk::Psk;
use vstd::prelude::*;

verus! {

broadcast use vstd::seq_lib::group_seq_properties;

/// The longest handshake message.
pub const MAX_HANDSHAKE_MSG: usize = 4096;

/// What both ends bind into the handshake: the protocol's name and version.
pub open spec fn prologue_bytes() -> Seq<u8> {
    // hyperion-vpn
    seq![104u8, 121, 112, 101, 114, 105, 111, 110, 45, 118, 112, 110] + bytes::be_bytes(
        crate::PROTOCOL_VERSION as nat,
        2,
    )
}

fn prologue() -> (r: [u8; 14])
    ensures
        r@ == prologue_bytes(),
{
    let v = bytes::u16_to_be(crate::PROTOCOL_VERSION);
    let r: [u8; 14] = [104, 121, 112, 101, 114, 105, 111, 110, 45, 118, 112, 110, v[0], v[1]];
    assert(r@ =~= prologue_bytes());
    r
}

/// The outcome of putting a length before a handshake message.
pub open spec fn framed(msg: Seq<u8>) -> Result<Seq<u8>, error::ErrorView> {
    if msg.len() > MAX_HANDSHAKE_MSG {
        Err(error::violation("handshake message too large"))
    } else {
        Ok(bytes::be_bytes(msg.len(), 2) + msg)
    }
}

/// The outcome of reading the length of a handshake message.
pub open spec fn announced(prefix: Seq<u8>) -> Result<nat, error::ErrorView> {
    let len = bytes::be_value(prefix);
    if len == 0 || len > MAX_HANDSHAKE_MSG {
        Err(error::violation("invalid handshake length"))
    } else {
        Ok(len)
    }
}

/// A message of some length that can be framed is announced with that length.
pub proof fn framing_round_trip(msg: Seq<u8>)
    requires
        0 < msg.len() <= MAX_HANDSHAKE_MSG,
    ensures
        framed(msg) matches Ok(f) && announced(f.take(2)) == Ok::<nat, error::ErrorView>(msg.len())
            && f.skip(2) == msg,
{
    let f = bytes::be_bytes(msg.len(), 2) + msg;
    bytes::pow256_bounds();
    bytes::be_round_trip(msg.len(), 2);
    assert(f.take(2) =~= bytes::be_bytes(msg.len(), 2));
    assert(f.skip(2) =~= msg);
}

/// Puts the length before a handshake message.
pub fn frame_handshake_msg(msg: &[u8]) -> (r: Result<Vec<u8>, Error>)
    ensures
        match r {
            Ok(f) => framed(msg@) == Ok::<Seq<u8>, error::ErrorView>(f@),
            Err(e) => framed(msg@) == Err::<Seq<u8>, error::ErrorView>(e@),
        },
{
    if msg.len() > MAX_HANDSHAKE_MSG {
        return Err(Error::protocol("handshake message too large"));
    }
    let prefix = bytes::u16_to_be(msg.len() as u16);
    let mut out: Vec<u8> = Vec::new();
    out.push(prefix[0]);
    out.push(prefix[1]);
    out.extend_from_slice(msg);
    assert(out@ =~= bytes::be_bytes(msg@.len(), 2) + msg@);
    Ok(out)
}

/// Reads the length of a handshake message.
pub fn handshake_msg_len(prefix: [u8; 2]) -> (r: Result<usize, Error>)
    ensures
        match r {
            Ok(n) => announced(prefix@) == Ok::<nat, error::ErrorView>(n as nat),
            Err(e) => announced(prefix@) == Err::<nat, error::ErrorView>(e@),
        },
{
    let len: u16 = bytes::u16_from_be(prefix[0], prefix[1]);
    assert(prefix@ =~= seq![prefix[0], prefix[1]]);
    if len == 0 || len as usize > MAX_HANDSHAKE_MSG {
        return Err(Error::protocol("invalid handshake length"));
    }
    Ok(len as usize)
}

/// What an admin brings to a handshake.
pub struct ClientHandshake<'a> {
    pub static_secret: &'a SecretKey,
    pub server_pubkey: &'a PublicKey,
    pub psk: &'a Psk,
}

/// A handshake of which the first message is out.
pub struct ClientStarted<'a> {
    handshake: &'a ClientHandshake<'a>,
    ephemeral: SecretKey,
}

/// What the initiator has after the second message: a transport that sends with the first key and
/// receives with the second.
pub open spec fn finished(
    secret: Seq<u8>,
    server: Seq<u8>,
    psk: Seq<u8>,
    ephemeral: Seq<u8>,
    second: Seq<u8>,
) -> Result<noise::TransportView, error::ErrorView> {
    match crypto::noise_finished(prologue_bytes(), secret, server, psk, ephemeral, second) {
        Some((to_server, to_client)) => Ok(fresh(to_server, to_client)),
        None => Err(error::ErrorView::Handshake),
    }
}

/// A transport at its start.
pub open spec fn fresh(send_key: Seq<u8>, recv_key: Seq<u8>) -> noise::TransportView {
    noise::TransportView {
        send_key,
        send_n: 0,
        recv_key,
        recv_n: 0,
        pending: Seq::empty(),
        raw: Seq::empty(),
        plain: Seq::empty(),
    }
}

/// The first message of an admin with these keys.
pub open spec fn first_message(secret: Seq<u8>, server: Seq<u8>, ephemeral: Seq<u8>) -> Seq<u8> {
    crypto::noise_first_message(prologue_bytes(), secret, server, ephemeral)
}

/// Whom a server with this secret key takes a first message to come from.
pub open spec fn sender(secret: Seq<u8>, first: Seq<u8>) -> Option<Seq<u8>> {
    crypto::noise_initiator_of(prologue_bytes(), secret, first)
}

/// `first` opens a handshake of this admin with this ephemeral key: a server with the pinned key
/// takes it to come from this admin.
pub open spec fn opening(client: ClientHandshake, ephemeral: Seq<u8>, first: Seq<u8>) -> bool {
    &&& first == first_message(client.static_secret@, client.server_pubkey@, ephemeral)
    &&& first.len() > 0
    &&& forall|server: Seq<u8>|
        server.len() == 32 && crypto::x25519_public(server) == client.server_pubkey@
            ==> #[trigger] sender(server, first) == Some(
            crypto::x25519_public(client.static_secret@),
        )
}

impl<'a> ClientStarted<'a> {
    pub closed spec fn secret(&self) -> Seq<u8> {
        self.handshake.static_secret@
    }

    pub closed spec fn server(&self) -> Seq<u8> {
        self.handshake.server_pubkey@
    }

    pub closed spec fn psk(&self) -> Seq<u8> {
        self.handshake.psk@
    }

    pub closed spec fn ephemeral(&self) -> Seq<u8> {
        self.ephemeral@
    }

    /// Reads the second message and starts the transport.
    pub fn finish(&self, second: &[u8]) -> (r: Result<NoiseStream, Error>)
        ensures
            match r {
                Ok(t) => t.wf() && finished(
                    self.secret(),
                    self.server(),
                    self.psk(),
                    self.ephemeral(),
                    second@,
                ) == Ok::<noise::TransportView, error::ErrorView>(t@),
                Err(e) => finished(
                    self.secret(),
                    self.server(),
                    self.psk(),
                    self.ephemeral(),
                    second@,
                ) == Err::<noise::TransportView, error::ErrorView>(e@),
            },
    {
        let p = prologue();
        match crypto::initiator_second(
            p.as_slice(),
            self.handshake.static_secret.as_bytes(),
            self.handshake.server_pubkey.as_bytes(),
            self.handshake.psk.as_bytes(),
            self.ephemeral.as_bytes(),
            second,
        ) {
            Some((to_server, to_client)) => Ok(NoiseStream::new(to_server, to_client)),
            None => Err(Error::Handshake),
        }
    }
}

impl<'a> ClientHandshake<'a> {
    /// Starts the handshake with the given ephemeral key: the framed first message, which the
    /// server with the pinned key takes to come from this admin.
    pub fn start_with(&'a self, ephemeral: SecretKey) -> (r: Result<
        (ClientStarted<'a>, Vec<u8>),
        Error,
    >)
        ensures
            r matches Ok((started, out)) && {
                let first = first_message(self.static_secret@, self.server_pubkey@, ephemeral@);
                &&& started.secret() == self.static_secret@
                &&& started.server() == self.server_pubkey@
                &&& started.psk() == self.psk@
                &&& started.ephemeral() == ephemeral@
                &&& framed(first) == Ok::<Seq<u8>, error::ErrorView>(out@)
                &&& opening(*self, ephemeral@, first)
            },
    {
        let p = prologue();
        match crypto::initiator_first(
            p.as_slice(),
            self.static_secret.as_bytes(),
            self.server_pubkey.as_bytes(),
            ephemeral.as_bytes(),
        ) {
            Some(first) => {
                let out = frame_handshake_msg(first.as_slice())?;
                Ok((ClientStarted { handshake: self, ephemeral }, out))
            },
            None => Err(Error::Handshake),
        }
    }

    /// Starts the handshake with a new ephemeral key.
    pub fn start(&'a self) -> (r: Result<(ClientStarted<'a>, Vec<u8>), Error>)
        ensures
            r matches Ok((started, out)) && {
                let first = first_message(
                    self.static_secret@,
                    self.server_pubkey@,
                    started.ephemeral(),
                );
                &&& started.secret() == self.static_secret@
                &&& started.server() == self.server_pubkey@
                &&& started.psk() == self.psk@
                &&& framed(first) == Ok::<Seq<u8>, error::ErrorView>(out@)
                &&& opening(*self, started.ephemeral(), first)
            },
    {
        self.start_with(SecretKey::from_bytes(crypto::x25519_generate()))
    }
}

/// What a server brings to a handshake.
pub struct ServerHandshake<'a> {
    pub static_secret: &'a SecretKey,
    pub psk: &'a Psk,
    pub allowed_admins: &'a [PublicKey],
}

/// Whether a public key is on a list.
pub open spec fn listed(admins: Seq<PublicKey>, admin: Seq<u8>) -> bool {
    exists|i: int| 0 <= i < admins.len() && (#[trigger] admins[i])@ == admin
}

/// Whether a public key is on a list.
pub fn is_listed(admins: &[PublicKey], admin: &PublicKey) -> (r: bool)
    ensures
        r == listed(admins@, admin@),
{
    let mut i: usize = 0;
    while i < admins.len()
        invariant
            i <= admins@.len(),
            forall|j: int| 0 <= j < i ==> (#[trigger] admins@[j])@ != admin@,
        decreases admins@.len() - i,
    {
        if admins[i].same(admin) {
            assert(admins@[i as int]@ == admin@);
            return true;
        }
        i = i + 1;
    }
    false
}

/// What a server has after an accepted first message.
pub struct Accepted {
    /// The framed second message.
    pub reply: Vec<u8>,
    pub stream: NoiseStream,
    pub admin: PublicKey,
}

/// What a server makes of a first message: the second message, the two keys and the admin.
pub open spec fn accepted(
    secret: Seq<u8>,
    psk: Seq<u8>,
    admins: Seq<PublicKey>,
    ephemeral: Seq<u8>,
    first: Seq<u8>,
) -> Result<(Seq<u8>, noise::TransportView, Seq<u8>), error::ErrorView> {
    match sender(secret, first) {
        None => Err(error::ErrorView::Handshake),
        Some(admin) => if !listed(admins, admin) {
            Err(error::ErrorView::Unauthorized)
        } else {
            match crypto::noise_second_message(prologue_bytes(), secret, psk, ephemeral, first) {
                None => Err(error::ErrorView::Handshake),
                Some((second, to_server, to_client)) => Ok(
                    (second, fresh(to_client, to_server), admin),
                ),
            }
        },
    }
}

/// Both ends of one tunnel: each receives with the key that the other sends with.
pub open spec fn mirrored(a: noise::TransportView, b: noise::TransportView) -> bool {
    a.send_key == b.recv_key && a.recv_key == b.send_key && a.send_n == b.recv_n && a.recv_n
        == b.send_n
}

/// What a server gives back for an accepted first message. An admin that sent that message to this
/// server under the same pre-shared key, and finishes with the answer, has the other end of the
/// tunnel.
pub open spec fn answered(
    hs: ServerHandshake,
    first: Seq<u8>,
    ephemeral: Seq<u8>,
    a: Accepted,
) -> bool {
    &&& a.stream.wf()
    &&& accepted(hs.static_secret@, hs.psk@, hs.allowed_admins@, ephemeral, first) matches Ok(
        (second, transport, admin),
    ) && {
        &&& framed(second) == Ok::<Seq<u8>, error::ErrorView>(a.reply@)
        &&& second.len() > 0
        &&& a.stream@ == transport
        &&& a.admin@ == admin
        &&& forall|secret: Seq<u8>, server: Seq<u8>, e: Seq<u8>|
            secret.len() == 32 && e.len() == 32 && server == crypto::x25519_public(
                hs.static_secret@,
            ) && first_message(secret, server, e) == first ==> (#[trigger] finished(
                secret,
                server,
                hs.psk@,
                e,
                second,
            ) matches Ok(t) && mirrored(t, transport))
    }
}

/// Why a server turns a first message away, if it does: it is not authentic, or its sender is not
/// on the list.
pub open spec fn turned_away(hs: ServerHandshake, first: Seq<u8>) -> Option<error::ErrorView> {
    match sender(hs.static_secret@, first) {
        None => Some(error::ErrorView::Handshake),
        Some(admin) => if listed(hs.allowed_admins@, admin) {
            None
        } else {
            Some(error::ErrorView::Unauthorized)
        },
    }
}

impl<'a> ServerHandshake<'a> {
    /// Answers a first message, with the given ephemeral key.
    pub fn accept_with(&self, first: &[u8], ephemeral: &SecretKey) -> (r: Result<Accepted, Error>)
        ensures
            match r {
                Ok(a) => turned_away(*self, first@) is None && answered(
                    *self,
                    first@,
                    ephemeral@,
                    a,
                ),
                Err(e) => turned_away(*self, first@) == Some(e@),
            },
    {
        let p = prologue();
        let admin = match crypto::responder_first(
            p.as_slice(),
            self.static_secret.as_bytes(),
            first,
        ) {
            Some(k) => PublicKey::from_bytes(k),
            None => {
                return Err(Error::Handshake);
            },
        };
        if !is_listed(self.allowed_admins, &admin) {
            return Err(Error::Unauthorized);
        }
        match crypto::responder_second(
            p.as_slice(),
            self.static_secret.as_bytes(),
            self.psk.as_bytes(),
            ephemeral.as_bytes(),
            first,
        ) {
            Some((second, to_server, to_client)) => {
                let reply = frame_handshake_msg(second.as_slice())?;
                let stream = NoiseStream::new(to_client, to_server);
                Ok(Accepted { reply, stream, admin })
            },
            None => Err(Error::Handshake),
        }
    }

    /// Answers a first message, with a new ephemeral key.
    pub fn accept(&self, first: &[u8]) -> (r: Result<Accepted, Error>)
        ensures
            match r {
                Ok(a) => turned_away(*self, first@) is None && exists|ephemeral: Seq<u8>|
                    #[trigger] answered(*self, first@, ephemeral, a),
                Err(e) => turned_away(*self, first@) == Some(e@),
            },
    {
        let ephemeral = SecretKey::from_bytes(crypto::x25519_generate());
        self.accept_with(first, &ephemeral)
    }
}

/// A server whose key is pinned lets an admin in if the admin's key is on its list, and turns the
/// admin away as unauthorized if it is not.
pub proof fn listed_admins_are_let_in(
    client: ClientHandshake,
    server: ServerHandshake,
    client_ephemeral: Seq<u8>,
    first: Seq<u8>,
)
    requires
        server.static_secret@.len() == 32,
        client.server_pubkey@ == crypto::x25519_public(server.static_secret@),
        opening(client, client_ephemeral, first),
    ensures
        turned_away(server, first) == (if listed(
            server.allowed_admins@,
            crypto::x25519_public(client.static_secret@),
        ) {
            None
        } else {
            Some(error::ErrorView::Unauthorized)
        }),
{
    assert(sender(server.static_secret@, first) == Some(
        crypto::x25519_public(client.static_secret@),
    ));
}

/// A server whose key is pinned lets an admin in exactly if the admin's key stands somewhere on its
/// list; it turns every other one away as unauthorized, and a message that is not authentic as a
/// failed handshake.
pub proof fn anyone_on_the_list_is_let_in(
    client: ClientHandshake,
    server: ServerHandshake,
    client_ephemeral: Seq<u8>,
    first: Seq<u8>,
    other: Seq<u8>,
)
    requires
        server.static_secret@.len() == 32,
        client.server_pubkey@ == crypto::x25519_public(server.static_secret@),
        opening(client, client_ephemeral, first),
    ensures
        ({
            let admin = crypto::x25519_public(client.static_secret@);
            let admins = server.allowed_admins@;
            &&& (exists|i: int| 0 <= i < admins.len() && (#[trigger] admins[i])@ == admin)
                ==> turned_away(server, first) is None
            &&& (forall|i: int| 0 <= i < admins.len() ==> (#[trigger] admins[i])@ != admin)
                ==> turned_away(server, first) == Some(error::ErrorView::Unauthorized)
        }),
        crypto::noise_initiator_of(prologue_bytes(), server.static_secret@, other) is None
            ==> turned_away(server, other) == Some(error::ErrorView::Handshake),
{
    listed_admins_are_let_in(client, server, client_ephemeral, first);
}

/// Both ends bind the name of the protocol and its version into the handshake: twelve letters, and
/// the version in two bytes.
pub proof fn what_both_ends_bind()
    ensures
        prologue_bytes() == Seq::new("hyperion-vpn"@.len(), |i: int| "hyperion-vpn"@[i] as u8)
            + seq![0u8, 1u8],
{
    reveal_strlit("hyperion-vpn");
    bytes::two_bytes(0, 1);
    assert(prologue_bytes() =~= Seq::new(
        "hyperion-vpn"@.len(),
        |i: int| "hyperion-vpn"@[i] as u8,
    ) + seq![0u8, 1u8]);
}

/// A handshake message of up to 4096 bytes goes out with its length in two bytes before it, the
/// higher one first; a longer one does not go out. Two bytes announce the length that they hold if it
/// is from 1 to 4096.
pub proof fn lengths_of_handshake_messages(msg: Seq<u8>, hi: u8, lo: u8)
    ensures
        msg.len() <= 4096 ==> framed(msg) == Ok::<Seq<u8>, error::ErrorView>(
            seq![(msg.len() / 256) as u8, (msg.len() % 256) as u8] + msg,
        ),
        msg.len() > 4096 ==> framed(msg) is Err,
        1 <= 256 * hi + lo <= 4096 ==> announced(seq![hi, lo]) == Ok::<nat, error::ErrorView>(
            (256 * hi + lo) as nat,
        ),
        !(1 <= 256 * hi + lo <= 4096) ==> announced(seq![hi, lo]) is Err,
{
    bytes::two_bytes(hi, lo);
    if msg.len() <= 4096 {
        bytes::two_bytes((msg.len() / 256) as u8, (msg.len() % 256) as u8);
    }
}

/// Each end starts with fresh counters and nothing in its buffers, and sends with the key of its own
/// direction: the admin with the first key that the handshake gives, the server with the second.
pub proof fn each_end_has_its_direction(
    secret: Seq<u8>,
    server: Seq<u8>,
    psk: Seq<u8>,
    admins: Seq<PublicKey>,
    ephemeral: Seq<u8>,
    first: Seq<u8>,
    second: Seq<u8>,
)
    ensures
        crypto::noise_finished(prologue_bytes(), secret, server, psk, ephemeral, second) matches Some(
            (a, b),
        ) ==> (finished(secret, server, psk, ephemeral, second) matches Ok(t) && t.send_key == a
            && t.recv_key == b && t.send_n == 0 && t.recv_n == 0 && t.pending.len() == 0
            && t.raw.len() == 0 && t.plain.len() == 0),
        crypto::noise_finished(prologue_bytes(), secret, server, psk, ephemeral, second) is None
            ==> finished(secret, server, psk, ephemeral, second) == Err::<
            noise::TransportView,
            error::ErrorView,
        >(error::ErrorView::Handshake),
        accepted(secret, psk, admins, ephemeral, first) matches Ok((reply, t, admin)) ==> {
            &&& crypto::noise_initiator_of(prologue_bytes(), secret, first) == Some(admin)
            &&& exists|i: int| 0 <= i < admins.len() && (#[trigger] admins[i])@ == admin
            &&& crypto::noise_second_message(prologue_bytes(), secret, psk, ephemeral, first)
                == Some((reply, t.recv_key, t.send_key))
            &&& t.send_n == 0 && t.recv_n == 0 && t.pending.len() == 0 && t.raw.len() == 0
                && t.plain.len() == 0
        },
{
}

/// What a server has after an accepted first message: the key of the admin that sent it, which is on
/// its list; a second message, with its length before it; and a transport with fresh counters, that
/// sends and receives with the two keys that came with that message.
pub proof fn what_a_server_has_then(
    hs: ServerHandshake,
    first: Seq<u8>,
    ephemeral: Seq<u8>,
    a: Accepted,
)
    requires
        answered(hs, first, ephemeral, a),
    ensures
        a.stream.wf(),
        crypto::noise_initiator_of(prologue_bytes(), hs.static_secret@, first) == Some(a.admin@),
        exists|i: int|
            0 <= i < hs.allowed_admins@.len() && (#[trigger] hs.allowed_admins@[i])@ == a.admin@,
        crypto::noise_second_message(
            prologue_bytes(),
            hs.static_secret@,
            hs.psk@,
            ephemeral,
            first,
        ) matches Some((second, to_server, to_client)) && {
            &&& second.len() <= 4096
            &&& a.reply@ == seq![(second.len() / 256) as u8, (second.len() % 256) as u8] + second
            &&& a.stream@.recv_key == to_server && a.stream@.send_key == to_client
            &&& a.stream@.send_n == 0 && a.stream@.recv_n == 0
            &&& a.stream@.pending.len() == 0 && a.stream@.raw.len() == 0 && a.stream@.plain.len()
                == 0
        },
{
    let (second, to_server, to_client) = crypto::noise_second_message(
        prologue_bytes(),
        hs.static_secret@,
        hs.psk@,
        ephemeral,
        first,
    )->0;
    lengths_of_handshake_messages(second, 0, 0);
}

/// An admin and a server that agree on the pre-shared key, with the server's key pinned, end up
/// with the two ends of one tunnel once the server has let the admin in.
pub proof fn handshake_agreement(
    client: ClientHandshake,
    server: ServerHandshake,
    client_ephemeral: Seq<u8>,
    server_ephemeral: Seq<u8>,
    first: Seq<u8>,
    a: Accepted,
)
    requires
        client.static_secret@.len() == 32,
        client_ephemeral.len() == 32,
        client.server_pubkey@ == crypto::x25519_public(server.static_secret@),
        client.psk@ == server.psk@,
        opening(client, client_ephemeral, first),
        answered(server, first, server_ephemeral, a),
    ensures
        exists|second: Seq<u8>|
            framed(second) == Ok::<Seq<u8>, error::ErrorView>(a.reply@) && (#[trigger] finished(
                client.static_secret@,
                client.server_pubkey@,
                client.psk@,
                client_ephemeral,
                second,
            ) matches Ok(t) && mirrored(t, a.stream@)),
{
    let second = accepted(
        server.static_secret@,
        server.psk@,
        server.allowed_admins@,
        server_ephemeral,
        first,
    )->Ok_0.0;
    assert(finished(
        client.static_secret@,
        client.server_pubkey@,
        client.psk@,
        client_ephemeral,
        second,
    ) is Ok);
}

} // verus!
