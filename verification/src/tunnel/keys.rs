//! X25519 keys and their Base64 form.
use crate::bytes;
use crate::text;
use crate::tunnel::error::{self, Error};
use crate::tunnel::{crypto, encoding};
use vstd::prelude::*;

verus! {

broadcast use vstd::seq_lib::group_seq_properties;

pub const KEY_LEN: usize = 32;

/// A static secret key.
pub struct SecretKey([u8; 32]);

impl View for SecretKey {
    type V = Seq<u8>;

    closed spec fn view(&self) -> Seq<u8> {
        self.0@
    }
}

impl Clone for SecretKey {
    fn clone(&self) -> (r: Self)
        ensures
            r@ == self@,
    {
        SecretKey(self.0)
    }
}

impl Drop for SecretKey {
    fn drop(&mut self)
        opens_invariants none
        no_unwind
    {
        crypto::zeroize_bytes(&mut self.0);
    }
}

/// The outcome of reading 32 bytes from a text in Base64, with white space around it allowed.
pub open spec fn bytes32_of(s: Seq<char>, bad: &str, short: &str) -> Result<
    Seq<u8>,
    error::ErrorView,
> {
    match encoding::base64_bytes(text::trimmed(s)) {
        None => Err(error::violation(bad)),
        Some(b) => if b.len() == 32 {
            Ok(b)
        } else {
            Err(error::violation(short))
        },
    }
}

/// The outcome of reading a key from a text.
pub open spec fn key_of(s: Seq<char>) -> Result<Seq<u8>, error::ErrorView> {
    bytes32_of(s, "invalid base64 key", "key must be 32 bytes")
}

/// The Base64 form of 32 bytes reads back as those bytes.
pub proof fn bytes32_round_trip(k: Seq<u8>, bad: &str, short: &str)
    requires
        k.len() == 32,
    ensures
        bytes32_of(encoding::base64(k), bad, short) == Ok::<Seq<u8>, error::ErrorView>(k),
{
    let t = encoding::base64(k);
    encoding::base64_shape(k);
    encoding::base64_round_trip(k);
    assert(encoding::is_base64_char(t[0]));
    assert(encoding::is_base64_char(t[t.len() - 1]));
    text::trimmed_is_identity(t);
}

/// Bytes in Base64, with spaces, tabs and line ends around them, are read exactly if there are 32 of
/// them, as those bytes; a file that holds them on a line of its own is such a text. With another
/// number of bytes the text is refused.
pub proof fn bytes32_are_read(b: Seq<u8>, front: Seq<char>, back: Seq<char>, bad: &str, short: &str)
    requires
        forall|i: int|
            0 <= i < front.len() ==> (#[trigger] front[i] == ' ' || front[i] == '\t' || front[i]
                == '\n' || front[i] == '\r'),
        forall|i: int|
            0 <= i < back.len() ==> (#[trigger] back[i] == ' ' || back[i] == '\t' || back[i]
                == '\n' || back[i] == '\r'),
    ensures
        b.len() == 32 ==> bytes32_of(front + encoding::base64(b) + back, bad, short) == Ok::<
            Seq<u8>,
            error::ErrorView,
        >(b),
        b.len() == 32 ==> bytes32_of(encoding::base64(b).push('\n'), bad, short) == Ok::<
            Seq<u8>,
            error::ErrorView,
        >(b),
        b.len() != 32 ==> bytes32_of(front + encoding::base64(b) + back, bad, short) == Err::<
            Seq<u8>,
            error::ErrorView,
        >(error::ErrorView::Protocol(short@)),
{
    let t = encoding::base64(b);
    encoding::base64_shape(b);
    encoding::base64_round_trip(b);
    if t.len() > 0 {
        assert(encoding::is_base64_char(t[0]));
        assert(encoding::is_base64_char(t[t.len() - 1]));
    }
    text::trimming_takes_the_ends(front, t, back);
    text::trimming_takes_the_ends(Seq::empty(), t, seq!['\n']);
    assert(t.push('\n') =~= Seq::<char>::empty() + t + seq!['\n']);
}

/// What is read as 32 bytes is those bytes in Base64, but for white space around them; a text whose
/// middle is no Base64 is refused.
pub proof fn only_bytes32_are_read(s: Seq<char>, bad: &str, short: &str)
    ensures
        bytes32_of(s, bad, short) matches Ok(b) ==> b.len() == 32 && text::trimmed(s)
            == encoding::base64(b),
        (forall|b: Seq<u8>| #[trigger] encoding::base64(b) != text::trimmed(s)) ==> bytes32_of(
            s,
            bad,
            short,
        ) == Err::<Seq<u8>, error::ErrorView>(error::ErrorView::Protocol(bad@)),
{
}

/// A key in Base64 reads back from the file that it was written to, on a line of its own.
pub proof fn key_file_reads_back(k: Seq<u8>)
    requires
        k.len() == 32,
    ensures
        key_of(encoding::base64(k)) == Ok::<Seq<u8>, error::ErrorView>(k),
        key_of(encoding::base64(k).push('\n')) == Ok::<Seq<u8>, error::ErrorView>(k),
{
    bytes32_are_read(
        k,
        Seq::empty(),
        Seq::empty(),
        "invalid base64 key",
        "key must be 32 bytes",
    );
    bytes32_round_trip(k, "invalid base64 key", "key must be 32 bytes");
}

/// Reads 32 bytes from a text in Base64.
pub(crate) fn decode32(s: &str, bad: &str, short: &str) -> (r: Result<[u8; 32], Error>)
    ensures
        match r {
            Ok(k) => bytes32_of(s@, bad, short) == Ok::<Seq<u8>, error::ErrorView>(k@),
            Err(e) => bytes32_of(s@, bad, short) == Err::<Seq<u8>, error::ErrorView>(e@),
        },
{
    match encoding::decode(text::trim(s)) {
        None => Err(Error::protocol(bad)),
        Some(raw) => {
            if raw.len() != 32 {
                return Err(Error::protocol(short));
            }
            let mut out: [u8; 32] = [0u8; 32];
            let mut i: usize = 0;
            while i < 32
                invariant
                    i <= 32,
                    raw@.len() == 32,
                    out@.take(i as int) == raw@.take(i as int),
                decreases 32 - i,
            {
                let ghost before = out@;
                out[i] = raw[i];
                assert(out@.take(i + 1) =~= before.take(i as int).push(raw@[i as int]));
                assert(raw@.take(i + 1) =~= raw@.take(i as int).push(raw@[i as int]));
                i = i + 1;
            }
            assert(out@ =~= out@.take(32));
            assert(raw@ =~= raw@.take(32));
            Ok(out)
        },
    }
}

impl SecretKey {
    pub fn from_bytes(b: [u8; 32]) -> (r: Self)
        ensures
            r@ == b@,
    {
        SecretKey(b)
    }

    pub fn as_bytes(&self) -> (r: &[u8; 32])
        ensures
            r@ == self@,
    {
        &self.0
    }

    pub fn to_base64(&self) -> (r: String)
        ensures
            r@ == encoding::base64(self@),
            key_of(r@) == Ok::<Seq<u8>, error::ErrorView>(self@),
    {
        proof {
            bytes32_round_trip(self@, "invalid base64 key", "key must be 32 bytes");
        }
        encoding::base64_encode(self.0.as_slice())
    }

    pub fn from_base64(s: &str) -> (r: Result<Self, Error>)
        ensures
            match r {
                Ok(k) => key_of(s@) == Ok::<Seq<u8>, error::ErrorView>(k@),
                Err(e) => key_of(s@) == Err::<Seq<u8>, error::ErrorView>(e@),
            },
    {
        match decode32(s, "invalid base64 key", "key must be 32 bytes") {
            Ok(b) => Ok(SecretKey(b)),
            Err(e) => Err(e),
        }
    }

    /// The public key that belongs to this secret key.
    pub fn public_key(&self) -> (r: PublicKey)
        ensures
            r@ == crypto::x25519_public(self@),
    {
        PublicKey(crypto::x25519_public_key(&self.0))
    }
}

/// A static public key.
#[derive(Clone, Copy, Debug, PartialEq, Eq)]
pub struct PublicKey([u8; 32]);

impl View for PublicKey {
    type V = Seq<u8>;

    closed spec fn view(&self) -> Seq<u8> {
        self.0@
    }
}

impl PublicKey {
    pub fn from_bytes(b: [u8; 32]) -> (r: Self)
        ensures
            r@ == b@,
    {
        PublicKey(b)
    }

    pub fn to_bytes(&self) -> (r: [u8; 32])
        ensures
            r@ == self@,
    {
        self.0
    }

    pub fn as_bytes(&self) -> (r: &[u8; 32])
        ensures
            r@ == self@,
    {
        &self.0
    }

    pub fn to_base64(&self) -> (r: String)
        ensures
            r@ == encoding::base64(self@),
            key_of(r@) == Ok::<Seq<u8>, error::ErrorView>(self@),
    {
        proof {
            bytes32_round_trip(self@, "invalid base64 key", "key must be 32 bytes");
        }
        encoding::base64_encode(self.0.as_slice())
    }

    pub fn from_base64(s: &str) -> (r: Result<Self, Error>)
        ensures
            match r {
                Ok(k) => key_of(s@) == Ok::<Seq<u8>, error::ErrorView>(k@),
                Err(e) => key_of(s@) == Err::<Seq<u8>, error::ErrorView>(e@),
            },
    {
        match decode32(s, "invalid base64 key", "key must be 32 bytes") {
            Ok(b) => Ok(PublicKey(b)),
            Err(e) => Err(e),
        }
    }

    /// Whether two public keys are the same.
    pub fn same(&self, other: &PublicKey) -> (r: bool)
        ensures
            r == (self@ == other@),
    {
        bytes::same(self.0.as_slice(), other.0.as_slice())
    }
}

/// A secret key with its public key.
pub struct Keypair {
    pub secret: SecretKey,
    pub public: PublicKey,
}

impl Keypair {
    /// A new key pair. Nothing is said of which one.
    pub fn generate() -> (r: Self)
        ensures
            r.public@ == crypto::x25519_public(r.secret@),
            r.secret@.len() == 32,
            r.public@.len() == 32,
    {
        let secret = SecretKey(crypto::x25519_generate());
        let public = secret.public_key();
        Keypair { secret, public }
    }
}

} // verus!
