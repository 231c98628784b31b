//! The encrypted transport: sealed frames over a byte stream.
use crate::bytes;
use crate::tunnel::crypto;
use vstd::prelude::*;

verus! {

broadcast use vstd::seq_lib::group_seq_properties;

/// The longest plaintext that one frame carries.
pub const MAX_PLAINTEXT: usize = 16384;

/// The longest ciphertext of a frame: a full plaintext and its tag.
pub const MAX_CIPHERTEXT: usize = 16400;

pub const TAG_LEN: usize = 16;

pub const LEN_PREFIX: usize = 2;

/// A frame: the ciphertext's length in two bytes, then the ciphertext.
pub open spec fn frame_bytes(ciphertext: Seq<u8>) -> Seq<u8> {
    bytes::be_bytes(ciphertext.len(), 2) + ciphertext
}

/// The frame that carries `chunk` at counter `n`.
pub open spec fn frame_of(key: Seq<u8>, n: u64, chunk: Seq<u8>) -> Seq<u8> {
    frame_bytes(crypto::noise_sealed(key, n, chunk))
}

/// `frame` is what a sender with `key` puts on the wire for `chunk` at counter `n`, and it can be
/// opened there.
pub open spec fn carries(key: Seq<u8>, n: u64, chunk: Seq<u8>, frame: Seq<u8>) -> bool {
    let sealed = crypto::noise_sealed(key, n, chunk);
    &&& frame == frame_of(key, n, chunk)
    &&& chunk.len() <= MAX_PLAINTEXT
    &&& sealed.len() == chunk.len() + 16
    &&& crypto::noise_opened(key, n, sealed) == Some(chunk)
}

/// The frames for `chunks`, the first of them at counter `n`, one after the other.
pub open spec fn wire(key: Seq<u8>, n: u64, chunks: Seq<Seq<u8>>) -> Seq<u8>
    decreases chunks.len(),
{
    if chunks.len() == 0 {
        Seq::empty()
    } else {
        frame_of(key, n, chunks[0]) + wire(key, (n + 1) as u64, chunks.skip(1))
    }
}

/// The chunks one after the other.
pub open spec fn flat(chunks: Seq<Seq<u8>>) -> Seq<u8>
    decreases chunks.len(),
{
    if chunks.len() == 0 {
        Seq::empty()
    } else {
        chunks[0] + flat(chunks.skip(1))
    }
}

/// What the bytes received so far begin with.
pub enum Front {
    /// Not even a length.
    Short,
    /// A length that no frame has.
    BadLength,
    /// A frame of which some bytes are missing.
    Partial,
    /// A whole frame, this many bytes long.
    Whole(int),
}

/// What `raw` begins with.
pub open spec fn front(raw: Seq<u8>) -> Front {
    let len = bytes::be_value(raw.take(2));
    if raw.len() < 2 {
        Front::Short
    } else if len < 16 || len > 16400 {
        Front::BadLength
    } else if raw.len() < 2 + len {
        Front::Partial
    } else {
        Front::Whole(2 + len as int)
    }
}

/// All the plaintext that can be had of `raw`, from counter `n` on.
pub open spec fn plaintext(key: Seq<u8>, n: u64, raw: Seq<u8>) -> Seq<u8>
    decreases raw.len(),
{
    match front(raw) {
        Front::Whole(len) => match crypto::noise_opened(key, n, raw.subrange(2, len)) {
            Some(p) => p + plaintext(key, (n + 1) as u64, raw.skip(len)),
            None => Seq::empty(),
        },
        _ => Seq::empty(),
    }
}

/// Why a read fails.
#[derive(Clone, Copy, Debug, PartialEq, Eq, Structural)]
pub enum ReadFailure {
    /// The length of a frame is out of range.
    InvalidFrameLength,
    /// A frame's tag is wrong.
    DecryptionFailed,
}

impl ReadFailure {
    /// The text shown for this failure.
    pub fn message(&self) -> (r: &'static str)
        ensures
            r@ == match *self {
                ReadFailure::InvalidFrameLength => "invalid frame length"@,
                ReadFailure::DecryptionFailed => "decryption failed"@,
            },
    {
        match self {
            ReadFailure::InvalidFrameLength => "invalid frame length",
            ReadFailure::DecryptionFailed => "decryption failed",
        }
    }
}

/// What the end of input means to a reader.
#[derive(Clone, Copy, Debug, PartialEq, Eq, Structural)]
pub enum EndOfInput {
    /// The stream ends here.
    Clean,
    /// The stream ends inside a frame.
    UnexpectedEof,
}

/// What a reader does next.
pub enum ReadAction {
    /// Hand these bytes on.
    Deliver(Vec<u8>),
    /// Get more bytes from below.
    Fill,
    /// Give up.
    Fail(ReadFailure),
}

/// The state of a transport.
pub struct TransportView {
    pub send_key: Seq<u8>,
    pub send_n: u64,
    pub recv_key: Seq<u8>,
    pub recv_n: u64,
    /// Bytes sealed and not yet written.
    pub pending: Seq<u8>,
    /// Bytes received and not yet opened.
    pub raw: Seq<u8>,
    /// Bytes opened and not yet delivered.
    pub plain: Seq<u8>,
}

/// Where a read stops.
pub enum Stop {
    Ready,
    Need,
    Failed(ReadFailure),
}

/// What is left to read, and where reading stops, when frames are opened until there is plaintext
/// to deliver.
pub open spec fn progress(key: Seq<u8>, n: u64, plain: Seq<u8>, raw: Seq<u8>) -> (
    u64,
    Seq<u8>,
    Seq<u8>,
    Stop,
)
    decreases raw.len(),
{
    if plain.len() > 0 {
        (n, plain, raw, Stop::Ready)
    } else {
        match front(raw) {
            Front::Short => (n, plain, raw, Stop::Need),
            Front::Partial => (n, plain, raw, Stop::Need),
            Front::BadLength => (n, plain, raw, Stop::Failed(ReadFailure::InvalidFrameLength)),
            Front::Whole(len) => match crypto::noise_opened(key, n, raw.subrange(2, len)) {
                None => (n, plain, raw, Stop::Failed(ReadFailure::DecryptionFailed)),
                Some(p) => progress(key, (n + 1) as u64, p, raw.skip(len)),
            },
        }
    }
}

/// The two ends of an encrypted byte stream, without the stream underneath.
pub struct NoiseStream {
    send_key: [u8; 32],
    send_n: u64,
    recv_key: [u8; 32],
    recv_n: u64,
    write_pending: Vec<u8>,
    write_off: usize,
    read_raw: Vec<u8>,
    read_plain: Vec<u8>,
    read_off: usize,
    read_target: usize,
    have_len: bool,
}

impl Drop for NoiseStream {
    fn drop(&mut self)
        opens_invariants none
        no_unwind
    {
        crypto::zeroize_bytes(&mut self.send_key);
        crypto::zeroize_bytes(&mut self.recv_key);
    }
}

impl View for NoiseStream {
    type V = TransportView;

    closed spec fn view(&self) -> TransportView {
        TransportView {
            send_key: self.send_key@,
            send_n: self.send_n,
            recv_key: self.recv_key@,
            recv_n: self.recv_n,
            pending: self.write_pending@.skip(self.write_off as int),
            raw: self.read_raw@,
            plain: self.read_plain@.skip(self.read_off as int),
        }
    }
}

impl TransportView {
    /// Everything that a reader can still be given of what has been received.
    pub open spec fn receivable(self) -> Seq<u8> {
        self.plain + plaintext(self.recv_key, self.recv_n, self.raw)
    }

    /// Opening everything that has been received keeps the counter in range.
    pub open spec fn readable(self) -> bool {
        self.recv_n + self.raw.len() / 18 <= u64::MAX
    }
}

impl NoiseStream {
    /// The invariant of a transport.
    pub closed spec fn wf(&self) -> bool {
        &&& self.write_off <= self.write_pending@.len()
        &&& self.read_off <= self.read_plain@.len()
        &&& self.have_len ==> self.read_raw@.len() >= 2 && self.read_target == 2 + bytes::be_value(
            self.read_raw@.take(2),
        ) && 18 <= self.read_target <= 16402
    }

    /// A transport with fresh counters.
    pub fn new(send_key: [u8; 32], recv_key: [u8; 32]) -> (r: Self)
        ensures
            r.wf(),
            r@ == (TransportView {
                send_key: send_key@,
                send_n: 0,
                recv_key: recv_key@,
                recv_n: 0,
                pending: Seq::empty(),
                raw: Seq::empty(),
                plain: Seq::empty(),
            }),
    {
        let r = NoiseStream {
            send_key,
            send_n: 0,
            recv_key,
            recv_n: 0,
            write_pending: Vec::new(),
            write_off: 0,
            read_raw: Vec::new(),
            read_plain: Vec::new(),
            read_off: 0,
            read_target: 0,
            have_len: false,
        };
        assert(r.write_pending@.skip(0) =~= Seq::<u8>::empty());
        assert(r.read_plain@.skip(0) =~= Seq::<u8>::empty());
        r
    }

    /// Whether a sealed frame can still be made.
    pub fn can_write(&self) -> (r: bool)
        ensures
            r == (self@.send_n < u64::MAX),
    {
        self.send_n < u64::MAX
    }

    /// Whether everything received can still be opened.
    pub fn can_read(&self) -> (r: bool)
        ensures
            r == self@.readable(),
    {
        (self.read_raw.len() / 18) as u64 <= u64::MAX - self.recv_n
    }

    /// The bytes to write next.
    pub fn pending(&self) -> (r: &[u8])
        requires
            self.wf(),
        ensures
            r@ == self@.pending,
    {
        let all = self.write_pending.as_slice();
        assert(all@.subrange(self.write_off as int, all@.len() as int) =~= all@.skip(
            self.write_off as int,
        ));
        vstd::slice::slice_subrange(all, self.write_off, all.len())
    }

    /// Takes note that `n` of the pending bytes were written. Writing none of them is a failure;
    /// otherwise the result says whether all of them are out.
    pub fn wrote(&mut self, n: usize) -> (r: Option<bool>)
        requires
            old(self).wf(),
            n <= old(self)@.pending.len(),
        ensures
            final(self).wf(),
            n == 0 ==> r is None && final(self)@ == old(self)@,
            n > 0 ==> r == Some(n == old(self)@.pending.len()) && final(self)@ == (TransportView {
                pending: old(self)@.pending.skip(n as int),
                ..old(self)@
            }),
    {
        if n == 0 {
            return None;
        }
        let ghost before = self@;
        let total: usize = self.write_pending.len();
        assert(self.write_off + n <= total);
        self.write_off = self.write_off + n;
        assert(self.write_pending@.skip(self.write_off as int) =~= before.pending.skip(n as int));
        let done = self.write_off == total;
        if done {
            self.write_pending.clear();
            self.write_off = 0;
            assert(self.write_pending@.skip(0) =~= before.pending.skip(n as int));
        }
        Some(done)
    }

    /// Seals the first bytes of `buf`, up to a full frame, and returns how many. Nothing happens on
    /// an empty `buf`; otherwise all that was sealed before must be out.
    pub fn write(&mut self, buf: &[u8]) -> (r: usize)
        requires
            old(self).wf(),
            buf@.len() > 0 ==> old(self)@.pending.len() == 0 && old(self)@.send_n < u64::MAX,
        ensures
            final(self).wf(),
            write_outcome(old(self)@, buf@, r as int, final(self)@),
    {
        if buf.len() == 0 {
            return 0;
        }
        let n: usize = if buf.len() < MAX_PLAINTEXT {
            buf.len()
        } else {
            MAX_PLAINTEXT
        };
        let chunk = vstd::slice::slice_subrange(buf, 0, n);
        assert(chunk@ =~= buf@.take(n as int));
        let ciphertext = crypto::noise_seal(&self.send_key, self.send_n, chunk);
        let prefix = bytes::u16_to_be(ciphertext.len() as u16);
        let mut frame: Vec<u8> = Vec::new();
        frame.push(prefix[0]);
        frame.push(prefix[1]);
        frame.extend_from_slice(ciphertext.as_slice());
        assert(frame@ =~= frame_bytes(ciphertext@));
        self.send_n = self.send_n + 1;
        self.write_pending = frame;
        self.write_off = 0;
        assert(self.write_pending@.skip(0) =~= frame_bytes(ciphertext@));
        n
    }

    /// Takes note of bytes received from below.
    pub fn filled(&mut self, bytes: &[u8])
        requires
            old(self).wf(),
        ensures
            final(self).wf(),
            final(self)@ == (TransportView { raw: old(self)@.raw + bytes@, ..old(self)@ }),
    {
        let ghost before = self.read_raw@;
        self.read_raw.extend_from_slice(bytes);
        assert(self.read_raw@ =~= before + bytes@);
        assert(before.len() >= 2 ==> self.read_raw@.take(2) =~= before.take(2));
    }

    /// What it means that there is nothing more to receive.
    pub fn ended(&self) -> (r: EndOfInput)
        requires
            self.wf(),
        ensures
            r == (if self@.raw.len() < 2 {
                EndOfInput::Clean
            } else {
                EndOfInput::UnexpectedEof
            }),
    {
        if self.read_raw.len() < LEN_PREFIX {
            EndOfInput::Clean
        } else {
            EndOfInput::UnexpectedEof
        }
    }

    /// Opens frames until there is plaintext, and delivers up to `room` bytes of it.
    pub fn read(&mut self, room: usize) -> (r: ReadAction)
        requires
            old(self).wf(),
            old(self)@.readable(),
        ensures
            final(self).wf(),
            final(self)@.readable(),
            read_outcome(old(self)@, room as int, r, final(self)@),
            received_authentic(old(self)@, r, final(self)@),
    {
        let ghost before = self@;
        let ghost mut chunks: Seq<Seq<u8>> = Seq::empty();
        proof {
            assert(wire(before.recv_key, before.recv_n, chunks) + before.raw =~= before.raw);
            assert(before.plain + flat(chunks) =~= before.plain);
        }
        loop
            invariant
                before == old(self)@,
                self.wf(),
                self@.readable(),
                self@ == (TransportView {
                    recv_n: self@.recv_n,
                    raw: self@.raw,
                    plain: self@.plain,
                    ..before
                }),
                progress(before.recv_key, before.recv_n, before.plain, before.raw) == progress(
                    before.recv_key,
                    self@.recv_n,
                    self@.plain,
                    self@.raw,
                ),
                before.raw == wire(before.recv_key, before.recv_n, chunks) + self@.raw,
                self@.recv_n == before.recv_n + chunks.len(),
                before.plain + flat(chunks) == self@.plain,
                forall|i: int|
                    0 <= i < chunks.len() ==> (#[trigger] chunks[i]).len() <= MAX_PLAINTEXT,
            decreases self@.raw.len(),
        {
            let ghost key = self@.recv_key;
            let ghost n = self@.recv_n;
            let ghost raw = self@.raw;
            let ghost plain = self@.plain;
            if self.read_off < self.read_plain.len() {
                let available: usize = self.read_plain.len() - self.read_off;
                let k: usize = if available < room {
                    available
                } else {
                    room
                };
                let out = vstd::slice::slice_subrange(
                    self.read_plain.as_slice(),
                    self.read_off,
                    self.read_off + k,
                );
                assert(out@ =~= plain.take(k as int));
                let mut data: Vec<u8> = Vec::new();
                data.extend_from_slice(out);
                assert(data@ =~= out@);
                self.read_off = self.read_off + k;
                assert(self@.plain =~= plain.skip(k as int));
                assert(plain =~= data@ + self@.plain);
                return ReadAction::Deliver(data);
            }
            assert(plain =~= Seq::<u8>::empty());
            if !self.have_len {
                if self.read_raw.len() < LEN_PREFIX {
                    assert(before.plain + flat(chunks) =~= Seq::<u8>::empty() + self@.plain);
                    return ReadAction::Fill;
                }
                let len: u16 = bytes::u16_from_be(self.read_raw[0], self.read_raw[1]);
                assert(raw.take(2) =~= seq![raw[0], raw[1]]);
                if (len as usize) < TAG_LEN || len as usize > MAX_CIPHERTEXT {
                    assert(before.plain + flat(chunks) =~= Seq::<u8>::empty() + self@.plain);
                    return ReadAction::Fail(ReadFailure::InvalidFrameLength);
                }
                self.read_target = LEN_PREFIX + len as usize;
                self.have_len = true;
            }
            if self.read_raw.len() < self.read_target {
                assert(before.plain + flat(chunks) =~= Seq::<u8>::empty() + self@.plain);
                return ReadAction::Fill;
            }
            let target: usize = self.read_target;
            assert(front(raw) == Front::Whole(target as int));
            let sealed = vstd::slice::slice_subrange(self.read_raw.as_slice(), LEN_PREFIX, target);
            assert(sealed@ =~= raw.subrange(2, target as int));
            assert(raw.len() / 18 >= 1);
            match crypto::noise_open(&self.recv_key, self.recv_n, sealed) {
                None => {
                    assert(before.plain + flat(chunks) =~= Seq::<u8>::empty() + self@.plain);
                    return ReadAction::Fail(ReadFailure::DecryptionFailed);
                },
                Some(opened) => {
                    let ghost chunk = opened@;
                    proof {
                        frame_front(raw, target as int);
                        assert(raw.take(target as int) =~= frame_of(key, n, chunk));
                        assert(raw =~= raw.take(target as int) + raw.skip(target as int));
                        wire_push(before.recv_key, before.recv_n, chunks, chunk);
                        flat_push(chunks, chunk);
                        assert(before.raw =~= wire(
                            before.recv_key,
                            before.recv_n,
                            chunks.push(chunk),
                        ) + raw.skip(target as int));
                        assert(before.plain + flat(chunks.push(chunk)) =~= chunk);
                        chunks = chunks.push(chunk);
                    }
                    let rest = self.read_raw.split_off(target);
                    self.read_raw = rest;
                    assert(self.read_raw@ =~= raw.skip(target as int));
                    self.recv_n = self.recv_n + 1;
                    self.read_plain = opened;
                    self.read_off = 0;
                    assert(self.read_plain@.skip(0) =~= chunk);
                    self.have_len = false;
                    self.read_target = 0;
                },
            }
        }
    }
}

/// What a write of `buf` takes and leaves: it takes the first `n` bytes, up to a full frame, and
/// seals them.
pub open spec fn write_outcome(a: TransportView, buf: Seq<u8>, n: int, b: TransportView) -> bool {
    &&& n == if buf.len() <= MAX_PLAINTEXT {
        buf.len() as int
    } else {
        MAX_PLAINTEXT as int
    }
    &&& n == 0 ==> b == a
    &&& n > 0 ==> {
        &&& a.pending.len() == 0
        &&& a.send_n < u64::MAX
        &&& b == TransportView {
            send_n: (a.send_n + 1) as u64,
            pending: frame_of(a.send_key, a.send_n, buf.take(n)),
            ..a
        }
        &&& carries(a.send_key, a.send_n, buf.take(n), b.pending)
    }
}

/// What a read with room for `room` bytes gives and leaves.
pub open spec fn read_outcome(a: TransportView, room: int, r: ReadAction, b: TransportView) -> bool {
    let (n, plain, raw, stop) = progress(a.recv_key, a.recv_n, a.plain, a.raw);
    let k = if plain.len() < room {
        plain.len() as int
    } else {
        room
    };
    match stop {
        Stop::Ready => {
            &&& r matches ReadAction::Deliver(d) && d@ == plain.take(k)
            &&& b == TransportView { recv_n: n, raw, plain: plain.skip(k), ..a }
        },
        Stop::Need => {
            &&& r is Fill
            &&& b == TransportView { recv_n: n, raw, plain, ..a }
        },
        Stop::Failed(f) => {
            &&& r == ReadAction::Fail(f)
            &&& b == TransportView { recv_n: n, raw, plain, ..a }
        },
    }
}

/// The bytes that a read delivers.
pub open spec fn delivered(r: ReadAction) -> Seq<u8> {
    match r {
        ReadAction::Deliver(d) => d@,
        _ => Seq::empty(),
    }
}

/// Everything that a read took off the received bytes is frames sealed under the receiving key with
/// the counters in order, and what it delivered and kept is what those frames were sealed from. No
/// frame holds more than a full plaintext.
pub open spec fn received_authentic(a: TransportView, r: ReadAction, b: TransportView) -> bool {
    exists|chunks: Seq<Seq<u8>>|
        {
            &&& a.raw == #[trigger] wire(a.recv_key, a.recv_n, chunks) + b.raw
            &&& b.recv_n == a.recv_n + chunks.len()
            &&& a.plain + flat(chunks) == delivered(r) + b.plain
            &&& forall|i: int| 0 <= i < chunks.len() ==> (#[trigger] chunks[i]).len() <= MAX_PLAINTEXT
        }
}

/// The frame at the front of `raw`.
proof fn frame_front(raw: Seq<u8>, len: int)
    requires
        front(raw) == Front::Whole(len),
    ensures
        raw.take(len) == frame_bytes(raw.subrange(2, len)),
{
    bytes::be_value_round_trip(raw.take(2));
    assert(raw.take(len) =~= raw.take(2) + raw.subrange(2, len));
}

/// What is on the wire after one more chunk has been sealed: the frame for it, at the next counter,
/// behind the others.
pub proof fn wire_push(key: Seq<u8>, n: u64, chunks: Seq<Seq<u8>>, chunk: Seq<u8>)
    requires
        n + chunks.len() <= u64::MAX,
    ensures
        wire(key, n, chunks.push(chunk)) == wire(key, n, chunks) + frame_of(
            key,
            (n + chunks.len()) as u64,
            chunk,
        ),
    decreases chunks.len(),
{
    reveal_with_fuel(wire, 2);
    let all = chunks.push(chunk);
    if chunks.len() == 0 {
        assert(all.skip(1) =~= Seq::<Seq<u8>>::empty());
        assert(wire(key, n, all) =~= wire(key, n, chunks) + frame_of(key, n, chunk));
    } else {
        wire_push(key, (n + 1) as u64, chunks.skip(1), chunk);
        assert(all.skip(1) =~= chunks.skip(1).push(chunk));
        assert(wire(key, n, all) =~= wire(key, n, chunks) + frame_of(
            key,
            (n + chunks.len()) as u64,
            chunk,
        ));
    }
}

proof fn flat_push(chunks: Seq<Seq<u8>>, chunk: Seq<u8>)
    ensures
        flat(chunks.push(chunk)) == flat(chunks) + chunk,
    decreases chunks.len(),
{
    reveal_with_fuel(flat, 2);
    let all = chunks.push(chunk);
    if chunks.len() == 0 {
        assert(all.skip(1) =~= Seq::<Seq<u8>>::empty());
        assert(flat(all) =~= flat(chunks) + chunk);
    } else {
        flat_push(chunks.skip(1), chunk);
        assert(all.skip(1) =~= chunks.skip(1).push(chunk));
        assert(flat(all) =~= flat(chunks) + chunk);
    }
}

/// What is left of `raw`, and at which counter, once every frame that opens has been opened.
pub open spec fn residue(key: Seq<u8>, n: u64, raw: Seq<u8>) -> (u64, Seq<u8>)
    decreases raw.len(),
{
    match front(raw) {
        Front::Whole(len) => match crypto::noise_opened(key, n, raw.subrange(2, len)) {
            Some(p) => residue(key, (n + 1) as u64, raw.skip(len)),
            None => (n, raw),
        },
        _ => (n, raw),
    }
}

/// More bytes behind `a` change nothing of the frames in `a`.
proof fn front_extends(a: Seq<u8>, b: Seq<u8>)
    ensures
        match front(a) {
            Front::Whole(len) => front(a + b) == front(a) && (a + b).subrange(2, len) == a.subrange(
                2,
                len,
            ) && (a + b).skip(len) == a.skip(len) + b,
            Front::BadLength => front(a + b) == front(a),
            _ => true,
        },
{
    if a.len() >= 2 {
        assert((a + b).take(2) =~= a.take(2));
        if let Front::Whole(len) = front(a) {
            assert((a + b).subrange(2, len) =~= a.subrange(2, len));
            assert((a + b).skip(len) =~= a.skip(len) + b);
        }
    }
}

/// Reading on after more bytes have come gives what reading them all at once gives.
pub proof fn plaintext_in_two(key: Seq<u8>, n: u64, a: Seq<u8>, b: Seq<u8>)
    ensures
        plaintext(key, n, a + b) == plaintext(key, n, a) + plaintext(
            key,
            residue(key, n, a).0,
            residue(key, n, a).1 + b,
        ),
        residue(key, n, a + b) == residue(key, residue(key, n, a).0, residue(key, n, a).1 + b),
    decreases a.len(),
{
    front_extends(a, b);
    match front(a) {
        Front::Whole(len) => match crypto::noise_opened(key, n, a.subrange(2, len)) {
            Some(p) => {
                plaintext_in_two(key, (n + 1) as u64, a.skip(len), b);
                assert(plaintext(key, n, a + b) =~= plaintext(key, n, a) + plaintext(
                    key,
                    residue(key, n, a).0,
                    residue(key, n, a).1 + b,
                ));
            },
            None => {
                assert(plaintext(key, n, a + b) =~= plaintext(key, n, a) + plaintext(
                    key,
                    n,
                    a + b,
                ));
            },
        },
        _ => {
            assert(plaintext(key, n, a + b) =~= plaintext(key, n, a) + plaintext(key, n, a + b));
        },
    }
}

/// Opening frames until there is plaintext takes nothing away and adds nothing.
proof fn progress_conserves(key: Seq<u8>, n: u64, plain: Seq<u8>, raw: Seq<u8>)
    ensures
        ({
            let (n2, plain2, raw2, stop) = progress(key, n, plain, raw);
            &&& plain + plaintext(key, n, raw) == plain2 + plaintext(key, n2, raw2)
            &&& residue(key, n, raw) == residue(key, n2, raw2)
            &&& !(stop is Ready) ==> plain2.len() == 0 && residue(key, n2, raw2) == (n2, raw2)
                && plaintext(key, n2, raw2).len() == 0
        }),
    decreases raw.len(),
{
    if plain.len() == 0 {
        match front(raw) {
            Front::Whole(len) => match crypto::noise_opened(key, n, raw.subrange(2, len)) {
                Some(p) => {
                    progress_conserves(key, (n + 1) as u64, p, raw.skip(len));
                    assert(plain + plaintext(key, n, raw) =~= p + plaintext(
                        key,
                        (n + 1) as u64,
                        raw.skip(len),
                    ));
                },
                None => {},
            },
            _ => {},
        }
    }
}

/// A read delivers the first bytes of what can be received and leaves the rest to be received; if
/// it asks for more bytes from below, nothing was left to deliver.
pub proof fn read_conserves(a: TransportView, room: int, r: ReadAction, b: TransportView)
    requires
        read_outcome(a, room, r, b),
        room >= 0,
    ensures
        a.receivable() == delivered(r) + b.receivable(),
        !(r is Deliver) ==> b.receivable().len() == 0,
{
    progress_conserves(a.recv_key, a.recv_n, a.plain, a.raw);
    let (n, plain, raw, stop) = progress(a.recv_key, a.recv_n, a.plain, a.raw);
    if let ReadAction::Deliver(d) = r {
        assert(plain =~= d@ + b.plain);
        assert(a.receivable() =~= d@ + b.receivable());
    } else {
        assert(a.receivable() =~= delivered(r) + b.receivable());
    }
}

/// The bytes of a series of frames open to the chunks that the frames carry, and nothing is left.
pub proof fn wire_round_trip(key: Seq<u8>, n: u64, chunks: Seq<Seq<u8>>)
    requires
        n + chunks.len() <= u64::MAX,
        forall|i: int|
            0 <= i < chunks.len() ==> carries(
                key,
                (n + i) as u64,
                #[trigger] chunks[i],
                frame_of(key, (n + i) as u64, chunks[i]),
            ),
    ensures
        plaintext(key, n, wire(key, n, chunks)) == flat(chunks),
        residue(key, n, wire(key, n, chunks)) == ((n + chunks.len()) as u64, Seq::<u8>::empty()),
    decreases chunks.len(),
{
    if chunks.len() == 0 {
    } else {
        let c = chunks[0];
        let frame = frame_of(key, n, c);
        let rest = wire(key, (n + 1) as u64, chunks.skip(1));
        let raw = wire(key, n, chunks);
        assert(carries(key, (n + 0) as u64, chunks[0], frame_of(key, (n + 0) as u64, chunks[0])));
        let sealed = crypto::noise_sealed(key, n, c);
        bytes::pow256_bounds();
        bytes::be_round_trip(sealed.len(), 2);
        assert(raw.take(2) =~= bytes::be_bytes(sealed.len(), 2));
        let len = 2 + sealed.len() as int;
        assert(front(raw) == Front::Whole(len));
        assert(raw.subrange(2, len) =~= sealed);
        assert(raw.skip(len) =~= rest);
        assert forall|i: int| 0 <= i < chunks.skip(1).len() implies carries(
            key,
            ((n + 1) as u64 + i) as u64,
            #[trigger] chunks.skip(1)[i],
            frame_of(key, ((n + 1) as u64 + i) as u64, chunks.skip(1)[i]),
        ) by {
            assert(chunks.skip(1)[i] == chunks[i + 1]);
        }
        wire_round_trip(key, (n + 1) as u64, chunks.skip(1));
    }
}

/// A reader with `key` that started at counter `n` has received the bytes `received` and delivered
/// the bytes `out`; `v` is its state.
pub open spec fn in_step(
    key: Seq<u8>,
    n: u64,
    received: Seq<u8>,
    out: Seq<u8>,
    v: TransportView,
) -> bool {
    &&& v.recv_key == key
    &&& out + v.receivable() == plaintext(key, n, received)
    &&& residue(key, n, received) == residue(key, v.recv_n, v.raw)
    &&& forall|more: Seq<u8>|
        out + v.plain + #[trigger] plaintext(key, v.recv_n, v.raw + more) == plaintext(
            key,
            n,
            received + more,
        )
}

/// A fresh reader has received and delivered nothing.
pub proof fn in_step_at_start(v: TransportView)
    requires
        v.raw.len() == 0,
        v.plain.len() == 0,
    ensures
        in_step(v.recv_key, v.recv_n, Seq::empty(), Seq::empty(), v),
{
    let e = Seq::<u8>::empty();
    assert(v.raw =~= e);
    assert(e + v.receivable() =~= plaintext(v.recv_key, v.recv_n, e));
    assert forall|more: Seq<u8>|
        e + v.plain + #[trigger] plaintext(v.recv_key, v.recv_n, v.raw + more) == plaintext(
            v.recv_key,
            v.recv_n,
            e + more,
        ) by {
        assert(v.raw + more =~= e + more);
        assert(e + v.plain + plaintext(v.recv_key, v.recv_n, v.raw + more) =~= plaintext(
            v.recv_key,
            v.recv_n,
            e + more,
        ));
    }
}

/// Receiving more bytes keeps a reader in step.
pub proof fn in_step_after_fill(
    key: Seq<u8>,
    n: u64,
    received: Seq<u8>,
    out: Seq<u8>,
    v: TransportView,
    more: Seq<u8>,
)
    requires
        in_step(key, n, received, out, v),
    ensures
        in_step(key, n, received + more, out, (TransportView { raw: v.raw + more, ..v })),
{
    let w = TransportView { raw: v.raw + more, ..v };
    assert(out + w.receivable() =~= out + v.plain + plaintext(key, v.recv_n, v.raw + more));
    plaintext_in_two(key, n, received, more);
    plaintext_in_two(key, v.recv_n, v.raw, more);
    assert forall|next: Seq<u8>|
        out + w.plain + #[trigger] plaintext(key, w.recv_n, w.raw + next) == plaintext(
            key,
            n,
            received + more + next,
        ) by {
        assert(w.raw + next =~= v.raw + (more + next));
        assert(received + more + next =~= received + (more + next));
    }
}

/// Reading keeps a reader in step.
pub proof fn in_step_after_read(
    key: Seq<u8>,
    n: u64,
    received: Seq<u8>,
    out: Seq<u8>,
    a: TransportView,
    room: int,
    r: ReadAction,
    b: TransportView,
)
    requires
        in_step(key, n, received, out, a),
        read_outcome(a, room, r, b),
        room >= 0,
    ensures
        in_step(key, n, received, out + delivered(r), b),
{
    read_conserves(a, room, r, b);
    progress_conserves(a.recv_key, a.recv_n, a.plain, a.raw);
    assert(out + delivered(r) + b.receivable() =~= out + a.receivable());
    assert forall|more: Seq<u8>|
        out + delivered(r) + b.plain + #[trigger] plaintext(key, b.recv_n, b.raw + more)
            == plaintext(key, n, received + more) by {
        assert(out + a.plain + plaintext(key, a.recv_n, a.raw + more) == plaintext(
            key,
            n,
            received + more,
        ));
        progress_extends(key, a.recv_n, a.plain, a.raw, more);
        let (n2, plain2, raw2, stop) = progress(key, a.recv_n, a.plain, a.raw);
        assert(plain2 =~= delivered(r) + b.plain);
        assert(out + delivered(r) + b.plain + plaintext(key, b.recv_n, b.raw + more) =~= out + (
        plain2 + plaintext(key, n2, raw2 + more)));
        assert(out + a.plain + plaintext(key, a.recv_n, a.raw + more) =~= out + (a.plain
            + plaintext(key, a.recv_n, a.raw + more)));
    }
}

proof fn progress_extends(key: Seq<u8>, n: u64, plain: Seq<u8>, raw: Seq<u8>, more: Seq<u8>)
    ensures
        ({
            let (n2, plain2, raw2, stop) = progress(key, n, plain, raw);
            plain + plaintext(key, n, raw + more) == plain2 + plaintext(key, n2, raw2 + more)
        }),
    decreases raw.len(),
{
    if plain.len() == 0 {
        front_extends(raw, more);
        match front(raw) {
            Front::Whole(len) => match crypto::noise_opened(key, n, raw.subrange(2, len)) {
                Some(p) => {
                    progress_extends(key, (n + 1) as u64, p, raw.skip(len), more);
                    assert(plain + plaintext(key, n, raw + more) =~= p + plaintext(
                        key,
                        (n + 1) as u64,
                        raw.skip(len) + more,
                    ));
                },
                None => {},
            },
            _ => {},
        }
    }
}

proof fn progress_is_ready(key: Seq<u8>, n: u64, plain: Seq<u8>, raw: Seq<u8>)
    ensures
        progress(key, n, plain, raw).3 is Ready ==> progress(key, n, plain, raw).1.len() > 0,
        progress(key, n, plain, raw).3 is Failed ==> progress(key, n, plain, raw).2.len() >= 2,
    decreases raw.len(),
{
    if plain.len() == 0 {
        match front(raw) {
            Front::Whole(len) => match crypto::noise_opened(key, n, raw.subrange(2, len)) {
                Some(p) => {
                    progress_is_ready(key, (n + 1) as u64, p, raw.skip(len));
                },
                None => {},
            },
            _ => {},
        }
    }
}

/// A reader that has failed fails for good: whatever is received afterwards, every further read
/// fails in the same way.
pub proof fn failure_is_final(
    a: TransportView,
    room: int,
    f: ReadFailure,
    b: TransportView,
    more: Seq<u8>,
)
    requires
        read_outcome(a, room, ReadAction::Fail(f), b),
    ensures
        progress(b.recv_key, b.recv_n, b.plain, b.raw + more) == (
            b.recv_n,
            b.plain,
            b.raw + more,
            Stop::Failed(f),
        ),
{
    failed_front(a.recv_key, a.recv_n, a.plain, a.raw);
    front_extends(b.raw, more);
}

/// What a failed read stopped at.
proof fn failed_front(key: Seq<u8>, n: u64, plain: Seq<u8>, raw: Seq<u8>)
    ensures
        progress(key, n, plain, raw) matches (n2, plain2, raw2, Stop::Failed(f)) ==> plain2.len()
            == 0 && (match front(raw2) {
            Front::BadLength => f == ReadFailure::InvalidFrameLength,
            Front::Whole(len) => f == ReadFailure::DecryptionFailed && crypto::noise_opened(
                key,
                n2,
                raw2.subrange(2, len),
            ) is None,
            _ => false,
        }),
    decreases raw.len(),
{
    if plain.len() == 0 {
        match front(raw) {
            Front::Whole(len) => match crypto::noise_opened(key, n, raw.subrange(2, len)) {
                Some(p) => {
                    failed_front(key, (n + 1) as u64, p, raw.skip(len));
                },
                None => {},
            },
            _ => {},
        }
    }
}

/// A write takes all that it is given, up to 16384 bytes, and makes one frame of it: the length of
/// the sealed bytes, which is 16 more, in two bytes with the higher one first, then the sealed bytes.
/// The counter goes up by one, and the receiving end is not touched.
pub proof fn what_a_write_makes(a: TransportView, buf: Seq<u8>, n: int, b: TransportView)
    requires
        write_outcome(a, buf, n, b),
    ensures
        buf.len() <= 16384 ==> n == buf.len(),
        buf.len() > 16384 ==> n == 16384,
        buf.len() == 0 ==> b == a,
        buf.len() > 0 ==> {
            &&& b.pending == seq![((n + 16) / 256) as u8, ((n + 16) % 256) as u8]
                + crypto::noise_sealed(a.send_key, a.send_n, buf.take(n))
            &&& b.pending.len() == n + 18
            &&& b.send_n == a.send_n + 1
            &&& b.send_key == a.send_key
            &&& b.recv_key == a.recv_key && b.recv_n == a.recv_n && b.raw == a.raw && b.plain
                == a.plain
        },
{
    if buf.len() > 0 {
        bytes::two_bytes(((n + 16) / 256) as u8, ((n + 16) % 256) as u8);
    }
}

/// What a read gives: what is open already is delivered first, as much as there is room for. Without
/// it, the next frame decides: a length below 16 or above 16400 is a failure; a frame that is not
/// there in full is waited for; one that does not open at this counter is a failure; and one that
/// opens is delivered, as much as there is room for. Nothing that was received is lost by waiting or
/// failing.
pub proof fn what_a_read_gives(a: TransportView, room: int, r: ReadAction, b: TransportView)
    requires
        read_outcome(a, room, r, b),
        room >= 0,
    ensures
        ({
            let len = 256 * a.raw[0] + a.raw[1];
            let opened = crypto::noise_opened(a.recv_key, a.recv_n, a.raw.subrange(2, 2 + len));
            let is_whole = 16 <= len <= 16400 && a.raw.len() >= 2 + len;
            &&& a.plain.len() > 0 ==> {
                &&& r matches ReadAction::Deliver(d) && a.plain == d@ + b.plain && (d@.len() == room
                    || d@ == a.plain)
                &&& b.raw == a.raw && b.recv_n == a.recv_n
            }
            &&& a.plain.len() == 0 && a.raw.len() < 2 ==> r is Fill && b == a
            &&& a.plain.len() == 0 && a.raw.len() >= 2 ==> {
                &&& len < 16 || len > 16400 ==> r == ReadAction::Fail(
                    ReadFailure::InvalidFrameLength,
                ) && b == a
                &&& 16 <= len <= 16400 && a.raw.len() < 2 + len ==> r is Fill && b == a
                &&& is_whole && opened is None ==> r == ReadAction::Fail(
                    ReadFailure::DecryptionFailed,
                ) && b == a
                &&& is_whole ==> (opened matches Some(p) ==> (p.len() > 0 ==> {
                    &&& r matches ReadAction::Deliver(d) && p == d@ + b.plain && (d@.len() == room
                        || d@ == p)
                    &&& b.raw == a.raw.skip(2 + len)
                    &&& b.recv_n == (a.recv_n + 1) as u64
                }))
            }
            &&& b.send_key == a.send_key && b.send_n == a.send_n && b.pending == a.pending
            &&& b.recv_key == a.recv_key
        }),
{
    let raw = a.raw;
    if raw.len() >= 2 {
        bytes::two_bytes(raw[0], raw[1]);
        assert(raw.take(2) =~= seq![raw[0], raw[1]]);
    }
    let (n, plain, rest, stop) = progress(a.recv_key, a.recv_n, a.plain, a.raw);
    if a.plain.len() > 0 {
        if let ReadAction::Deliver(d) = r {
            assert(a.plain =~= d@ + b.plain);
            assert(d@.len() == room || d@ =~= a.plain);
        }
    } else {
        match front(raw) {
            Front::Whole(len) => match crypto::noise_opened(
                a.recv_key,
                a.recv_n,
                raw.subrange(2, len),
            ) {
                Some(p) => {
                    if p.len() > 0 {
                        assert(progress(a.recv_key, (a.recv_n + 1) as u64, p, raw.skip(len)) == (
                            (a.recv_n + 1) as u64,
                            p,
                            raw.skip(len),
                            Stop::Ready,
                        ));
                        if let ReadAction::Deliver(d) = r {
                            assert(p =~= d@ + b.plain);
                            assert(d@.len() == room || d@ =~= p);
                        }
                    }
                },
                None => {},
            },
            _ => {},
        }
    }
}

/// A frame that holds nothing is passed over: reading goes on as if it had not been there, at the next
/// counter.
pub proof fn empty_frames_are_passed_over(
    a: TransportView,
    room: int,
    r: ReadAction,
    b: TransportView,
)
    requires
        a.plain.len() == 0,
        a.raw.len() >= 18,
        a.raw[0] == 0 && a.raw[1] == 16,
        crypto::noise_opened(a.recv_key, a.recv_n, a.raw.subrange(2, 18)) == Some(
            Seq::<u8>::empty(),
        ),
    ensures
        read_outcome(a, room, r, b) <==> read_outcome(
            (TransportView { recv_n: (a.recv_n + 1) as u64, raw: a.raw.skip(18), ..a }),
            room,
            r,
            b,
        ),
{
    bytes::two_bytes(0, 16);
    assert(a.raw.take(2) =~= seq![0u8, 16u8]);
    assert(a.plain =~= Seq::<u8>::empty());
    assert(front(a.raw) == Front::Whole(18));
}

/// All that has been received can be opened as long as the counter cannot run out on it, at 18 bytes
/// for the shortest frame.
pub proof fn what_can_be_read(v: TransportView)
    ensures
        v.readable() <==> v.recv_n + v.raw.len() / 18 < 0x1_0000_0000_0000_0000,
{
}

/// What happens to the sending end of a transport.
pub enum SendEvent {
    /// A write of these bytes, of which the first `n` are taken.
    Write { buf: Seq<u8>, n: int },
    /// This many of the pending bytes go out.
    Wrote(int),
}

/// What happens to the receiving end of a transport.
pub enum ReceiveEvent {
    /// These bytes come in.
    Filled(Seq<u8>),
    /// A read with room for `room` bytes, and what it gives.
    Read { room: int, r: ReadAction },
}

/// An event takes the sending end from one state to the next, as `write` and `wrote` do.
pub open spec fn send_step(a: TransportView, e: SendEvent, b: TransportView) -> bool {
    match e {
        SendEvent::Write { buf, n } => write_outcome(a, buf, n, b),
        SendEvent::Wrote(n) => 0 <= n <= a.pending.len() && b == (TransportView {
            pending: a.pending.skip(n),
            ..a
        }),
    }
}

/// An event takes the receiving end from one state to the next, as `filled` and `read` do.
pub open spec fn receive_step(a: TransportView, e: ReceiveEvent, b: TransportView) -> bool {
    match e {
        ReceiveEvent::Filled(more) => b == (TransportView { raw: a.raw + more, ..a }),
        ReceiveEvent::Read { room, r } => room >= 0 && read_outcome(a, room, r, b),
    }
}

/// The sending end goes through these states by these events.
pub open spec fn send_run(states: Seq<TransportView>, events: Seq<SendEvent>) -> bool {
    &&& states.len() == events.len() + 1
    &&& forall|i: int|
        0 <= i < events.len() ==> send_step(states[i], #[trigger] events[i], states[i + 1])
}

/// The receiving end goes through these states by these events.
pub open spec fn receive_run(states: Seq<TransportView>, events: Seq<ReceiveEvent>) -> bool {
    &&& states.len() == events.len() + 1
    &&& forall|i: int|
        0 <= i < events.len() ==> receive_step(states[i], #[trigger] events[i], states[i + 1])
}

/// The bytes that writes have taken, one after the other.
pub open spec fn taken(events: Seq<SendEvent>) -> Seq<u8>
    decreases events.len(),
{
    if events.len() == 0 {
        Seq::empty()
    } else {
        taken(events.drop_last()) + match events.last() {
            SendEvent::Write { buf, n } => buf.take(n),
            SendEvent::Wrote(_) => Seq::empty(),
        }
    }
}

/// The bytes that have gone out, one after the other.
pub open spec fn gone_out(states: Seq<TransportView>, events: Seq<SendEvent>) -> Seq<u8>
    decreases events.len(),
{
    if events.len() == 0 {
        Seq::empty()
    } else {
        gone_out(states, events.drop_last()) + match events.last() {
            SendEvent::Write { buf, n } => Seq::empty(),
            SendEvent::Wrote(n) => states[events.len() - 1].pending.take(n),
        }
    }
}

/// The bytes that have come in, one after the other.
pub open spec fn come_in(events: Seq<ReceiveEvent>) -> Seq<u8>
    decreases events.len(),
{
    if events.len() == 0 {
        Seq::empty()
    } else {
        come_in(events.drop_last()) + match events.last() {
            ReceiveEvent::Filled(more) => more,
            ReceiveEvent::Read { room, r } => Seq::empty(),
        }
    }
}

/// The bytes that reads have delivered, one after the other.
pub open spec fn handed_on(events: Seq<ReceiveEvent>) -> Seq<u8>
    decreases events.len(),
{
    if events.len() == 0 {
        Seq::empty()
    } else {
        handed_on(events.drop_last()) + match events.last() {
            ReceiveEvent::Filled(more) => Seq::empty(),
            ReceiveEvent::Read { room, r } => delivered(r),
        }
    }
}

/// The chunks are what has been sealed with `key` from counter `n` on, and can be opened there.
pub open spec fn sealed_chunks(key: Seq<u8>, n: u64, chunks: Seq<Seq<u8>>) -> bool {
    &&& n + chunks.len() <= u64::MAX
    &&& forall|i: int|
        0 <= i < chunks.len() ==> carries(
            key,
            (n + i) as u64,
            #[trigger] chunks[i],
            frame_of(key, (n + i) as u64, chunks[i]),
        )
}

/// The chunks that a run of the sending end has sealed: what went out and what is pending is their
/// frames, and what was taken is what they hold.
proof fn run_seals(states: Seq<TransportView>, events: Seq<SendEvent>) -> (chunks: Seq<Seq<u8>>)
    requires
        send_run(states, events),
        states[0].pending.len() == 0,
    ensures
        sealed_chunks(states[0].send_key, states[0].send_n, chunks),
        states.last().send_key == states[0].send_key,
        states.last().send_n == states[0].send_n + chunks.len(),
        wire(states[0].send_key, states[0].send_n, chunks) == gone_out(states, events)
            + states.last().pending,
        flat(chunks) == taken(events),
    decreases events.len(),
{
    let key = states[0].send_key;
    let n0 = states[0].send_n;
    if events.len() == 0 {
        let none = Seq::<Seq<u8>>::empty();
        assert(wire(key, n0, none) =~= gone_out(states, events) + states.last().pending);
        none
    } else {
        let last = events.len() - 1;
        let before = events.drop_last();
        let states_before = states.drop_last();
        assert forall|i: int| 0 <= i < before.len() implies send_step(
            states_before[i],
            #[trigger] before[i],
            states_before[i + 1],
        ) by {
            assert(before[i] == events[i]);
        }
        let chunks = run_seals(states_before, before);
        gone_out_of_prefix(states, states_before, before);
        let a = states[last];
        let b = states[last + 1];
        assert(states_before.last() == a);
        assert(send_step(a, events[last], b));
        match events[last] {
            SendEvent::Wrote(n) => {
                assert(a.pending =~= a.pending.take(n) + b.pending);
                assert(wire(key, n0, chunks) =~= gone_out(states, events) + b.pending);
                assert(taken(events) =~= taken(before));
                chunks
            },
            SendEvent::Write { buf, n } => {
                if n == 0 {
                    assert(buf.take(n) =~= Seq::<u8>::empty());
                    assert(taken(events) =~= taken(before));
                    assert(gone_out(states, events) =~= gone_out(states_before, before));
                    chunks
                } else {
                    let chunk = buf.take(n);
                    let all = chunks.push(chunk);
                    wire_push(key, n0, chunks, chunk);
                    flat_push(chunks, chunk);
                    assert(a.pending =~= Seq::<u8>::empty());
                    assert(wire(key, n0, all) =~= gone_out(states, events) + b.pending);
                    assert forall|i: int| 0 <= i < all.len() implies carries(
                        key,
                        (n0 + i) as u64,
                        #[trigger] all[i],
                        frame_of(key, (n0 + i) as u64, all[i]),
                    ) by {
                        if i < chunks.len() {
                            assert(all[i] == chunks[i]);
                        }
                    }
                    all
                }
            },
        }
    }
}

proof fn gone_out_of_prefix(
    states: Seq<TransportView>,
    shorter: Seq<TransportView>,
    events: Seq<SendEvent>,
)
    requires
        events.len() <= shorter.len() <= states.len(),
        shorter == states.take(shorter.len() as int),
    ensures
        gone_out(states, events) == gone_out(shorter, events),
    decreases events.len(),
{
    if events.len() > 0 {
        gone_out_of_prefix(states, shorter, events.drop_last());
        assert(shorter[events.len() - 1] == states[events.len() - 1]);
    }
}

/// A run of the receiving end stays in step.
proof fn run_in_step(states: Seq<TransportView>, events: Seq<ReceiveEvent>)
    requires
        receive_run(states, events),
        states[0].raw.len() == 0,
        states[0].plain.len() == 0,
    ensures
        in_step(
            states[0].recv_key,
            states[0].recv_n,
            come_in(events),
            handed_on(events),
            states.last(),
        ),
    decreases events.len(),
{
    let key = states[0].recv_key;
    let n0 = states[0].recv_n;
    if events.len() == 0 {
        in_step_at_start(states[0]);
    } else {
        let last = events.len() - 1;
        let before = events.drop_last();
        let states_before = states.drop_last();
        assert forall|i: int| 0 <= i < before.len() implies receive_step(
            states_before[i],
            #[trigger] before[i],
            states_before[i + 1],
        ) by {
            assert(before[i] == events[i]);
        }
        run_in_step(states_before, before);
        let a = states[last];
        let b = states[last + 1];
        assert(states_before.last() == a);
        assert(receive_step(a, events[last], b));
        match events[last] {
            ReceiveEvent::Filled(more) => {
                in_step_after_fill(key, n0, come_in(before), handed_on(before), a, more);
                assert(handed_on(events) =~= handed_on(before));
            },
            ReceiveEvent::Read { room, r } => {
                in_step_after_read(key, n0, come_in(before), handed_on(before), a, room, r, b);
                assert(come_in(events) =~= come_in(before));
            },
        }
    }
}

/// What one end is given is what the other end delivers. Whatever is written, in whatever pieces
/// the bytes go out and come in, and whatever the room of the reads: what the receiving end has
/// delivered begins what the sending end has taken; and when all that was taken has gone out and
/// come in, and a read with room finds nothing more to deliver, all of it has been delivered, in
/// order, with nothing added, and the receiving end stands at the end of a frame.
pub proof fn what_is_written_is_read(
    sender: Seq<TransportView>,
    sent: Seq<SendEvent>,
    receiver: Seq<TransportView>,
    received: Seq<ReceiveEvent>,
)
    requires
        send_run(sender, sent),
        receive_run(receiver, received),
        sender[0].pending.len() == 0,
        receiver[0].raw.len() == 0,
        receiver[0].plain.len() == 0,
        receiver[0].recv_key == sender[0].send_key,
        receiver[0].recv_n == sender[0].send_n,
        come_in(received).is_prefix_of(gone_out(sender, sent)),
    ensures
        handed_on(received).is_prefix_of(taken(sent)),
        sender.last().pending.len() == 0 && come_in(received) == gone_out(sender, sent)
            && received.len() > 0 ==> (received.last() matches ReceiveEvent::Read { room, r } ==> {
            &&& room > 0 && r is Deliver ==> delivered(r).len() > 0
            &&& !(r is Deliver) ==> {
                &&& r is Fill
                &&& handed_on(received) == taken(sent)
                &&& receiver.last().raw.len() == 0
            }
        }),
{
    let key = sender[0].send_key;
    let n0 = sender[0].send_n;
    let chunks = run_seals(sender, sent);
    run_in_step(receiver, received);
    wire_round_trip(key, n0, chunks);
    let all = wire(key, n0, chunks);
    let part = come_in(received);
    let v = receiver.last();
    assert(part.is_prefix_of(all)) by {
        assert(all.take(part.len() as int) =~= gone_out(sender, sent).take(part.len() as int));
    }
    let rest = all.skip(part.len() as int);
    assert(all =~= part + rest);
    plaintext_in_two(key, n0, part, rest);
    let out = handed_on(received);
    assert(out + v.receivable() == plaintext(key, n0, part));
    let beyond = plaintext(key, residue(key, n0, part).0, residue(key, n0, part).1 + rest);
    assert(taken(sent) =~= out + (v.receivable() + beyond));
    assert(out =~= taken(sent).take(out.len() as int));
    if sender.last().pending.len() == 0 && part == gone_out(sender, sent) && received.len() > 0 {
        assert(part =~= all);
        if let ReceiveEvent::Read { room, r } = received.last() {
            let a = receiver[received.len() - 1];
            assert(receive_step(a, received[received.len() - 1], receiver[received.len() as int]));
            read_conserves(a, room, r, v);
            progress_conserves(a.recv_key, a.recv_n, a.plain, a.raw);
            progress_is_ready(a.recv_key, a.recv_n, a.plain, a.raw);
            if !(r is Deliver) {
                assert(residue(key, n0, all) == residue(key, v.recv_n, v.raw));
                assert(residue(key, v.recv_n, v.raw) == (v.recv_n, v.raw));
                assert(v.raw.len() == 0);
                assert(out =~= taken(sent));
            }
        }
    }
}

} // verus!
