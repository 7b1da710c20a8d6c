//! Buffer for holding data to be sent on the I2C bus. Every third byte contains
//! a crc8 checksum. Invariant: a buffer always contains valid data up to its used length.
use vstd::prelude::*;

use crate::crc8::{self, CrcError, triplet_ok, triplets_ok, validation, word_crc};
use crate::i2c::Error;

verus! {

/// Append error
#[derive(Debug, Clone, Copy, PartialEq, Eq, Structural)]
pub enum AppendError {
    /// Buffer too small for requested operation
    BufferTooSmall,
    /// Invalid input slice size (not a multiple of 2 bytes)
    /// To construct an I2cBuffer from a byte slice, the byte slice must have a multiple of 2 length.
    InvalidBufferSize,
}

/// The wire form of the payload `p`, of even length: each two-byte data word
/// followed by its checksum.
pub open spec fn framed(p: Seq<u8>) -> Seq<u8>
    decreases p.len(),
{
    if p.len() < 2 {
        Seq::empty()
    } else {
        framed(p.subrange(0, p.len() - 2)) + seq![
            p[p.len() - 2],
            p[p.len() - 1],
            word_crc(p[p.len() - 2], p[p.len() - 1]),
        ]
    }
}

/// The big-endian bytes of a 16-bit value.
pub open spec fn u16_be(v: u16) -> Seq<u8> {
    seq![(v >> 8u16) as u8, v as u8]
}

/// The big-endian bytes of a 32-bit value.
pub open spec fn u32_be(v: u32) -> Seq<u8> {
    seq![(v >> 24u32) as u8, (v >> 16u32) as u8, (v >> 8u32) as u8, v as u8]
}

/// The big-endian bytes of a run of 16-bit values, one after the other.
pub open spec fn u16s_be(s: Seq<u16>) -> Seq<u8>
    decreases s.len(),
{
    if s.len() == 0 {
        Seq::empty()
    } else {
        u16s_be(s.drop_last()) + u16_be(s.last())
    }
}

/// Adding one checksummed triplet to a valid stream keeps it valid.
proof fn lemma_triplets_push(s: Seq<u8>, a: u8, b: u8)
    requires
        s.len() % 3 == 0,
        triplets_ok(s),
    ensures
        triplets_ok(s + seq![a, b, word_crc(a, b)]),
{
    let t = s + seq![a, b, word_crc(a, b)];
    assert forall|k: int| 0 <= k < t.len() / 3 implies #[trigger] triplet_ok(t, k) by {
        if k < s.len() / 3 {
            assert(triplet_ok(s, k));
        } else {
            assert(k == s.len() / 3);
        }
    }
}

/// Adding one data word to an even payload adds one triplet to its wire form.
proof fn lemma_framed_push(p: Seq<u8>, a: u8, b: u8)
    requires
        p.len() % 2 == 0,
    ensures
        framed(p + seq![a, b]) == framed(p) + seq![a, b, word_crc(a, b)],
{
    let q = p + seq![a, b];
    assert(q.subrange(0, q.len() - 2) =~= p);
}

/// The wire form of a single data word.
proof fn lemma_framed_word(a: u8, b: u8)
    ensures
        framed(seq![a, b]) == seq![a, b, word_crc(a, b)],
{
    lemma_framed_push(Seq::empty(), a, b);
    assert(Seq::<u8>::empty() + seq![a, b] =~= seq![a, b]);
    assert(framed(Seq::<u8>::empty()) + seq![a, b, word_crc(a, b)] =~= seq![a, b, word_crc(a, b)]);
}

/// A run of 16-bit values has two bytes for each value.
proof fn lemma_u16s_be_len(s: Seq<u16>)
    ensures
        u16s_be(s).len() == 2 * s.len(),
    decreases s.len(),
{
    if s.len() > 0 {
        lemma_u16s_be_len(s.drop_last());
    }
}

/// Two valid streams of whole triplets, one after the other, form a valid stream.
proof fn lemma_triplets_concat(s: Seq<u8>, t: Seq<u8>)
    requires
        s.len() % 3 == 0,
        t.len() % 3 == 0,
        triplets_ok(s),
        triplets_ok(t),
    ensures
        triplets_ok(s + t),
{
    let u = s + t;
    assert forall|k: int| 0 <= k < u.len() / 3 implies #[trigger] triplet_ok(u, k) by {
        if k < s.len() / 3 {
            assert(triplet_ok(s, k));
        } else {
            assert(triplet_ok(t, k - s.len() / 3));
        }
    }
}

/// The wire form of an even payload has three bytes for each two payload
/// bytes, and every triplet of it carries its checksum.
pub proof fn lemma_framed_valid(p: Seq<u8>)
    requires
        p.len() % 2 == 0,
    ensures
        framed(p).len() == p.len() / 2 * 3,
        triplets_ok(framed(p)),
        validation(framed(p)) == Ok::<(), CrcError>(()),
    decreases p.len(),
{
    if p.len() >= 2 {
        let q = p.subrange(0, p.len() - 2);
        lemma_framed_valid(q);
        lemma_triplets_push(framed(q), p[p.len() - 2], p[p.len() - 1]);
    }
}

/// Framing commutes with concatenation of even payloads: appending `p` and
/// then `q` commits exactly what appending `p + q` at once commits.
pub proof fn lemma_framed_concat(p: Seq<u8>, q: Seq<u8>)
    requires
        p.len() % 2 == 0,
        q.len() % 2 == 0,
    ensures
        framed(p + q) == framed(p) + framed(q),
    decreases q.len(),
{
    if q.len() < 2 {
        assert(p + q =~= p);
        assert(framed(p) + framed(q) =~= framed(p));
    } else {
        let r = q.subrange(0, q.len() - 2);
        let a = q[q.len() - 2];
        let b = q[q.len() - 1];
        lemma_framed_concat(p, r);
        assert(r + seq![a, b] =~= q);
        assert((p + r) + seq![a, b] =~= p + q);
        lemma_framed_push(p + r, a, b);
        lemma_framed_push(r, a, b);
        assert(framed(p) + framed(r) + seq![a, b, word_crc(a, b)] =~= framed(p) + (framed(r)
            + seq![a, b, word_crc(a, b)]));
    }
}

/// What a run of successful appends of the payloads `ps`, one after the
/// other, commits to an empty buffer.
pub open spec fn framed_all(ps: Seq<Seq<u8>>) -> Seq<u8>
    decreases ps.len(),
{
    if ps.len() == 0 {
        Seq::empty()
    } else {
        framed_all(ps.drop_last()) + framed(ps.last())
    }
}

/// The number of bytes that a run of appends of the payloads `ps` commits:
/// three for each two payload bytes.
pub open spec fn committed_len(ps: Seq<Seq<u8>>) -> nat
    decreases ps.len(),
{
    if ps.len() == 0 {
        0
    } else {
        committed_len(ps.drop_last()) + ps.last().len() / 2 * 3
    }
}

/// After any run of successful appends of even payloads, the used length is
/// the sum of the bytes each append committed, and the content validates:
/// appending and then validating never disagree.
pub proof fn lemma_appends_validate(ps: Seq<Seq<u8>>)
    requires
        forall|i: int| 0 <= i < ps.len() ==> #[trigger] ps[i].len() % 2 == 0,
    ensures
        framed_all(ps).len() == committed_len(ps),
        triplets_ok(framed_all(ps)),
        validation(framed_all(ps)) == Ok::<(), CrcError>(()),
    decreases ps.len(),
{
    if ps.len() > 0 {
        let init = ps.drop_last();
        assert forall|i: int| 0 <= i < init.len() implies #[trigger] init[i].len() % 2 == 0 by {
            assert(init[i] == ps[i]);
        }
        lemma_appends_validate(init);
        assert(ps[ps.len() - 1].len() % 2 == 0);
        lemma_framed_valid(ps.last());
        lemma_triplets_concat(framed_all(init), framed(ps.last()));
    }
}

/// This type wraps a buffer containing i2c data and its checksums.
///
/// Its capacity `N` is fixed and must be a multiple of 3. Only the first
/// `used` bytes are its content; they always form valid checksummed triplets.
#[derive(Debug)]
pub struct I2cBuffer<const N: usize> {
    data: [u8; N],
    used: usize,
}

impl<const N: usize> View for I2cBuffer<N> {
    type V = Seq<u8>;

    /// The content: the committed prefix of the storage.
    open spec fn view(&self) -> Seq<u8> {
        self.raw().subrange(0, self.used_len() as int)
    }
}

impl<const N: usize> I2cBuffer<N> {
    /// All `N` bytes of storage, the uncommitted tail included.
    pub closed spec fn raw(&self) -> Seq<u8> {
        self.data@
    }

    /// How many bytes of storage are committed.
    pub closed spec fn used_len(&self) -> nat {
        self.used as nat
    }

    /// The buffer's invariant.
    pub open spec fn wf(&self) -> bool {
        &&& N % 3 == 0
        &&& self.raw().len() == N
        &&& self.used_len() <= N
        &&& self.used_len() % 3 == 0
        &&& triplets_ok(self@)
    }

    /// Whether `p` (of even length) fits into the space that is left.
    pub open spec fn fits(&self, p: Seq<u8>) -> bool {
        self.used_len() + p.len() / 2 * 3 <= N
    }

    /// Construct an empty I2cBuffer
    pub fn new() -> (r: Self)
        requires
            N % 3 == 0,
        ensures
            r.wf(),
            r@ == Seq::<u8>::empty(),
            forall|i: int| 0 <= i < N ==> r.raw()[i] == 0,
    {
        let r = I2cBuffer { data: [0u8; N], used: 0 };
        proof {
            assert(r@ =~= Seq::<u8>::empty());
        }
        r
    }

    /// Commits the data word `[a, b]` and its checksum.
    fn push_word(&mut self, a: u8, b: u8)
        requires
            old(self).wf(),
            old(self).used_len() + 3 <= N,
        ensures
            final(self).wf(),
            final(self)@ == old(self)@ + seq![a, b, word_crc(a, b)],
            final(self).used_len() == old(self).used_len() + 3,
    {
        let crc = crc8::calculate_word(a, b);
        let u = self.used;
        self.data[u] = a;
        self.data[u + 1] = b;
        self.data[u + 2] = crc;
        self.used = u + 3;
        proof {
            assert(self@ =~= old(self)@ + seq![a, b, word_crc(a, b)]);
            lemma_triplets_push(old(self)@, a, b);
        }
    }

    /// Validate the buffer content using crc8
    pub fn validate(&self) -> (r: Result<(), CrcError>)
        requires
            self.wf(),
        ensures
            r == validation(self@),
            r is Ok,
    {
        crc8::validate(self.as_bytes())
    }

    /// The committed bytes, and nothing of the tail beyond them.
    pub fn as_bytes(&self) -> (r: &[u8])
        requires
            self.wf(),
        ensures
            r@ == self@,
    {
        &self.data[0..self.used]
    }

    /// Get a reference to the element at `index`, or None if trying to get an
    /// unused element.
    pub fn get(&self, index: usize) -> (r: Option<&u8>)
        requires
            self.wf(),
        ensures
            index < self@.len() ==> r == Some(&self@[index as int]),
            index >= self@.len() ==> r is None,
    {
        if index < self.used {
            Some(&self.data[index])
        } else {
            None
        }
    }

    /// The number of committed bytes.
    pub fn len(&self) -> (r: usize)
        requires
            self.wf(),
        ensures
            r == self@.len(),
    {
        self.used
    }

    /// Whether no byte is committed.
    pub fn is_empty(&self) -> (r: bool)
        requires
            self.wf(),
        ensures
            r == (self@.len() == 0),
    {
        self.used == 0
    }

    /// The whole storage, the uncommitted tail included.
    pub fn data(&self) -> (r: &[u8; N])
        ensures
            r@ == self.raw(),
    {
        &self.data
    }

    /// The number of committed bytes of storage.
    pub fn used(&self) -> (r: usize)
        ensures
            r == self.used_len(),
    {
        self.used
    }

    /// Takes in the outcome of a bus read of the whole storage, and validates it.
    ///
    /// A failed read (`Err(e)`) leaves the buffer empty and yields
    /// `Error::I2cRead(e)`. A successful read (`Ok(bytes)`) overwrites all `N`
    /// bytes of storage; if every triplet carries its checksum the buffer then
    /// holds them all, otherwise it is left empty and yields `Error::Crc`.
    pub fn read_and_validate<E>(&mut self, read: Result<[u8; N], E>) -> (r: Result<(), Error<E>>)
        requires
            old(self).wf(),
        ensures
            final(self).wf(),
            match read {
                Err(e) => {
                    &&& r == Err::<(), Error<E>>(Error::I2cRead(e))
                    &&& final(self)@ == Seq::<u8>::empty()
                },
                Ok(bytes) => {
                    &&& final(self).raw() == bytes@
                    &&& triplets_ok(bytes@) ==> r is Ok && final(self)@ == bytes@
                    &&& !triplets_ok(bytes@) ==> r == Err::<(), Error<E>>(Error::Crc)
                        && final(self)@ == Seq::<u8>::empty()
                },
            },
    {
        self.used = 0;
        proof {
            assert(self@ =~= Seq::<u8>::empty());
        }
        match read {
            Err(e) => Err(Error::I2cRead(e)),
            Ok(bytes) => {
                self.data = bytes;
                if crc8::validate(&self.data).is_err() {
                    proof {
                        assert(self@ =~= Seq::<u8>::empty());
                    }
                    return Err(Error::Crc);
                }
                self.used = N;
                proof {
                    assert(self@ =~= bytes@);
                }
                Ok(())
            },
        }
    }
}

impl<const N: usize> core::ops::Deref for I2cBuffer<N> {
    type Target = [u8];

    /// The committed bytes, as `as_bytes` gives them.
    fn deref(&self) -> (r: &[u8])
        ensures
            self.wf() ==> r@ == self@,
    {
        let end = if self.used <= N {
            self.used
        } else {
            N
        };
        &self.data[0..end]
    }
}

/// A type implementing this trait supports fallibly appending a T to it
pub trait Appendable<T>: Sized {
    /// The states in which appends are accepted.
    spec fn accepts_appends(&self) -> bool;

    /// Append a T to a type. If there is insufficient space, do not modify any data
    /// and return with an error.
    fn append(&mut self, val: T) -> (r: Result<(), AppendError>)
        requires
            old(self).accepts_appends(),
        ensures
            final(self).accepts_appends(),
            r is Err ==> *final(self) == *old(self),
    ;
}

impl<const N: usize> Appendable<[u8; 2]> for I2cBuffer<N> {
    open spec fn accepts_appends(&self) -> bool {
        self.wf()
    }

    /// Commits the data word `val` and its checksum.
    fn append(&mut self, val: [u8; 2]) -> (r: Result<(), AppendError>)
        ensures
            old(self).fits(val@) ==> r is Ok && final(self)@ == old(self)@ + framed(val@),
            old(self).fits(val@) ==> final(self)@.len() == old(self)@.len() + 3,
            !old(self).fits(val@) ==> r == Err::<(), AppendError>(AppendError::BufferTooSmall),
    {
        if N - self.used >= 3 {
            self.push_word(val[0], val[1]);
            proof {
                lemma_framed_push(Seq::empty(), val[0], val[1]);
                assert(Seq::<u8>::empty() + seq![val[0], val[1]] =~= val@);
                assert(framed(Seq::<u8>::empty()) =~= Seq::<u8>::empty());
                assert(Seq::<u8>::empty() + seq![val[0], val[1], word_crc(val[0], val[1])]
                    =~= seq![val[0], val[1], word_crc(val[0], val[1])]);
            }
            Ok(())
        } else {
            Err(AppendError::BufferTooSmall)
        }
    }
}

impl<const N: usize> Appendable<u16> for I2cBuffer<N> {
    open spec fn accepts_appends(&self) -> bool {
        self.wf()
    }

    /// Commits `val` in big-endian order, and its checksum.
    fn append(&mut self, val: u16) -> (r: Result<(), AppendError>)
        ensures
            old(self).fits(u16_be(val)) ==> r is Ok && final(self)@ == old(self)@ + framed(u16_be(val)),
            old(self).fits(u16_be(val)) ==> final(self)@.len() == old(self)@.len() + 3,
            !old(self).fits(u16_be(val)) ==> r == Err::<(), AppendError>(AppendError::BufferTooSmall),
    {
        let bytes: [u8; 2] = [(val >> 8) as u8, val as u8];
        proof {
            assert(bytes@ =~= u16_be(val));
        }
        self.append(bytes)
    }
}

impl<const N: usize> Appendable<u32> for I2cBuffer<N> {
    open spec fn accepts_appends(&self) -> bool {
        self.wf()
    }

    /// Commits `val` in big-endian order as two data words, each with its
    /// checksum; if both do not fit, nothing is written.
    fn append(&mut self, val: u32) -> (r: Result<(), AppendError>)
        ensures
            old(self).fits(u32_be(val)) ==> r is Ok && final(self)@ == old(self)@ + framed(u32_be(val)),
            old(self).fits(u32_be(val)) ==> final(self)@.len() == old(self)@.len() + 6,
            !old(self).fits(u32_be(val)) ==> r == Err::<(), AppendError>(AppendError::BufferTooSmall),
    {
        if N - self.used < 6 {
            return Err(AppendError::BufferTooSmall);
        }
        let b0 = (val >> 24) as u8;
        let b1 = (val >> 16) as u8;
        let b2 = (val >> 8) as u8;
        let b3 = val as u8;
        self.push_word(b0, b1);
        self.push_word(b2, b3);
        proof {
            lemma_framed_word(b0, b1);
            lemma_framed_push(seq![b0, b1], b2, b3);
            assert(seq![b0, b1] + seq![b2, b3] =~= u32_be(val));
            assert(final(self)@ =~= old(self)@ + framed(u32_be(val)));
        }
        Ok(())
    }
}

impl<'a, const N: usize> Appendable<&'a [u16]> for I2cBuffer<N> {
    open spec fn accepts_appends(&self) -> bool {
        self.wf()
    }

    /// Commits each value of `val` in turn, as by appending it alone; if they
    /// do not all fit, nothing is written.
    fn append(&mut self, val: &'a [u16]) -> (r: Result<(), AppendError>)
        ensures
            old(self).fits(u16s_be(val@)) ==> r is Ok && final(self)@ == old(self)@ + framed(
                u16s_be(val@),
            ),
            old(self).fits(u16s_be(val@)) ==> final(self)@.len() == old(self)@.len() + 3 * val@.len(),
            !old(self).fits(u16s_be(val@)) ==> r == Err::<(), AppendError>(
                AppendError::BufferTooSmall,
            ),
    {
        proof {
            lemma_u16s_be_len(val@);
        }
        if val.len() > (N - self.used) / 3 {
            return Err(AppendError::BufferTooSmall);
        }
        let mut i: usize = 0;
        while i < val.len()
            invariant
                self.wf(),
                i <= val@.len(),
                old(self).used_len() + 3 * val@.len() <= N,
                self@.len() == old(self)@.len() + 3 * i,
                self@ == old(self)@ + framed(u16s_be(val@.subrange(0, i as int))),
            decreases val@.len() - i,
        {
            let v = val[i];
            let hi = (v >> 8) as u8;
            let lo = v as u8;
            proof {
                let done = val@.subrange(0, i as int);
                assert(val@.subrange(0, i + 1).drop_last() =~= done);
                assert(u16_be(v) =~= seq![hi, lo]);
                lemma_u16s_be_len(done);
                lemma_framed_push(u16s_be(done), hi, lo);
            }
            self.push_word(hi, lo);
            i += 1;
        }
        proof {
            assert(val@.subrange(0, val@.len() as int) =~= val@);
        }
        Ok(())
    }
}

impl<'a, const N: usize> Appendable<&'a [u8]> for I2cBuffer<N> {
    open spec fn accepts_appends(&self) -> bool {
        self.wf()
    }

    /// Commits `val` as a run of data words, each with its checksum. An odd
    /// length is refused before capacity is looked at; if the words do not
    /// all fit, nothing is written.
    fn append(&mut self, val: &'a [u8]) -> (r: Result<(), AppendError>)
        ensures
            val@.len() % 2 != 0 ==> r == Err::<(), AppendError>(AppendError::InvalidBufferSize),
            val@.len() % 2 == 0 && old(self).fits(val@) ==> r is Ok && final(self)@ == old(self)@
                + framed(val@),
            val@.len() % 2 == 0 && old(self).fits(val@) ==> final(self)@.len() == old(self)@.len()
                + val@.len() / 2 * 3,
            val@.len() % 2 == 0 && !old(self).fits(val@) ==> r == Err::<(), AppendError>(
                AppendError::BufferTooSmall,
            ),
    {
        if val.len() % 2 != 0 {
            return Err(AppendError::InvalidBufferSize);
        }
        if val.len() / 2 > (N - self.used) / 3 {
            return Err(AppendError::BufferTooSmall);
        }
        let mut i: usize = 0;
        while i < val.len()
            invariant
                self.wf(),
                i <= val@.len(),
                i % 2 == 0,
                val@.len() % 2 == 0,
                old(self).used_len() + val@.len() / 2 * 3 <= N,
                self@.len() == old(self)@.len() + i / 2 * 3,
                self@ == old(self)@ + framed(val@.subrange(0, i as int)),
            decreases val@.len() - i,
        {
            let a = val[i];
            let b = val[i + 1];
            proof {
                let done = val@.subrange(0, i as int);
                assert(val@.subrange(0, i + 2) =~= done + seq![a, b]);
                lemma_framed_push(done, a, b);
            }
            self.push_word(a, b);
            i += 2;
        }
        proof {
            assert(val@.subrange(0, val@.len() as int) =~= val@);
        }
        Ok(())
    }
}

} // verus!
