//! Fixed-width byte values held as machine words.
//!
//! A hash is four big-endian words and an epoch two, so that both are compared
//! by value; `bytes` is the wire form.
use vstd::prelude::*;

verus! {

/// The eight bytes of `word`, most significant first.
pub open spec fn word_bytes(word: u64) -> Seq<u8> {
    seq![
        (word >> 56) as u8,
        (word >> 48) as u8,
        (word >> 40) as u8,
        (word >> 32) as u8,
        (word >> 24) as u8,
        (word >> 16) as u8,
        (word >> 8) as u8,
        word as u8,
    ]
}

/// The word whose bytes, most significant first, stand at `at` in `bytes`.
pub open spec fn word_at(bytes: Seq<u8>, at: int) -> u64 {
    (bytes[at] as u64) << 56 | (bytes[at + 1] as u64) << 48 | (bytes[at + 2] as u64) << 40 | (bytes[at
        + 3] as u64) << 32 | (bytes[at + 4] as u64) << 24 | (bytes[at + 5] as u64) << 16 | (bytes[at
        + 6] as u64) << 8 | (bytes[at + 7] as u64)
}

/// Splitting a word into bytes and joining them again gives the word back.
pub proof fn lemma_word_bytes_join(word: u64)
    ensures
        word_bytes(word).len() == 8,
        word_at(word_bytes(word), 0) == word,
{
    assert(((word >> 56) as u8 as u64) << 56 | ((word >> 48) as u8 as u64) << 48 | ((word
        >> 40) as u8 as u64) << 40 | ((word >> 32) as u8 as u64) << 32 | ((word >> 24) as u8 as u64)
        << 24 | ((word >> 16) as u8 as u64) << 16 | ((word >> 8) as u8 as u64) << 8 | (
    word as u8 as u64) == word) by (bit_vector);
}

/// Joining eight bytes and splitting the word again gives the bytes back.
pub proof fn lemma_word_at_split(bytes: Seq<u8>, at: int)
    requires
        0 <= at,
        at + 8 <= bytes.len(),
    ensures
        word_bytes(word_at(bytes, at)) =~= bytes.subrange(at, at + 8),
{
    let (a, b, c, d) = (bytes[at], bytes[at + 1], bytes[at + 2], bytes[at + 3]);
    let (e, f, g, h) = (bytes[at + 4], bytes[at + 5], bytes[at + 6], bytes[at + 7]);
    let w = word_at(bytes, at);
    assert(w == (a as u64) << 56 | (b as u64) << 48 | (c as u64) << 40 | (d as u64) << 32 | (
    e as u64) << 24 | (f as u64) << 16 | (g as u64) << 8 | (h as u64));
    assert((w >> 56) as u8 == a && (w >> 48) as u8 == b && (w >> 40) as u8 == c && (w >> 32) as u8
        == d && (w >> 24) as u8 == e && (w >> 16) as u8 == f && (w >> 8) as u8 == g && w as u8
        == h) by (bit_vector)
        requires
            w == (a as u64) << 56 | (b as u64) << 48 | (c as u64) << 40 | (d as u64) << 32 | (
            e as u64) << 24 | (f as u64) << 16 | (g as u64) << 8 | (h as u64),
    ;
}

/// Appends the bytes of `word`, most significant first.
pub fn push_word(out: &mut Vec<u8>, word: u64)
    ensures
        final(out)@ == old(out)@ + word_bytes(word),
{
    out.push((word >> 56) as u8);
    out.push((word >> 48) as u8);
    out.push((word >> 40) as u8);
    out.push((word >> 32) as u8);
    out.push((word >> 24) as u8);
    out.push((word >> 16) as u8);
    out.push((word >> 8) as u8);
    out.push(word as u8);
    assert(out@ =~= old(out)@ + word_bytes(word));
}

/// Reads the word whose bytes stand at `at`.
pub fn read_word(bytes: &[u8], at: usize) -> (word: u64)
    requires
        at + 8 <= bytes@.len(),
    ensures
        word == word_at(bytes@, at as int),
{
    (bytes[at] as u64) << 56 | (bytes[at + 1] as u64) << 48 | (bytes[at + 2] as u64) << 40 | (
    bytes[at + 3] as u64) << 32 | (bytes[at + 4] as u64) << 24 | (bytes[at + 5] as u64) << 16 | (
    bytes[at + 6] as u64) << 8 | (bytes[at + 7] as u64)
}

/// A 32-byte value: a block hash, a transaction hash or a digest.
#[derive(Clone, Copy, Debug, PartialEq, Eq, Structural)]
pub struct B256 {
    pub w0: u64,
    pub w1: u64,
    pub w2: u64,
    pub w3: u64,
}

impl B256 {
    /// The 32 bytes of the value.
    pub open spec fn bytes(self) -> Seq<u8> {
        word_bytes(self.w0) + word_bytes(self.w1) + word_bytes(self.w2) + word_bytes(self.w3)
    }

    /// The value whose bytes are the first 32 of `bytes`.
    pub open spec fn of_bytes(bytes: Seq<u8>) -> B256 {
        B256 {
            w0: word_at(bytes, 0),
            w1: word_at(bytes, 8),
            w2: word_at(bytes, 16),
            w3: word_at(bytes, 24),
        }
    }

    /// `of_bytes` undoes `bytes`.
    pub proof fn lemma_of_bytes(self)
        ensures
            self.bytes().len() == 32,
            B256::of_bytes(self.bytes()) == self,
    {
        lemma_word_bytes_join(self.w0);
        lemma_word_bytes_join(self.w1);
        lemma_word_bytes_join(self.w2);
        lemma_word_bytes_join(self.w3);
        let s = self.bytes();
        assert forall|i: int| 0 <= i < 8 implies s[i] == word_bytes(self.w0)[i] && s[i + 8]
            == word_bytes(self.w1)[i] && s[i + 16] == word_bytes(self.w2)[i] && s[i + 24]
            == word_bytes(self.w3)[i] by {}
        assert(word_at(s, 0) == word_at(word_bytes(self.w0), 0));
        assert(word_at(s, 8) == word_at(word_bytes(self.w1), 0)) by {
            assert(s[8] == word_bytes(self.w1)[0] && s[9] == word_bytes(self.w1)[1]);
        }
        assert(word_at(s, 16) == word_at(word_bytes(self.w2), 0)) by {
            assert(s[16] == word_bytes(self.w2)[0] && s[17] == word_bytes(self.w2)[1]);
        }
        assert(word_at(s, 24) == word_at(word_bytes(self.w3), 0)) by {
            assert(s[24] == word_bytes(self.w3)[0] && s[25] == word_bytes(self.w3)[1]);
        }
    }

    /// `bytes` undoes `of_bytes` on 32 bytes.
    pub proof fn lemma_bytes_of(bytes: Seq<u8>)
        requires
            bytes.len() == 32,
        ensures
            B256::of_bytes(bytes).bytes() =~= bytes,
    {
        lemma_word_at_split(bytes, 0);
        lemma_word_at_split(bytes, 8);
        lemma_word_at_split(bytes, 16);
        lemma_word_at_split(bytes, 24);
    }

    /// Two values with the same bytes are the same value.
    pub proof fn lemma_bytes_injective(a: B256, b: B256)
        requires
            a.bytes() == b.bytes(),
        ensures
            a == b,
    {
        a.lemma_of_bytes();
        b.lemma_of_bytes();
    }

    /// The value with every byte zero.
    pub fn zero() -> (r: B256)
        ensures
            r == (B256 { w0: 0, w1: 0, w2: 0, w3: 0 }),
    {
        B256 { w0: 0, w1: 0, w2: 0, w3: 0 }
    }

    /// Reads a value from 32 bytes.
    pub fn from_slice(bytes: &[u8]) -> (r: B256)
        requires
            bytes@.len() == 32,
        ensures
            r == B256::of_bytes(bytes@),
            r.bytes() == bytes@,
    {
        proof {
            B256::lemma_bytes_of(bytes@);
        }
        B256 {
            w0: read_word(bytes, 0),
            w1: read_word(bytes, 8),
            w2: read_word(bytes, 16),
            w3: read_word(bytes, 24),
        }
    }

    /// The 32 bytes as a vector.
    pub fn to_vec(&self) -> (r: Vec<u8>)
        ensures
            r@ == self.bytes(),
    {
        let mut out: Vec<u8> = Vec::with_capacity(32);
        push_word(&mut out, self.w0);
        push_word(&mut out, self.w1);
        push_word(&mut out, self.w2);
        push_word(&mut out, self.w3);
        assert(out@ =~= self.bytes());
        out
    }
}

/// The 16 bytes that separate one coordinator incarnation from another.
#[derive(Clone, Copy, Debug, PartialEq, Eq, Structural)]
pub struct Epoch {
    pub hi: u64,
    pub lo: u64,
}

impl Epoch {
    /// The 16 bytes of the epoch.
    pub open spec fn bytes(self) -> Seq<u8> {
        word_bytes(self.hi) + word_bytes(self.lo)
    }

    /// The epoch whose bytes are the first 16 of `bytes`.
    pub open spec fn of_bytes(bytes: Seq<u8>) -> Epoch {
        Epoch { hi: word_at(bytes, 0), lo: word_at(bytes, 8) }
    }

    /// `of_bytes` undoes `bytes`.
    pub proof fn lemma_of_bytes(self)
        ensures
            self.bytes().len() == 16,
            Epoch::of_bytes(self.bytes()) == self,
    {
        lemma_word_bytes_join(self.hi);
        lemma_word_bytes_join(self.lo);
        let s = self.bytes();
        assert(word_at(s, 0) == word_at(word_bytes(self.hi), 0));
        assert(word_at(s, 8) == word_at(word_bytes(self.lo), 0)) by {
            assert(s[8] == word_bytes(self.lo)[0] && s[9] == word_bytes(self.lo)[1]);
        }
    }

    /// `bytes` undoes `of_bytes` on 16 bytes.
    pub proof fn lemma_bytes_of(bytes: Seq<u8>)
        requires
            bytes.len() == 16,
        ensures
            Epoch::of_bytes(bytes).bytes() =~= bytes,
    {
        lemma_word_at_split(bytes, 0);
        lemma_word_at_split(bytes, 8);
    }

    /// Reads an epoch from 16 bytes.
    pub fn from_slice(bytes: &[u8]) -> (r: Epoch)
        requires
            bytes@.len() == 16,
        ensures
            r == Epoch::of_bytes(bytes@),
            r.bytes() == bytes@,
    {
        proof {
            Epoch::lemma_bytes_of(bytes@);
        }
        Epoch { hi: read_word(bytes, 0), lo: read_word(bytes, 8) }
    }

    /// The 16 bytes as a vector.
    pub fn to_vec(&self) -> (r: Vec<u8>)
        ensures
            r@ == self.bytes(),
    {
        let mut out: Vec<u8> = Vec::with_capacity(16);
        push_word(&mut out, self.hi);
        push_word(&mut out, self.lo);
        assert(out@ =~= self.bytes());
        out
    }
}

} // verus!
