use vstd::prelude::*;
use aes_gcm::Aes128Gcm;
use aes_gcm::aead::{Aead, KeyInit};
use aes_gcm::aead::generic_array::GenericArray;
use crate::exe_utils::{le_bytes, le_value, zeros, lemma_le_bytes_len};

verus! {

/// What AES-128-GCM encryption with the given key and nonce (and no associated data) makes of a
/// plaintext: the ciphertext followed by the authentication tag.
pub uninterp spec fn aes_gcm_seal(key: Seq<u8>, nonce: Seq<u8>, plaintext: Seq<u8>) -> Seq<u8>;

/// What AES-128-GCM decryption with the given key and nonce makes of a ciphertext: the
/// plaintext, or none if the data is not authentic.
pub uninterp spec fn aes_gcm_open(key: Seq<u8>, nonce: Seq<u8>, ciphertext: Seq<u8>) -> Option<Seq<u8>>;

/// The largest plaintext that AES-GCM encrypts.
pub open spec fn max_plaintext_len() -> int {
    0x10_0000_0000
}

/// Encrypts with `Aes128Gcm::encrypt` (from the `aes-gcm` crate, through the `aead` trait).
/// Trusted: it succeeds exactly for plaintexts of at most 2^36 bytes (the crate's `P_MAX`), the
/// result is the plaintext's length plus a 16-byte tag, and decrypting it with the same key and
/// nonce gives back the plaintext (the defining property of an AEAD).
#[verifier::external_body]
fn seal(key: &[u8], nonce: &[u8], plaintext: &[u8]) -> (r: Result<Vec<u8>, String>)
    requires
        key@.len() == 16,
        nonce@.len() == 12,
    ensures
        r is Ok <==> plaintext@.len() <= max_plaintext_len(),
        r matches Ok(c) ==> c@ == aes_gcm_seal(key@, nonce@, plaintext@),
        r matches Ok(c) ==> c@.len() == plaintext@.len() + 16,
        r matches Ok(c) ==> aes_gcm_open(key@, nonce@, c@) == Some(plaintext@),
{
    let cipher = Aes128Gcm::new(GenericArray::from_slice(key));
    cipher.encrypt(GenericArray::from_slice(nonce), plaintext).map_err(|e| e.to_string())
}

/// Decrypts with `Aes128Gcm::decrypt`. Trusted: the result is the plaintext exactly when
/// decryption succeeds, as named by `aes_gcm_open`.
#[verifier::external_body]
fn open(key: &[u8], nonce: &[u8], ciphertext: &[u8]) -> (r: Result<Vec<u8>, String>)
    requires
        key@.len() == 16,
        nonce@.len() == 12,
    ensures
        match aes_gcm_open(key@, nonce@, ciphertext@) {
            Some(p) => r matches Ok(v) && v@ == p,
            None => r is Err,
        },
{
    let cipher = Aes128Gcm::new(GenericArray::from_slice(key));
    cipher.decrypt(GenericArray::from_slice(nonce), ciphertext).map_err(|e| e.to_string())
}

/// The 96-bit nonce for a counter value: its eight little-endian bytes, padded with zeros.
pub open spec fn nonce_bytes(n: u64) -> Seq<u8> {
    le_bytes(n as int, 8) + zeros(4)
}

/// The counter from which one direction of a connection takes its nonces. The two directions
/// start from different parities (even for boss to doer, odd for doer to boss) and step by two,
/// so that they never use the same nonce.
pub struct NonceCounter {
    next: u64,
    lsb: u64,
}

impl NonceCounter {
    /// The counter value that the next message uses.
    pub closed spec fn next(&self) -> u64 {
        self.next
    }

    /// The parity of this direction's counter values.
    pub closed spec fn parity(&self) -> u64 {
        self.lsb
    }

    /// The counter is of its direction's parity.
    pub closed spec fn wf(&self) -> bool {
        self.lsb < 2 && self.next % 2 == self.lsb
    }

    /// A counter whose first value is `lsb`, 0 or 1.
    pub fn new(lsb: u64) -> (r: NonceCounter)
        requires
            lsb < 2,
        ensures
            r.wf(),
            r.next() == lsb,
            r.parity() == lsb,
    {
        NonceCounter { next: lsb, lsb }
    }

    /// The nonce for the next message.
    pub fn nonce(&self) -> (r: Vec<u8>)
        ensures
            r@ == nonce_bytes(self.next()),
            r@.len() == 12,
    {
        let mut r: Vec<u8> = Vec::new();
        let mut cur: u64 = self.next;
        let mut i: usize = 0;
        while i < 8
            invariant
                i <= 8,
                le_bytes(self.next as int, 8) == r@ + le_bytes(cur as int, (8 - i) as nat),
            decreases 8 - i,
        {
            let ghost rest = le_bytes((cur / 256) as int, (8 - i - 1) as nat);
            assert(le_bytes(cur as int, (8 - i) as nat) == seq![(cur % 256) as u8] + rest);
            r.push((cur % 256) as u8);
            cur = cur / 256;
            i = i + 1;
        }
        assert(r@ + le_bytes(cur as int, 0) =~= r@);
        let mut j: usize = 0;
        while j < 4
            invariant
                j <= 4,
                r@ == le_bytes(self.next as int, 8) + zeros(j as nat),
            decreases 4 - j,
        {
            r.push(0);
            j = j + 1;
            assert(r@ =~= le_bytes(self.next as int, 8) + zeros(j as nat));
        }
        proof { lemma_le_bytes_len(self.next as int, 8); }
        r
    }

    /// Moves on to the next value of this direction; fails, changing nothing, when the counter
    /// would overflow.
    pub fn advance(&mut self) -> (r: Result<(), String>)
        requires
            old(self).wf(),
        ensures
            final(self).wf(),
            final(self).parity() == old(self).parity(),
            r is Ok <==> old(self).next() + 2 <= u64::MAX,
            r is Ok ==> final(self).next() == old(self).next() + 2,
            r is Err ==> final(self).next() == old(self).next(),
    {
        if self.next > u64::MAX - 2 {
            return Err(String::from_str("Nonce counter exhausted"));
        }
        self.next = self.next + 2;
        Ok(())
    }
}

/// 256 to the power `width`: how many values `width` bytes hold.
pub open spec fn byte_range(width: nat) -> int
    decreases width,
{
    if width == 0 { 1 } else { 256 * byte_range((width - 1) as nat) }
}

proof fn lemma_byte_range_positive(width: nat)
    ensures
        byte_range(width) > 0,
    decreases width,
{
    if width > 0 {
        lemma_byte_range_positive((width - 1) as nat);
    }
}

proof fn lemma_byte_range_8()
    ensures
        byte_range(8) == 0x1_0000_0000_0000_0000,
{
    reveal_with_fuel(byte_range, 9);
}

/// A little-endian number read back from its bytes is the number (below 256^width).
pub proof fn lemma_le_value_of_le_bytes(v: int, width: nat)
    requires
        0 <= v,
    ensures
        le_value(le_bytes(v, width), 0, width) == v % byte_range(width),
    decreases width,
{
    if width > 0 {
        lemma_le_value_of_le_bytes(v / 256, (width - 1) as nat);
        let s = le_bytes(v, width);
        let t = le_bytes(v / 256, (width - 1) as nat);
        lemma_le_bytes_len(v / 256, (width - 1) as nat);
        assert(s == seq![(v % 256) as u8] + t);
        assert(s.skip(1) =~= t);
        lemma_le_value_shift(s, t, (width - 1) as nat);
        let p = byte_range((width - 1) as nat);
        lemma_byte_range_positive((width - 1) as nat);
        assert(v % 256 + 256 * ((v / 256) % p) == v % (256 * p)) by {
            vstd::arithmetic::div_mod::lemma_breakdown(v, 256, p);
        }
    }
}

/// Reading a number one byte further along a sequence equals reading it from the sequence's tail.
proof fn lemma_le_value_shift(s: Seq<u8>, t: Seq<u8>, width: nat)
    requires
        s.len() == t.len() + 1,
        t.len() >= width,
        s.skip(1) == t,
    ensures
        le_value(s, 1, width) == le_value(t, 0, width),
    decreases width,
{
    if width > 0 {
        assert(s[1] == t[0]);
        lemma_le_value_shift_from(s, t, 1, width);
    }
}

proof fn lemma_le_value_shift_from(s: Seq<u8>, t: Seq<u8>, k: int, width: nat)
    requires
        1 <= k,
        s.len() == t.len() + 1,
        s.skip(1) == t,
        k - 1 + width <= t.len(),
    ensures
        le_value(s, k, width) == le_value(t, k - 1, width),
    decreases width,
{
    if width > 0 {
        assert(s.skip(1)[k - 1] == s[k]);
        lemma_le_value_shift_from(s, t, k + 1, (width - 1) as nat);
    }
}

/// Different counter values give different nonces.
pub proof fn lemma_nonce_bytes_injective(a: u64, b: u64)
    requires
        a != b,
    ensures
        nonce_bytes(a) != nonce_bytes(b),
{
    lemma_le_value_of_le_bytes(a as int, 8);
    lemma_le_value_of_le_bytes(b as int, 8);
    lemma_le_bytes_len(a as int, 8);
    lemma_le_bytes_len(b as int, 8);
    lemma_byte_range_8();
    if nonce_bytes(a) == nonce_bytes(b) {
        assert(le_bytes(a as int, 8) == nonce_bytes(a).take(8));
        assert(le_bytes(b as int, 8) == nonce_bytes(b).take(8));
    }
}

/// The two directions of a connection never use the same nonce: counters of different parity
/// always give different nonces.
pub proof fn lemma_directions_never_share_a_nonce(sending: NonceCounter, receiving: NonceCounter)
    requires
        sending.wf(),
        receiving.wf(),
        sending.parity() != receiving.parity(),
    ensures
        nonce_bytes(sending.next()) != nonce_bytes(receiving.next()),
{
    lemma_nonce_bytes_injective(sending.next(), receiving.next());
}

/// A message on the wire: the length of the encrypted data as eight little-endian bytes, then
/// the encrypted data.
pub open spec fn frame(ciphertext: Seq<u8>) -> Seq<u8> {
    le_bytes(ciphertext.len() as int, 8) + ciphertext
}

/// Encrypts a serialized message with the next nonce of the sending counter and frames it. The
/// header of the frame gives the length of the rest, and opening the rest with the same key and
/// nonce gives back the message.
pub fn seal_message(key: &[u8], counter: &mut NonceCounter, message: &[u8]) -> (r: Result<Vec<u8>, String>)
    requires
        key@.len() == 16,
        old(counter).wf(),
    ensures
        final(counter).wf(),
        final(counter).parity() == old(counter).parity(),
        r is Ok <==> message@.len() <= max_plaintext_len() && old(counter).next() + 2 <= u64::MAX,
        r matches Ok(f) ==> f@ == frame(aes_gcm_seal(key@, nonce_bytes(old(counter).next()), message@))
            && final(counter).next() == old(counter).next() + 2,
        r matches Ok(f) ==> le_value(f@, 0, 8) == f@.len() - 8
            && aes_gcm_open(key@, nonce_bytes(old(counter).next()), f@.skip(8)) == Some(message@),
        r is Err ==> final(counter).next() == old(counter).next(),
{
    if counter.next > u64::MAX - 2 {
        return Err(String::from_str("Nonce counter exhausted"));
    }
    let nonce = counter.nonce();
    let c = match seal(key, nonce.as_slice(), message) {
        Ok(c) => c,
        Err(e) => return Err(e),
    };
    let _ = counter.advance();
    let mut f = crate::exe_utils::le_bytes_of(c.len() as u64, 8);
    let ghost header = f@;
    proof {
        lemma_le_bytes_len(c@.len() as int, 8);
        lemma_le_value_of_le_bytes(c@.len() as int, 8);
        lemma_byte_range_8();
    }
    let mut c = c;
    f.append(&mut c);
    proof {
        assert(f@.skip(8) =~= aes_gcm_seal(key@, nonce@, message@));
        assert(f@.take(8) =~= header);
        lemma_le_value_prefix(f@, header, 8);
    }
    Ok(f)
}

/// A number read from the start of a sequence only depends on the bytes it reads.
proof fn lemma_le_value_prefix(s: Seq<u8>, prefix: Seq<u8>, width: nat)
    requires
        prefix.len() == width,
        s.len() >= width,
        s.take(width as int) == prefix,
    ensures
        le_value(s, 0, width) == le_value(prefix, 0, width),
{
    lemma_le_value_prefix_from(s, prefix, 0, width);
}

proof fn lemma_le_value_prefix_from(s: Seq<u8>, prefix: Seq<u8>, k: int, width: nat)
    requires
        0 <= k,
        k + width <= prefix.len(),
        prefix.len() <= s.len(),
        s.take(prefix.len() as int) == prefix,
    ensures
        le_value(s, k, width) == le_value(prefix, k, width),
    decreases width,
{
    if width > 0 {
        assert(s.take(prefix.len() as int)[k] == s[k]);
        lemma_le_value_prefix_from(s, prefix, k + 1, (width - 1) as nat);
    }
}

/// The length of the encrypted data that follows a frame header.
pub fn frame_length(header: &[u8]) -> (r: u64)
    requires
        header@.len() == 8,
    ensures
        r == le_value(header@, 0, 8),
{
    match crate::exe_utils::read_u64(header, 0) {
        Ok(v) => v,
        Err(_) => 0,
    }
}

/// Decrypts the encrypted data of a frame with the next nonce of the receiving counter.
pub fn open_message(key: &[u8], counter: &mut NonceCounter, ciphertext: &[u8]) -> (r: Result<Vec<u8>, String>)
    requires
        key@.len() == 16,
        old(counter).wf(),
    ensures
        final(counter).wf(),
        final(counter).parity() == old(counter).parity(),
        r is Ok <==> aes_gcm_open(key@, nonce_bytes(old(counter).next()), ciphertext@) is Some
            && old(counter).next() + 2 <= u64::MAX,
        r matches Ok(m) ==> aes_gcm_open(key@, nonce_bytes(old(counter).next()), ciphertext@) == Some(m@)
            && final(counter).next() == old(counter).next() + 2,
        r is Err ==> final(counter).next() == old(counter).next(),
{
    if counter.next > u64::MAX - 2 {
        return Err(String::from_str("Nonce counter exhausted"));
    }
    let nonce = counter.nonce();
    let m = match open(key, nonce.as_slice(), ciphertext) {
        Ok(m) => m,
        Err(e) => {
            let mut msg = String::from_str("Error decrypting: ");
            msg.append(e.as_str());
            return Err(msg);
        }
    };
    let _ = counter.advance();
    Ok(m)
}

} // verus!
