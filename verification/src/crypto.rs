//! Sealing of protected fields: AES-256-GCM under the session key.
//!
//! A sealed blob is `nonce(12) || ciphertext || tag(16)`. Every sealing takes
//! a nonce of its own, and blobs under different nonces differ.

use vstd::prelude::*;

verus! {

/// Bytes of nonce in front of a sealed blob.
pub const NONCE_LEN: usize = 12;

/// Bytes a sealed blob is at least long: a nonce and a tag.
pub const MIN_SEALED_LEN: usize = 28;

/// Most bytes AES-256-GCM takes in one message.
pub const MAX_PLAINTEXT_LEN: u64 = 0x10_0000_0000;

/// A 32-byte AES-256 key that wraps protected fields.
pub struct SessionKey {
    /// The raw key.
    pub bytes: [u8; 32],
}

impl SessionKey {
    /// Wraps a raw 32-byte key.
    pub fn from_bytes(bytes: [u8; 32]) -> (r: SessionKey)
        ensures
            r@ == bytes@,
    {
        SessionKey { bytes }
    }

    /// Borrows the key bytes.
    pub fn as_bytes(&self) -> (r: &[u8; 32])
        ensures
            r@ == self@,
    {
        &self.bytes
    }
}

impl View for SessionKey {
    type V = Seq<u8>;

    open spec fn view(&self) -> Seq<u8> {
        self.bytes@
    }
}

/// What AES-256-GCM makes of a plaintext: ciphertext and tag.
pub uninterp spec fn aes_gcm_sealed(key: Seq<u8>, nonce: Seq<u8>, plaintext: Seq<u8>) -> Seq<u8>;

/// What AES-256-GCM opens a ciphertext and tag to; `None` where the tag does
/// not verify.
pub uninterp spec fn aes_gcm_opened(key: Seq<u8>, nonce: Seq<u8>, sealed: Seq<u8>) -> Option<
    Seq<u8>,
>;

/// Calls `aes_gcm::Aes256Gcm::encrypt` with no associated data. It refuses
/// only messages longer than 2^36 bytes; otherwise it returns as many bytes as
/// went in and a 16-byte tag, a function of key, nonce and message, which
/// `decrypt` under the same key and nonce opens to the message again.
#[verifier::external_body]
fn aes_gcm_encrypt(key: &[u8; 32], nonce: &[u8; 12], plaintext: &[u8]) -> (r: Option<Vec<u8>>)
    requires
        plaintext@.len() <= usize::MAX / 8 * 3 - 28,
    ensures
        r is Some <==> plaintext@.len() <= MAX_PLAINTEXT_LEN,
        r is Some ==> r->0@ == aes_gcm_sealed(key@, nonce@, plaintext@),
        r is Some ==> r->0@.len() == plaintext@.len() + 16,
        r is Some ==> aes_gcm_opened(key@, nonce@, r->0@) == Some(plaintext@),
{
    let cipher: aes_gcm::Aes256Gcm = aes_gcm::KeyInit::new(key.into());
    aes_gcm::aead::Aead::encrypt(&cipher, nonce.into(), plaintext).ok()
}

/// Calls `aes_gcm::Aes256Gcm::decrypt` with no associated data. The outcome is
/// a function of key, nonce and ciphertext, and a plaintext is 16 bytes
/// shorter than what it was opened from.
#[verifier::external_body]
fn aes_gcm_decrypt(key: &[u8; 32], nonce: &[u8; 12], sealed: &[u8]) -> (r: Option<Vec<u8>>)
    ensures
        r is Some <==> aes_gcm_opened(key@, nonce@, sealed@) is Some,
        r is Some ==> r->0@ == aes_gcm_opened(key@, nonce@, sealed@)->0,
        r is Some ==> r->0@.len() + 16 == sealed@.len(),
{
    let cipher: aes_gcm::Aes256Gcm = aes_gcm::KeyInit::new(key.into());
    aes_gcm::aead::Aead::decrypt(&cipher, nonce.into(), sealed).ok()
}

/// Calls `getrandom::getrandom` on a buffer of `n` bytes. On success the
/// buffer is filled; what it is filled with is left to chance. The text of an
/// error is that of the operating system.
#[verifier::external_body]
pub(crate) fn random_bytes(n: usize) -> (r: Result<Vec<u8>, String>)
    requires
        n <= 64,
    ensures
        r is Ok ==> r->Ok_0@.len() == n,
{
    let mut buf = vec![0u8; n];
    getrandom::getrandom(&mut buf).map(|_| buf).map_err(|e| e.to_string())
}

/// What a sealed blob opens to under a key.
pub open spec fn opened(key: Seq<u8>, blob: Seq<u8>) -> Option<Seq<u8>> {
    if blob.len() < MIN_SEALED_LEN {
        None
    } else {
        aes_gcm_opened(key, blob.take(12), blob.skip(12))
    }
}

fn nonce_from(bytes: &[u8]) -> (r: [u8; 12])
    requires
        bytes@.len() >= 12,
    ensures
        r@ == bytes@.take(12),
{
    let mut out: [u8; 12] = [0u8; 12];
    let mut i: usize = 0;
    while i < 12
        invariant
            i <= 12,
            bytes@.len() >= 12,
            forall|k: int| 0 <= k < i ==> out@[k] == bytes@[k],
        decreases 12 - i,
    {
        out[i] = bytes[i];
        i = i + 1;
    }
    assert(out@ =~= bytes@.take(12));
    out
}

/// Opens a sealed blob under the session key.
pub fn unwrap_with_session_key(session_key: &SessionKey, wrapped: &[u8]) -> (r: Result<
    Vec<u8>,
    String,
>)
    ensures
        r is Ok <==> opened(session_key@, wrapped@) is Some,
        r is Ok ==> r->Ok_0@ == opened(session_key@, wrapped@)->0,
        wrapped@.len() < MIN_SEALED_LEN ==> (r is Err && r->Err_0@ == "wrapped blob too short"@),
        wrapped@.len() >= MIN_SEALED_LEN && opened(session_key@, wrapped@) is None ==> (r is Err
            && r->Err_0@ == "aead::Error"@),
{
    if wrapped.len() < MIN_SEALED_LEN {
        return Err("wrapped blob too short".to_owned());
    }
    let (nonce_bytes, ciphertext) = wrapped.split_at(12);
    let nonce = nonce_from(nonce_bytes);
    proof {
        assert(nonce_bytes@.take(12) =~= wrapped@.take(12));
        assert(ciphertext@ =~= wrapped@.skip(12));
    }
    match aes_gcm_decrypt(&session_key.bytes, &nonce, ciphertext) {
        Some(plain) => Ok(plain),
        None => Err("aead::Error".to_owned()),
    }
}

/// The sealed blob of a plaintext under a given nonce.
pub open spec fn sealed(key: Seq<u8>, nonce: Seq<u8>, plaintext: Seq<u8>) -> Seq<u8> {
    nonce + aes_gcm_sealed(key, nonce, plaintext)
}

/// Whether a plaintext is short enough to be sealed.
pub open spec fn sealable(plaintext: Seq<u8>) -> bool {
    plaintext.len() <= MAX_PLAINTEXT_LEN && plaintext.len() <= usize::MAX / 8 * 3 - 28
}

/// Seals a plaintext under a nonce already drawn. Fails only on a plaintext
/// too long for the cipher or for the address space.
pub fn wrap_with_nonce(session_key: &SessionKey, nonce: &[u8; 12], plaintext: &[u8]) -> (r: Result<
    Vec<u8>,
    String,
>)
    ensures
        r is Ok <==> sealable(plaintext@),
        r is Ok ==> r->Ok_0@ == sealed(session_key@, nonce@, plaintext@),
        r is Ok ==> r->Ok_0@.len() == plaintext@.len() + MIN_SEALED_LEN,
        r is Ok ==> opened(session_key@, r->Ok_0@) == Some(plaintext@),
        r is Err ==> r->Err_0@ == "aead::Error"@,
{
    if plaintext.len() > usize::MAX / 8 * 3 - 28 {
        return Err("aead::Error".to_owned());
    }
    match aes_gcm_encrypt(&session_key.bytes, nonce, plaintext) {
        Some(mut body) => {
            let ghost tail = body@;
            let mut out: Vec<u8> = nonce_vec(nonce);
            out.append(&mut body);
            proof {
                assert(out@ == nonce@ + tail);
                assert(out@.take(12) =~= nonce@);
                assert(out@.skip(12) =~= tail);
            }
            Ok(out)
        },
        None => Err("aead::Error".to_owned()),
    }
}

fn nonce_vec(nonce: &[u8; 12]) -> (r: Vec<u8>)
    ensures
        r@ == nonce@,
{
    let mut out: Vec<u8> = Vec::new();
    let mut i: usize = 0;
    while i < 12
        invariant
            i <= 12,
            out@ == nonce@.take(i as int),
        decreases 12 - i,
    {
        proof {
            assert(nonce@.take(i + 1) =~= nonce@.take(i as int).push(nonce@[i as int]));
        }
        out.push(nonce[i]);
        i = i + 1;
    }
    assert(nonce@.take(12) =~= nonce@);
    out
}

/// Where nonces come from: first those already drawn, then the operating
/// system.
#[derive(Debug)]
pub struct NonceSource {
    /// Nonces already drawn; the last is used first.
    pub drawn: Vec<[u8; 12]>,
}

/// The drawn nonces that are left after `n` were used; a nonce that was used is
/// gone.
pub open spec fn left_of(drawn: Seq<[u8; 12]>, n: nat) -> Seq<[u8; 12]> {
    if n <= drawn.len() {
        drawn.take(drawn.len() - n)
    } else {
        Seq::empty()
    }
}

/// Whether a source went from `before` to `after` by using up nonces alone:
/// none was put back.
pub open spec fn spent(before: Seq<[u8; 12]>, after: Seq<[u8; 12]>) -> bool {
    after.len() <= before.len() && after == before.take(after.len() as int)
}

/// Nonces used up in two goes are used up.
pub broadcast proof fn spent_in_two(a: Seq<[u8; 12]>, b: Seq<[u8; 12]>, c: Seq<[u8; 12]>)
    requires
        #[trigger] spent(a, b),
        #[trigger] spent(b, c),
    ensures
        spent(a, c),
{
    assert(a.take(b.len() as int).take(c.len() as int) =~= a.take(c.len() as int));
}

/// To use a number of nonces is to use nonces up.
pub broadcast proof fn left_is_spent(drawn: Seq<[u8; 12]>, n: nat)
    ensures
        spent(drawn, #[trigger] left_of(drawn, n)),
{
    assert(left_of(drawn, n) =~= drawn.take(left_of(drawn, n).len() as int));
}

/// What is left after nonces were used in two goes.
pub proof fn left_in_two(drawn: Seq<[u8; 12]>, a: nat, b: nat)
    ensures
        left_of(left_of(drawn, a), b) == left_of(drawn, a + b),
        left_of(drawn, 0) == drawn,
{
    assert(left_of(left_of(drawn, a), b) =~= left_of(drawn, a + b));
    assert(left_of(drawn, 0) =~= drawn);
}

/// Whether each blob carries a nonce of its own: the drawn ones in turn, as far
/// as they go.
pub open spec fn carries_nonces(blobs: Seq<Seq<u8>>, drawn: Seq<[u8; 12]>) -> bool {
    forall|i: int|
        0 <= i < blobs.len() && i < drawn.len() ==> (#[trigger] blobs[i]).take(12)
            == drawn[drawn.len() - 1 - i]@
}

/// Blobs that go on where others left off.
pub proof fn nonces_in_two(a: Seq<Seq<u8>>, b: Seq<Seq<u8>>, drawn: Seq<[u8; 12]>)
    requires
        carries_nonces(a, drawn),
        carries_nonces(b, left_of(drawn, a.len())),
    ensures
        carries_nonces(a + b, drawn),
{
    let all = a + b;
    let rest = left_of(drawn, a.len());
    assert forall|i: int| 0 <= i < all.len() && i < drawn.len() implies (
    #[trigger] all[i]).take(12) == drawn[drawn.len() - 1 - i]@ by {
        if i < a.len() {
            assert(all[i] == a[i]);
        } else {
            let j = i - a.len();
            assert(all[i] == b[j]);
            assert(b[j].take(12) == rest[rest.len() - 1 - j]@);
        }
    }
}

/// Whether no nonce was drawn twice.
pub open spec fn distinct_nonces(drawn: Seq<[u8; 12]>) -> bool {
    forall|a: int, b: int|
        0 <= a < b < drawn.len() ==> (#[trigger] drawn[a])@ != (#[trigger] drawn[b])@
}

/// Blobs that carry distinct nonces differ, be what they hold the same or not:
/// the `i`-th of those that begin `x` nonces in, and the `j`-th of those that
/// begin `y` nonces in.
pub proof fn blobs_differ(
    a: Seq<Seq<u8>>,
    b: Seq<Seq<u8>>,
    drawn: Seq<[u8; 12]>,
    x: nat,
    y: nat,
    i: int,
    j: int,
)
    requires
        distinct_nonces(drawn),
        carries_nonces(a, left_of(drawn, x)),
        carries_nonces(b, left_of(drawn, y)),
        0 <= i < a.len(),
        0 <= j < b.len(),
        x + i < drawn.len(),
        y + j < drawn.len(),
        x + i != y + j,
    ensures
        a[i] != b[j],
{
    let n = drawn.len() as int;
    assert(a[i].take(12) == left_of(drawn, x)[n - x - 1 - i]@);
    assert(b[j].take(12) == left_of(drawn, y)[n - y - 1 - j]@);
    assert(left_of(drawn, x)[n - x - 1 - i] == drawn[n - 1 - (x + i)]);
    assert(left_of(drawn, y)[n - y - 1 - j] == drawn[n - 1 - (y + j)]);
}

impl NonceSource {
    /// A source that draws every nonce from the operating system.
    pub fn from_os() -> (r: NonceSource)
        ensures
            r.drawn@.len() == 0,
    {
        NonceSource { drawn: Vec::new() }
    }

    /// The next nonce. A drawn one is handed out as it is; drawing from the
    /// operating system may fail.
    pub fn next_nonce(&mut self) -> (r: Result<[u8; 12], String>)
        ensures
            old(self).drawn@.len() > 0 ==> r == Ok::<[u8; 12], String>(old(self).drawn@.last()),
            final(self).drawn@ == left_of(old(self).drawn@, 1),
    {
        match self.drawn.pop() {
            Some(nonce) => {
                assert(self.drawn@ =~= left_of(old(self).drawn@, 1));
                Ok(nonce)
            },
            None => {
                assert(self.drawn@ =~= left_of(old(self).drawn@, 1));
                match random_bytes(NONCE_LEN) {
                    Ok(bytes) => Ok(nonce_from(bytes.as_slice())),
                    Err(e) => Err(e),
                }
            },
        }
    }
}

/// Seals a plaintext under the session key with the source's next nonce.
/// Whatever the nonce, the blob opens to the plaintext again. With a drawn
/// nonce at hand only a plaintext too long to be sealed is refused; else the
/// operating system may also refuse to give a nonce.
pub fn wrap_with_session_key(
    session_key: &SessionKey,
    nonces: &mut NonceSource,
    plaintext: &[u8],
) -> (r: Result<Vec<u8>, String>)
    ensures
        r is Ok ==> sealable(plaintext@),
        r is Ok ==> opened(session_key@, r->Ok_0@) == Some(plaintext@),
        r is Ok ==> r->Ok_0@.len() == plaintext@.len() + MIN_SEALED_LEN,
        r is Ok && old(nonces).drawn@.len() > 0 ==> r->Ok_0@ == sealed(
            session_key@,
            old(nonces).drawn@.last()@,
            plaintext@,
        ),
        r is Err ==> !sealable(plaintext@) || old(nonces).drawn@.len() == 0,
        final(nonces).drawn@ == left_of(old(nonces).drawn@, 1),
{
    match nonces.next_nonce() {
        Ok(nonce) => wrap_with_nonce(session_key, &nonce, plaintext),
        Err(e) => Err(e),
    }
}

/// Blobs sealed under different nonces differ, be their plaintexts the same or
/// not.
pub proof fn sealed_blobs_differ(
    key: Seq<u8>,
    nonce_a: [u8; 12],
    nonce_b: [u8; 12],
    a: Seq<u8>,
    b: Seq<u8>,
)
    requires
        nonce_a@ != nonce_b@,
    ensures
        sealed(key, nonce_a@, a) != sealed(key, nonce_b@, b),
{
    assert(sealed(key, nonce_a@, a).take(12) =~= nonce_a@);
    assert(sealed(key, nonce_b@, b).take(12) =~= nonce_b@);
}

} // verus!
