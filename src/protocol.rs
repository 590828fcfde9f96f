//! The authenticated frame protocol between the recognizer and the daemon.
//!
//! A frame is one line: the hex of a 12-byte nonce, the hex of the AES-256-GCM
//! ciphertext (with its 16-byte tag) of the action identifier, and `\n`.
use vstd::prelude::*;
use aes_gcm::aead::{Aead, KeyInit, OsRng};
use aes_gcm::AeadCore;
use crate::hexcode::{decode_hex, encode_hex, hex_of, is_hex, is_hex_digit, lemma_unhex_hex, unhex};

verus! {

#[verifier::external_type_specification]
#[verifier::external_body]
pub struct ExAeadError(aes_gcm::Error);

/// The longest message that AES-GCM encrypts, in bytes.
pub const MAX_MESSAGE: u64 = 68719476736;

/// What AES-256-GCM makes of `msg` under `key` and `nonce`, with no
/// associated data: the ciphertext followed by the tag.
pub uninterp spec fn seal(key: Seq<u8>, nonce: Seq<u8>, msg: Seq<u8>) -> Seq<u8>;

/// Relies on `Aes256Gcm::encrypt`: it fails only on a message longer than
/// `MAX_MESSAGE` bytes; a key other than 32 bytes or a nonce other than 12
/// bytes makes `from_slice` panic.
#[verifier::external_body]
fn encrypt(key: &[u8], nonce: &[u8], msg: &[u8]) -> (r: Result<Vec<u8>, aes_gcm::Error>)
    requires
        key@.len() == 32,
        nonce@.len() == 12,
    ensures
        r is Ok == (msg@.len() <= MAX_MESSAGE),
        r matches Ok(c) ==> c@ == seal(key@, nonce@, msg@),
{
    let cipher = aes_gcm::Aes256Gcm::new(aes_gcm::Key::<aes_gcm::Aes256Gcm>::from_slice(key));
    cipher.encrypt(aes_gcm::Nonce::from_slice(nonce), msg)
}

/// Relies on `Aes256Gcm::decrypt`: it recomputes the tag over the ciphertext
/// part of `ct`, compares it with the last 16 bytes, and on a match undoes the
/// counter-mode keystream. So it inverts `encrypt`: when `ct` is the sealing
/// of a message, that message comes back; what comes back seals to `ct`.
#[verifier::external_body]
fn decrypt(key: &[u8], nonce: &[u8], ct: &[u8]) -> (r: Result<Vec<u8>, aes_gcm::Error>)
    requires
        key@.len() == 32,
        nonce@.len() == 12,
    ensures
        r matches Ok(m) ==> m@.len() + 16 == ct@.len(),
        r matches Ok(m) ==> (m@.len() <= MAX_MESSAGE ==> seal(key@, nonce@, m@) == ct@),
        forall|m: Seq<u8>|
            m.len() <= MAX_MESSAGE && #[trigger] seal(key@, nonce@, m) == ct@ ==> r is Ok
                && r->Ok_0@ == m,
{
    let cipher = aes_gcm::Aes256Gcm::new(aes_gcm::Key::<aes_gcm::Aes256Gcm>::from_slice(key));
    cipher.decrypt(aes_gcm::Nonce::from_slice(nonce), ct)
}

/// Relies on `Aes256Gcm::generate_nonce` with the operating system's random
/// source: 12 random bytes.
#[verifier::external_body]
fn random_nonce() -> (r: Vec<u8>)
    ensures
        r@.len() == 12,
{
    aes_gcm::Aes256Gcm::generate_nonce(&mut OsRng).to_vec()
}

/// Relies on `Aes256Gcm::generate_key` with the operating system's random
/// source: 32 random bytes.
#[verifier::external_body]
fn random_key() -> (r: Vec<u8>)
    ensures
        r@.len() == 32,
{
    aes_gcm::Aes256Gcm::generate_key(OsRng).to_vec()
}

/// A fresh shared secret for a daemon run.
pub fn new_secret() -> (r: Vec<u8>)
    ensures
        r@.len() == 32,
{
    random_key()
}

/// The frame that carries ciphertext `ct` sealed under `nonce`.
pub open spec fn frame_of(nonce: Seq<u8>, ct: Seq<u8>) -> Seq<u8> {
    hex_of(nonce) + hex_of(ct) + seq![10u8]
}

/// Why a frame was not sealed or not opened.
#[derive(Clone, Copy, PartialEq, Eq, Structural, Debug)]
pub enum FrameError {
    /// The key is not 32 bytes or the nonce not 12 bytes.
    BadKey,
    /// The message is too long to encrypt.
    TooLong,
    /// The line is not an even number of hex digits.
    BadHex,
    /// The line holds fewer bytes than a nonce.
    TooShort,
    /// The ciphertext does not authenticate under the key.
    Rejected,
}

/// Seals `msg` under `key` and `nonce` into a frame.
pub fn seal_frame(key: &[u8], nonce: &[u8], msg: &[u8]) -> (r: Result<Vec<u8>, FrameError>)
    ensures
        (key@.len() != 32 || nonce@.len() != 12) <==> r == Err::<Vec<u8>, FrameError>(
            FrameError::BadKey,
        ),
        (key@.len() == 32 && nonce@.len() == 12 && msg@.len() > MAX_MESSAGE) <==> r == Err::<
            Vec<u8>,
            FrameError,
        >(FrameError::TooLong),
        r is Ok == (key@.len() == 32 && nonce@.len() == 12 && msg@.len() <= MAX_MESSAGE),
        r matches Ok(f) ==> f@ == frame_of(nonce@, seal(key@, nonce@, msg@)),
{
    if key.len() != 32 || nonce.len() != 12 {
        return Err(FrameError::BadKey);
    }
    match encrypt(key, nonce, msg) {
        Ok(ct) => {
            let mut frame = encode_hex(nonce);
            let mut tail = encode_hex(ct.as_slice());
            frame.append(&mut tail);
            frame.push(10u8);
            Ok(frame)
        },
        Err(_) => Err(FrameError::TooLong),
    }
}

/// Seals `msg` under `key` and a fresh random nonce into a frame; returns
/// the nonce with the frame.
pub fn new_frame(key: &[u8], msg: &[u8]) -> (r: Result<(Vec<u8>, Vec<u8>), FrameError>)
    ensures
        key@.len() != 32 <==> r == Err::<(Vec<u8>, Vec<u8>), FrameError>(FrameError::BadKey),
        (key@.len() == 32 && msg@.len() > MAX_MESSAGE) <==> r == Err::<
            (Vec<u8>, Vec<u8>),
            FrameError,
        >(FrameError::TooLong),
        r is Ok == (key@.len() == 32 && msg@.len() <= MAX_MESSAGE),
        r matches Ok((n, f)) ==> n@.len() == 12 && f@ == frame_of(n@, seal(key@, n@, msg@)),
{
    let nonce = random_nonce();
    match seal_frame(key, nonce.as_slice(), msg) {
        Ok(f) => Ok((nonce, f)),
        Err(e) => Err(e),
    }
}

/// Whitespace that `str::trim` removes, restricted to ASCII.
pub open spec fn is_space(c: u8) -> bool {
    c == 32 || (9 <= c <= 13)
}

pub open spec fn trim_start(s: Seq<u8>) -> Seq<u8>
    decreases s.len(),
{
    if s.len() > 0 && is_space(s[0]) {
        trim_start(s.drop_first())
    } else {
        s
    }
}

pub open spec fn trim_end(s: Seq<u8>) -> Seq<u8>
    decreases s.len(),
{
    if s.len() > 0 && is_space(s.last()) {
        trim_end(s.drop_last())
    } else {
        s
    }
}

/// A line without the whitespace at either end.
pub open spec fn trimmed(s: Seq<u8>) -> Seq<u8> {
    trim_end(trim_start(s))
}

/// The line without leading and trailing ASCII whitespace.
pub fn trim(line: &[u8]) -> (r: &[u8])
    ensures
        r@ == trimmed(line@),
{
    let mut lo: usize = 0;
    assert(line@.subrange(0, line@.len() as int) =~= line@);
    while lo < line.len() && (line[lo] == 32 || (9 <= line[lo] && line[lo] <= 13))
        invariant
            lo <= line@.len(),
            trim_start(line@) == trim_start(line@.subrange(lo as int, line@.len() as int)),
        decreases line@.len() - lo,
    {
        let ghost s = line@.subrange(lo as int, line@.len() as int);
        assert(s.drop_first() =~= line@.subrange(lo + 1, line@.len() as int));
        lo = lo + 1;
    }
    let ghost st = line@.subrange(lo as int, line@.len() as int);
    assert(trim_start(st) == st);
    let mut hi: usize = line.len();
    while hi > lo && (line[hi - 1] == 32 || (9 <= line[hi - 1] && line[hi - 1] <= 13))
        invariant
            lo <= hi <= line@.len(),
            trim_start(line@) == st,
            trim_end(st) == trim_end(line@.subrange(lo as int, hi as int)),
        decreases hi,
    {
        let ghost s = line@.subrange(lo as int, hi as int);
        assert(s.drop_last() =~= line@.subrange(lo as int, hi - 1));
        hi = hi - 1;
    }
    let r = &line[lo..hi];
    assert(trim_end(r@) == r@);
    r
}

/// Opens a frame: `Ok` holds the identifier that the sender sealed.
pub fn open_frame(key: &[u8], line: &[u8]) -> (r: Result<Vec<u8>, FrameError>)
    ensures
        key@.len() != 32 <==> r == Err::<Vec<u8>, FrameError>(FrameError::BadKey),
        key@.len() == 32 ==> (!is_hex(trimmed(line@)) <==> r == Err::<Vec<u8>, FrameError>(
            FrameError::BadHex,
        )),
        key@.len() == 32 && is_hex(trimmed(line@)) ==> (unhex(trimmed(line@)).len() < 12 <==> r
            == Err::<Vec<u8>, FrameError>(FrameError::TooShort)),
        ({
            let b = unhex(trimmed(line@));
            let nonce = b.subrange(0, 12);
            let ct = b.subrange(12, b.len() as int);
            key@.len() == 32 && is_hex(trimmed(line@)) && b.len() >= 12 ==> {
                &&& r is Err ==> r == Err::<Vec<u8>, FrameError>(FrameError::Rejected)
                &&& r matches Ok(m) ==> m@.len() + 16 == ct.len()
                &&& r matches Ok(m) ==> (m@.len() <= MAX_MESSAGE ==> seal(key@, nonce, m@) == ct)
                &&& forall|m: Seq<u8>|
                    m.len() <= MAX_MESSAGE && #[trigger] seal(key@, nonce, m) == ct ==> (r matches Ok(
                        v,
                    ) && v@ == m)
            }
        }),
{
    if key.len() != 32 {
        return Err(FrameError::BadKey);
    }
    let body = trim(line);
    let bytes = match decode_hex(body) {
        Ok(b) => b,
        Err(_) => {
            return Err(FrameError::BadHex);
        },
    };
    if bytes.len() < 12 {
        return Err(FrameError::TooShort);
    }
    let nonce = &bytes.as_slice()[0..12];
    let ct = &bytes.as_slice()[12..bytes.len()];
    match decrypt(key, nonce, ct) {
        Ok(m) => Ok(m),
        Err(_) => Err(FrameError::Rejected),
    }
}

/// A frame reads back as the nonce and ciphertext it was made from. With the
/// contract of `open_frame`, a frame sealed from a message under a key opens
/// under the same key to exactly that message.
pub proof fn lemma_frame_round_trip(nonce: Seq<u8>, ct: Seq<u8>)
    requires
        nonce.len() == 12,
    ensures
        is_hex(trimmed(frame_of(nonce, ct))),
        unhex(trimmed(frame_of(nonce, ct))).subrange(0, 12) == nonce,
        unhex(trimmed(frame_of(nonce, ct))).subrange(12, 12 + ct.len() as int) == ct,
        unhex(trimmed(frame_of(nonce, ct))).len() == 12 + ct.len(),
{
    let body = hex_of(nonce + ct);
    lemma_unhex_hex(nonce + ct);
    assert(hex_of(nonce) + hex_of(ct) =~= body) by {
        assert forall|i: int| 0 <= i < body.len() implies (hex_of(nonce) + hex_of(ct))[i]
            == #[trigger] body[i] by {
            if i >= 24 {
                assert((i - 24) / 2 == i / 2 - 12 && (i - 24) % 2 == i % 2) by (nonlinear_arith)
                    requires
                        i >= 24,
                ;
            }
        }
    }
    let f = frame_of(nonce, ct);
    assert(f =~= body + seq![10u8]);
    assert(is_hex_digit(body[0]));
    assert(trim_start(f) == f);
    assert(f.drop_last() =~= body);
    assert(is_hex_digit(body.last()));
    assert(trim_end(body) == body);
    assert(trimmed(f) == body);
    assert(unhex(body).subrange(0, 12) =~= nonce);
    assert(unhex(body).subrange(12, 12 + ct.len() as int) =~= ct);
}

} // verus!
