//! AES-128-CBC decryption of HLS segments (RFC 8216 §5.2).
use vstd::prelude::*;
use aes::Aes128;
use block_padding::UnpadError;
use cbc::cipher::{BlockDecryptMut, KeyIvInit};
use crate::text::{chars_of, dec_string, push_all, string_of, u64_to_chars};

verus! {

#[verifier::external_type_specification]
#[verifier::external_body]
pub struct ExUnpadError(UnpadError);

/// The plaintext that AES-128 in CBC mode, with key `key` and initialisation
/// vector `iv`, gives for the whole blocks of `data` (no padding removed).
pub uninterp spec fn spec_aes128_cbc_decrypt(key: Seq<u8>, iv: Seq<u8>, data: Seq<u8>) -> Seq<u8>;

/// PKCS#7 unpadding of a decrypted buffer of whole 16-byte blocks, as
/// `block_padding::Pkcs7` does it: the last byte `n` must be between 1 and 16,
/// and the `n - 1` bytes before it in the last block must equal it.
pub open spec fn pkcs7_unpad(plain: Seq<u8>) -> Option<Seq<u8>> {
    let len = plain.len();
    let n = plain[len - 1];
    if n == 0 || n > 16 {
        None
    } else if exists|i: int| len - n <= i < len - 1 && plain[i] != n {
        None
    } else {
        Some(plain.take(len - n))
    }
}

/// Calls `cbc::Decryptor::<Aes128>::new(key, iv)` and
/// `decrypt_padded_mut::<block_padding::Pkcs7>` on a copy of `data`.
/// Claims what `cipher`'s and `block-padding`'s sources show: an error for an
/// empty buffer or one that is not whole 16-byte blocks; otherwise the CBC
/// plaintext (a name) with PKCS#7 padding removed, or an
/// error when that padding is malformed.
#[verifier::external_body]
pub(crate) fn aes128_cbc_decrypt_pkcs7(key: &[u8; 16], iv: &[u8; 16], data: &[u8]) -> (r: Result<Vec<u8>, UnpadError>)
    ensures
        match r {
            Ok(v) => data@.len() > 0 && data@.len() % 16 == 0
                && pkcs7_unpad(spec_aes128_cbc_decrypt(key@, iv@, data@)) == Some(v@),
            Err(_) => data@.len() == 0 || data@.len() % 16 != 0
                || pkcs7_unpad(spec_aes128_cbc_decrypt(key@, iv@, data@)) is None,
        },
{
    let mut buf = data.to_vec();
    cbc::Decryptor::<Aes128>::new(key.into(), iv.into())
        .decrypt_padded_mut::<block_padding::Pkcs7>(&mut buf)
        .map(|p| p.to_vec())
}

/// Calls `cbc::Decryptor::<Aes128>::new(key, iv)` and
/// `decrypt_padded_mut::<block_padding::NoPadding>` on a copy of `data`.
/// Claims that whole 16-byte blocks give their CBC plaintext (the name), and
/// anything else an error.
#[verifier::external_body]
pub(crate) fn aes128_cbc_decrypt_raw(key: &[u8; 16], iv: &[u8; 16], data: &[u8]) -> (r: Result<Vec<u8>, UnpadError>)
    ensures
        match r {
            Ok(v) => data@.len() % 16 == 0 && v@ == spec_aes128_cbc_decrypt(key@, iv@, data@),
            Err(_) => data@.len() % 16 != 0,
        },
{
    let mut buf = data.to_vec();
    cbc::Decryptor::<Aes128>::new(key.into(), iv.into())
        .decrypt_padded_mut::<block_padding::NoPadding>(&mut buf)
        .map(|p| p.to_vec())
}

/// Formats `block_padding::UnpadError` with its `Display` impl, which writes
/// the fixed text `Unpad Error`.
#[verifier::external_body]
pub(crate) fn unpad_error_text(e: &UnpadError) -> (r: String)
    ensures
        r@ == "Unpad Error"@,
{
    format!("{}", e)
}

/// The 16-byte big-endian form of a sequence number: eight zero bytes, then
/// the number's eight bytes, most significant first.
pub open spec fn sequence_iv_bytes(seq: u64) -> Seq<u8> {
    Seq::new(16, |i: int| if i < 8 { 0u8 } else { ((seq as int / pow256(15 - i)) % 256) as u8 })
}

/// `256` to the power `k`.
pub open spec fn pow256(k: int) -> int
    decreases k,
{
    if k <= 0 {
        1
    } else {
        256 * pow256(k - 1)
    }
}

/// The IV of a segment without an explicit IV (RFC 8216 §4.3.2.4): its media
/// sequence number as a big-endian 128-bit integer.
pub fn sequence_to_iv(seq: u64) -> (iv: [u8; 16])
    ensures
        iv@ == sequence_iv_bytes(seq),
{
    let mut iv = [0u8; 16];
    let mut n = seq;
    let mut k: usize = 16;
    proof {
        assert(pow256(0) == 1);
    }
    while k > 8
        invariant
            8 <= k <= 16,
            iv@.len() == 16,
            n as int == seq as int / pow256(16 - k),
            forall|i: int| 0 <= i < k ==> iv@[i] == 0u8,
            forall|i: int| k <= i < 16 ==> iv@[i] == ((seq as int / pow256(15 - i)) % 256) as u8,
        decreases k,
    {
        k = k - 1;
        iv[k] = (n % 256) as u8;
        proof {
            assert(pow256(16 - k) == 256 * pow256(15 - k));
            lemma_pow256_pos(15 - k as int);
            vstd::arithmetic::div_mod::lemma_div_denominator(seq as int, pow256(15 - k as int), 256);
        }
        n = n / 256;
    }
    proof {
        assert(iv@ =~= sequence_iv_bytes(seq));
    }
    iv
}

proof fn lemma_pow256_pos(k: int)
    ensures
        pow256(k) > 0,
    decreases k,
{
    if k > 0 {
        lemma_pow256_pos(k - 1);
    }
}

/// `v`'s first (at most) 16 bytes placed at the end of a 16-byte block, the
/// rest zero (the right alignment of RFC 8216 §5.2).
pub open spec fn right_aligned_iv(v: Seq<u8>) -> Seq<u8> {
    let len = if v.len() < 16 { v.len() as int } else { 16 };
    Seq::new(16, |i: int| if i < 16 - len { 0u8 } else { v[i - (16 - len)] })
}

/// Right-aligns up to 16 bytes of `v` in a 16-byte IV.
pub fn right_align_iv(v: &[u8]) -> (iv: [u8; 16])
    ensures
        iv@ == right_aligned_iv(v@),
{
    let mut arr = [0u8; 16];
    let len = if v.len() < 16 { v.len() } else { 16 };
    let mut j: usize = 0;
    while j < len
        invariant
            len == if v@.len() < 16 { v@.len() as int } else { 16 },
            j <= len,
            arr@.len() == 16,
            forall|i: int| 0 <= i < 16 - len ==> arr@[i] == 0u8,
            forall|i: int| 16 - len + j <= i < 16 ==> arr@[i] == 0u8,
            forall|i: int| 16 - len <= i < 16 - len + j ==> arr@[i] == v@[i - (16 - len)],
        decreases len - j,
    {
        arr[16 - len + j] = v[j];
        j = j + 1;
    }
    proof {
        assert(arr@ =~= right_aligned_iv(v@));
    }
    arr
}

/// Decrypts AES-128-CBC segments with one key.
pub struct HlsDecryptor {
    key: [u8; 16],
    default_iv: Option<[u8; 16]>,
}

impl HlsDecryptor {
    /// The key.
    pub closed spec fn key(&self) -> Seq<u8> {
        self.key@
    }

    /// The IV used for segments that carry none of their own.
    pub closed spec fn default_iv(&self) -> Option<Seq<u8>> {
        match self.default_iv {
            Some(a) => Some(a@),
            None => None,
        }
    }

    /// A decryptor for the fetched key bytes `key_bytes`, which must be exactly
    /// 16 bytes long; the playlist's IV, if any, is right-aligned.
    pub fn new(key_bytes: &[u8], default_iv: Option<Vec<u8>>) -> (r: Result<Self, String>)
        ensures
            key_bytes@.len() != 16 <==> r is Err,
            r matches Ok(d) ==> d.key() == key_bytes@ && d.default_iv() == match default_iv {
                Some(v) => Some(right_aligned_iv(v@)),
                None => None,
            },
            r matches Err(e) ==> e@ == "AES key is "@ + dec_string(key_bytes@.len()) + " bytes, expected 16"@,
    {
        if key_bytes.len() != 16 {
            let mut m = chars_of("AES key is ");
            let n = u64_to_chars(key_bytes.len() as u64);
            push_all(&mut m, &n);
            let tail = chars_of(" bytes, expected 16");
            push_all(&mut m, &tail);
            return Err(string_of(&m));
        }
        let mut key = [0u8; 16];
        let mut j: usize = 0;
        while j < 16
            invariant
                key_bytes@.len() == 16,
                j <= 16,
                key@.len() == 16,
                forall|i: int| 0 <= i < j ==> key@[i] == key_bytes@[i],
            decreases 16 - j,
        {
            key[j] = key_bytes[j];
            j = j + 1;
        }
        proof {
            assert(key@ =~= key_bytes@);
        }
        let iv = match default_iv {
            Some(v) => Some(right_align_iv(&v)),
            None => None,
        };
        Ok(HlsDecryptor { key, default_iv: iv })
    }

    /// The IV for a segment: its own (right-aligned), else the playlist's,
    /// else its sequence number.
    pub open spec fn iv_for(&self, segment_iv: Option<Seq<u8>>, sequence: u64) -> Seq<u8> {
        match segment_iv {
            Some(v) => right_aligned_iv(v),
            None => match self.default_iv() {
                Some(d) => d,
                None => sequence_iv_bytes(sequence),
            },
        }
    }

    /// Decrypts one segment (AES-128-CBC with PKCS#7 padding).
    pub fn decrypt(&self, data: &[u8], segment_iv: Option<&[u8]>, sequence: u64) -> (r: Result<Vec<u8>, String>)
        ensures
            ({
                let iv = self.iv_for(
                    match segment_iv {
                        Some(v) => Some(v@),
                        None => None,
                    },
                    sequence,
                );
                let ok = data@.len() > 0 && data@.len() % 16 == 0;
                let plain = spec_aes128_cbc_decrypt(self.key(), iv, data@);
                match r {
                    Ok(v) => ok && pkcs7_unpad(plain) == Some(v@),
                    Err(e) => !(ok && pkcs7_unpad(plain) is Some) && e@
                        == "AES decryption failed: "@ + "Unpad Error"@,
                }
            }),
    {
        let iv = match segment_iv {
            Some(seg_iv) => right_align_iv(seg_iv),
            None => match self.default_iv {
                Some(d) => d,
                None => sequence_to_iv(sequence),
            },
        };
        let ghost want = self.iv_for(
            match segment_iv {
                Some(v) => Some(v@),
                None => None,
            },
            sequence,
        );
        assert(iv@ == want);
        assert(self.key@ == self.key());
        match aes128_cbc_decrypt_pkcs7(&self.key, &iv, data) {
            Ok(v) => Ok(v),
            Err(e) => {
                let mut m = chars_of("AES decryption failed: ");
                let t = unpad_error_text(&e);
                let tv = chars_of(t.as_str());
                push_all(&mut m, &tv);
                Err(string_of(&m))
            },
        }
    }
}

} // verus!
