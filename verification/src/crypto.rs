use vstd::prelude::*;

verus! {

/// The 32-byte key that PBKDF2 with HMAC-SHA256 derives from a password, a salt and
/// a round count.
pub uninterp spec fn pbkdf2_hmac_sha256(password: Seq<u8>, salt: Seq<u8>, rounds: u32) -> Seq<u8>;

/// The 32-byte HMAC-SHA256 tag of `data` under `key`.
pub uninterp spec fn hmac_sha256(key: Seq<u8>, data: Seq<u8>) -> Seq<u8>;

/// Derives a 32-byte key with `pbkdf2::pbkdf2_hmac_array::<Sha256, 32>`.
/// The contract names the result and states its length; the algorithm itself is not
/// restated here.
#[verifier::external_body]
pub(crate) fn pbkdf2_sha256(password: &[u8], salt: &[u8], rounds: u32) -> (r: Vec<u8>)
    ensures
        r@ == pbkdf2_hmac_sha256(password@, salt@, rounds),
        r@.len() == 32,
{
    pbkdf2::pbkdf2_hmac_array::<sha2::Sha256, 32>(password, salt, rounds).to_vec()
}

/// Computes HMAC-SHA256 with `hmac::Hmac::<sha2::Sha256>` (which accepts keys of any
/// length). The contract names the tag and states its length.
#[verifier::external_body]
pub(crate) fn hmac_sha256_tag(key: &[u8], data: &[u8]) -> (r: Vec<u8>)
    ensures
        r@ == hmac_sha256(key@, data@),
        r@.len() == 32,
{
    let mut mac = <hmac::Hmac<sha2::Sha256> as hmac::Mac>::new_from_slice(key)
        .expect("HMAC takes keys of any length");
    hmac::Mac::update(&mut mac, data);
    hmac::Mac::finalize(mac).into_bytes().to_vec()
}

/// The eight little-endian bytes of `v`.
pub open spec fn u64_le(v: u64) -> Seq<u8> {
    seq![
        (v & 0xff) as u8,
        ((v >> 8) & 0xff) as u8,
        ((v >> 16) & 0xff) as u8,
        ((v >> 24) & 0xff) as u8,
        ((v >> 32) & 0xff) as u8,
        ((v >> 40) & 0xff) as u8,
        ((v >> 48) & 0xff) as u8,
        ((v >> 56) & 0xff) as u8,
    ]
}

/// Block `j` of the key stream: the HMAC of the nonce followed by the block counter.
pub open spec fn keystream_block(key: Seq<u8>, nonce: Seq<u8>, j: int) -> Seq<u8> {
    hmac_sha256(key, nonce + u64_le(j as u64))
}

/// `data` combined byte by byte with the key stream.
pub open spec fn xor_stream_spec(key: Seq<u8>, nonce: Seq<u8>, data: Seq<u8>) -> Seq<u8> {
    Seq::new(data.len(), |i: int| data[i] ^ keystream_block(key, nonce, i / 32)[i % 32])
}

fn push_u64_le(out: &mut Vec<u8>, v: u64)
    ensures
        final(out)@ == old(out)@ + u64_le(v),
{
    out.push((v & 0xff) as u8);
    out.push(((v >> 8) & 0xff) as u8);
    out.push(((v >> 16) & 0xff) as u8);
    out.push(((v >> 24) & 0xff) as u8);
    out.push(((v >> 32) & 0xff) as u8);
    out.push(((v >> 40) & 0xff) as u8);
    out.push(((v >> 48) & 0xff) as u8);
    out.push(((v >> 56) & 0xff) as u8);
    assert(out@ =~= old(out)@ + u64_le(v));
}

proof fn lemma_block_index(j: int, k: int)
    requires
        0 <= j,
        0 <= k < 32,
    ensures
        (32 * j + k) / 32 == j,
        (32 * j + k) % 32 == k,
{
    assert((32 * j + k) / 32 == j && (32 * j + k) % 32 == k) by (nonlinear_arith)
        requires
            0 <= j,
            0 <= k < 32,
    ;
}

/// Encrypts or decrypts `data` with the key stream of `key` and `nonce`.
pub fn xor_stream(key: &[u8], nonce: &[u8], data: &[u8]) -> (r: Vec<u8>)
    ensures
        r@ == xor_stream_spec(key@, nonce@, data@),
{
    let mut out: Vec<u8> = Vec::new();
    let mut j: usize = 0;
    let mut i: usize = 0;
    while i < data.len()
        invariant
            i <= data.len(),
            i == 32 * j || i == data.len(),
            out@.len() == i,
            forall|m: int| 0 <= m < i ==> out@[m] == data@[m] ^ keystream_block(key@, nonce@, m / 32)[m % 32],
        decreases data.len() - i,
    {
        let mut input: Vec<u8> = Vec::new();
        input.extend_from_slice(nonce);
        assert(input@ =~= nonce@);
        push_u64_le(&mut input, j as u64);
        assert(input@ =~= nonce@ + u64_le(j as u64));
        let block = hmac_sha256_tag(key, input.as_slice());
        assert(block@ == keystream_block(key@, nonce@, j as int));
        let mut k: usize = 0;
        while k < 32 && i < data.len()
            invariant
                k <= 32,
                i <= data.len(),
                i == 32 * j + k,
                out@.len() == i,
                block@ == keystream_block(key@, nonce@, j as int),
                block@.len() == 32,
                forall|m: int| 0 <= m < i ==> out@[m] == data@[m] ^ keystream_block(key@, nonce@, m / 32)[m % 32],
            decreases 32 - k,
        {
            proof {
                lemma_block_index(j as int, k as int);
            }
            out.push(data[i] ^ block[k]);
            k = k + 1;
            i = i + 1;
        }
        if i < data.len() {
            j = j + 1;
        }
    }
    assert(out@ =~= xor_stream_spec(key@, nonce@, data@));
    out
}

/// Applying the key stream twice gives the data back.
pub proof fn lemma_xor_stream_involution(key: Seq<u8>, nonce: Seq<u8>, data: Seq<u8>)
    ensures
        xor_stream_spec(key, nonce, xor_stream_spec(key, nonce, data)) == data,
{
    let once = xor_stream_spec(key, nonce, data);
    let twice = xor_stream_spec(key, nonce, once);
    assert forall|i: int| 0 <= i < data.len() implies twice[i] == data[i] by {
        let s = keystream_block(key, nonce, i / 32)[i % 32];
        let d = data[i];
        assert((d ^ s) ^ s == d) by (bit_vector);
    }
    assert(twice =~= data);
}

/// Compares two byte strings without stopping at the first difference.
pub fn constant_time_eq(a: &[u8], b: &[u8]) -> (r: bool)
    ensures
        r == (a@ == b@),
{
    if a.len() != b.len() {
        return false;
    }
    let mut diff: u8 = 0;
    let mut i: usize = 0;
    while i < a.len()
        invariant
            i <= a.len() == b.len(),
            (diff == 0) <==> (forall|m: int| 0 <= m < i ==> a@[m] == b@[m]),
        decreases a.len() - i,
    {
        let x = a[i];
        let y = b[i];
        let old_diff = diff;
        diff = diff | (x ^ y);
        assert((old_diff | (x ^ y)) == 0 <==> (old_diff == 0 && x == y)) by (bit_vector);
        i = i + 1;
    }
    if diff == 0 {
        assert(a@ =~= b@);
        true
    } else {
        false
    }
}

} // verus!
