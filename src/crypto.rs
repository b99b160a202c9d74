use vstd::prelude::*;
use vstd::string::*;

verus! {

/// Lowest work factor that bcrypt accepts.
pub const MIN_HASH_COST: u32 = 4;

/// Highest work factor that bcrypt accepts.
pub const MAX_HASH_COST: u32 = 31;

/// Work factor used for stored passwords unless a store is configured otherwise.
pub const DEFAULT_HASH_COST: u32 = 12;

/// The lowercase hexadecimal digit for a value below sixteen.
pub open spec fn hex_digit(n: u8) -> char {
    if n < 10 {
        if n == 0 { '0' } else if n == 1 { '1' } else if n == 2 { '2' } else if n == 3 { '3' }
        else if n == 4 { '4' } else if n == 5 { '5' } else if n == 6 { '6' } else if n == 7 { '7' }
        else if n == 8 { '8' } else { '9' }
    } else {
        if n == 10 { 'a' } else if n == 11 { 'b' } else if n == 12 { 'c' } else if n == 13 { 'd' }
        else if n == 14 { 'e' } else { 'f' }
    }
}

/// Two lowercase hexadecimal digits per byte, high nibble first.
pub open spec fn hex_lower(b: Seq<u8>) -> Seq<char>
    decreases b.len(),
{
    if b.len() == 0 {
        Seq::empty()
    } else {
        hex_lower(b.drop_last()) + seq![hex_digit(b.last() / 16), hex_digit(b.last() % 16)]
    }
}

pub open spec fn is_lower_hex(c: char) -> bool {
    ('0' <= c && c <= '9') || ('a' <= c && c <= 'f')
}

/// The shape of a session token: 32 lowercase hexadecimal digits.
pub open spec fn is_token_text(s: Seq<char>) -> bool {
    s.len() == 32 && forall|i: int| 0 <= i < 32 ==> is_lower_hex(#[trigger] s[i])
}

/// The self-describing SHA-256 multihash of a payload: tag, length, digest.
pub uninterp spec fn sha256_multihash(input: Seq<u8>) -> Seq<u8>;

/// Whether bcrypt accepts `password` against the stored `hash`.
pub uninterp spec fn bcrypt_accepts(password: Seq<char>, hash: Seq<char>) -> bool;

/// The digest text stored with a report: the hex form of its multihash.
pub open spec fn multihash_text(payload: Seq<u8>) -> Seq<char> {
    hex_lower(sha256_multihash(payload))
}

/// Relies on multihash::encode with Hash::SHA2256, which never fails for that
/// algorithm and writes the code 0x12, the length 32, then the digest.
#[verifier::external_body]
fn multihash_sha256(input: &[u8]) -> (r: Vec<u8>)
    ensures
        r@ == sha256_multihash(input@),
        r@.len() == 34,
        r@[0] == 0x12u8,
        r@[1] == 0x20u8,
{
    multihash::encode(multihash::Hash::SHA2256, input).unwrap()
}

/// Relies on hex::encode: two lowercase digits per byte, high nibble first.
#[verifier::external_body]
fn hex_encode(b: &[u8]) -> (r: String)
    ensures
        r@ == hex_lower(b@),
{
    hex::encode(b)
}

/// Relies on bcrypt::verify; a hash that bcrypt cannot parse counts as a mismatch.
#[verifier::external_body]
pub(crate) fn bcrypt_verify(password: &str, hash: &str) -> (r: bool)
    ensures
        r == bcrypt_accepts(password@, hash@),
{
    match bcrypt::verify(password, hash) {
        Ok(b) => b,
        Err(_) => false,
    }
}

/// Relies on bcrypt::hash: a freshly salted hash that bcrypt::verify accepts
/// for the same password; `None` when the random source fails.
#[verifier::external_body]
pub(crate) fn bcrypt_hash(password: &str, cost: u32) -> (r: Option<String>)
    requires
        MIN_HASH_COST <= cost <= MAX_HASH_COST,
    ensures
        r matches Some(h) ==> bcrypt_accepts(password@, h@),
{
    bcrypt::hash(password, cost).ok()
}

/// Hex text of an encoded multihash, as stored in a report.
pub fn digest_text(multihash: &[u8]) -> (r: String)
    ensures
        r@ == hex_lower(multihash@),
{
    hex_encode(multihash)
}

/// The hex text of the SHA-256 multihash header: code 0x12, length 32.
pub open spec fn sha256_tag_text() -> Seq<char> {
    seq!['1', '2', '2', '0']
}

/// The content address of a payload: the hex text of its SHA-256 multihash,
/// which starts with the algorithm tag and the digest length.
pub fn file_multihash(payload: &[u8]) -> (r: String)
    ensures
        r@ == multihash_text(payload@),
        r@.len() == 68,
        r@.subrange(0, 4) == sha256_tag_text(),
        sha256_multihash(payload@).len() == 34,
        sha256_multihash(payload@)[0] == 0x12u8,
        sha256_multihash(payload@)[1] == 0x20u8,
{
    let mh = multihash_sha256(payload);
    proof {
        lemma_hex_lower_len(mh@);
        lemma_multihash_text_tag(payload@);
    }
    digest_text(mh.as_slice())
}

/// Hex text distributes over concatenation.
pub proof fn lemma_hex_lower_append(a: Seq<u8>, b: Seq<u8>)
    ensures
        hex_lower(a + b) == hex_lower(a) + hex_lower(b),
    decreases b.len(),
{
    if b.len() == 0 {
        assert(a + b =~= a);
        assert(hex_lower(b) =~= Seq::<char>::empty());
        assert(hex_lower(a) + hex_lower(b) =~= hex_lower(a));
    } else {
        lemma_hex_lower_append(a, b.drop_last());
        assert((a + b).drop_last() =~= a + b.drop_last());
        assert((a + b).last() == b.last());
        assert(hex_lower(a) + hex_lower(b) =~= hex_lower(a) + hex_lower(b.drop_last()) + seq![
            hex_digit(b.last() / 16),
            hex_digit(b.last() % 16),
        ]);
    }
}

/// Text of a multihash whose header is 0x12 0x20 starts with "1220".
pub proof fn lemma_multihash_text_tag(payload: Seq<u8>)
    requires
        sha256_multihash(payload).len() == 34,
        sha256_multihash(payload)[0] == 0x12u8,
        sha256_multihash(payload)[1] == 0x20u8,
    ensures
        multihash_text(payload).subrange(0, 4) == sha256_tag_text(),
{
    let mh = sha256_multihash(payload);
    let head = mh.subrange(0, 2);
    let tail = mh.subrange(2, 34);
    assert(mh =~= head + tail);
    lemma_hex_lower_append(head, tail);
    assert(head =~= seq![0x12u8, 0x20u8]);
    assert(head.drop_last() =~= seq![0x12u8]);
    assert(head.drop_last().drop_last() =~= Seq::<u8>::empty());
    assert(0x12u8 / 16 == 1 && 0x12u8 % 16 == 2 && 0x20u8 / 16 == 2 && 0x20u8 % 16 == 0);
    assert(hex_lower(head.drop_last().drop_last()) =~= Seq::<char>::empty());
    assert(hex_lower(head.drop_last()) =~= seq![hex_digit(1), hex_digit(2)]);
    assert(hex_lower(head) =~= seq![hex_digit(1), hex_digit(2), hex_digit(2), hex_digit(0)]);
    assert(hex_lower(head) =~= seq!['1', '2', '2', '0']);
    assert(multihash_text(payload).subrange(0, 4) =~= hex_lower(head));
}

pub proof fn lemma_hex_lower_len(b: Seq<u8>)
    ensures
        hex_lower(b).len() == 2 * b.len(),
    decreases b.len(),
{
    if b.len() > 0 {
        lemma_hex_lower_len(b.drop_last());
    }
}

/// Whether `s` has the shape of a session token.
pub fn is_token_shaped(s: &str) -> (r: bool)
    ensures
        r == is_token_text(s@),
{
    let n = s.unicode_len();
    if n != 32 {
        return false;
    }
    let mut i: usize = 0;
    while i < n
        invariant
            n == s@.len(),
            n == 32,
            i <= n,
            forall|k: int| 0 <= k < i ==> is_lower_hex(#[trigger] s@[k]),
        decreases n - i,
    {
        let c = s.get_char(i);
        if !(('0' <= c && c <= '9') || ('a' <= c && c <= 'f')) {
            return false;
        }
        i = i + 1;
    }
    true
}

} // verus!
