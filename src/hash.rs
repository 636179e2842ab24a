//! Hash algorithms, the `algorithm:hex` text form of a hash, and digests of
//! byte strings.

use sha2::Digest;
use vstd::prelude::*;

use crate::text::{
    char_is_alnum, char_is_space, char_is_xdigit, chars_eq, chars_of, is_alnum, is_lower_xdigit,
    is_space, is_xdigit, push_str, slice_chars, str_eq, string_of,
};

verus! {

/// The digest algorithms a repository may use.
#[derive(Clone, Copy, Debug, PartialEq, Eq, Structural)]
pub enum HashAlgorithm {
    Md5,
    Sha1,
    Sha256,
    Sha384,
    Sha512,
}

/// A hash: the algorithm that made it and the digest as hexadecimal text.
#[derive(Clone, Debug)]
pub struct Hash {
    pub algorithm: HashAlgorithm,
    pub value: String,
}

impl PartialEq for Hash {
    fn eq(&self, o: &Hash) -> (r: bool) {
        self.algorithm == o.algorithm && str_eq(self.value.as_str(), o.value.as_str())
    }
}

impl vstd::std_specs::cmp::PartialEqSpecImpl for Hash {
    open spec fn obeys_eq_spec() -> bool {
        true
    }

    open spec fn eq_spec(&self, o: &Hash) -> bool {
        self.algorithm == o.algorithm && self.value@ == o.value@
    }
}

/// The name given is not one of the known algorithms.
#[derive(Debug, PartialEq, Eq, Structural)]
pub struct ParseHashAlgorithmErr;

/// Why a text is not a hash.
#[derive(Debug, PartialEq, Eq, Structural)]
pub enum ParseHashErr {
    InvalidFormat,
    InvalidAlgorithm,
}

/// Why a hash check failed.
#[derive(Debug, PartialEq, Eq, Structural)]
pub enum HashValidateErr {
    HashesDontMatch,
    InvalidExpectedHash,
    FileReadFailed,
}

/// The lowercase name of an algorithm.
pub open spec fn alg_name(a: HashAlgorithm) -> Seq<char> {
    match a {
        HashAlgorithm::Md5 => seq!['m', 'd', '5'],
        HashAlgorithm::Sha1 => seq!['s', 'h', 'a', '1'],
        HashAlgorithm::Sha256 => seq!['s', 'h', 'a', '2', '5', '6'],
        HashAlgorithm::Sha384 => seq!['s', 'h', 'a', '3', '8', '4'],
        HashAlgorithm::Sha512 => seq!['s', 'h', 'a', '5', '1', '2'],
    }
}

/// The algorithm whose name is `n`, if any.
pub open spec fn alg_named(n: Seq<char>) -> Option<HashAlgorithm> {
    if n == alg_name(HashAlgorithm::Md5) {
        Some(HashAlgorithm::Md5)
    } else if n == alg_name(HashAlgorithm::Sha1) {
        Some(HashAlgorithm::Sha1)
    } else if n == alg_name(HashAlgorithm::Sha256) {
        Some(HashAlgorithm::Sha256)
    } else if n == alg_name(HashAlgorithm::Sha384) {
        Some(HashAlgorithm::Sha384)
    } else if n == alg_name(HashAlgorithm::Sha512) {
        Some(HashAlgorithm::Sha512)
    } else {
        None
    }
}

pub proof fn lemma_alg_named_name(a: HashAlgorithm)
    ensures
        alg_named(alg_name(a)) == Some(a),
{
    let n = alg_name(a);
    assert(alg_name(HashAlgorithm::Md5).len() == 3);
    assert(alg_name(HashAlgorithm::Sha1).len() == 4);
    assert(alg_name(HashAlgorithm::Sha256)[3] == '2');
    assert(alg_name(HashAlgorithm::Sha384)[3] == '3');
    assert(alg_name(HashAlgorithm::Sha512)[3] == '5');
    match a {
        HashAlgorithm::Md5 => {},
        HashAlgorithm::Sha1 => {},
        HashAlgorithm::Sha256 => {
            assert(n[3] != alg_name(HashAlgorithm::Sha1)[3]);
        },
        HashAlgorithm::Sha384 => {
            assert(n[3] != alg_name(HashAlgorithm::Sha256)[3]);
        },
        HashAlgorithm::Sha512 => {
            assert(n[3] != alg_name(HashAlgorithm::Sha256)[3]);
            assert(n[3] != alg_name(HashAlgorithm::Sha384)[3]);
        },
    }
}

pub proof fn lemma_alg_name_alnum(a: HashAlgorithm)
    ensures
        alg_name(a).len() > 0,
        forall|i: int| 0 <= i < alg_name(a).len() ==> is_alnum(#[trigger] alg_name(a)[i]),
{
}

pub open spec fn all_space(s: Seq<char>) -> bool {
    forall|i: int| 0 <= i < s.len() ==> is_space(#[trigger] s[i])
}

pub open spec fn all_alnum(s: Seq<char>) -> bool {
    forall|i: int| 0 <= i < s.len() ==> is_alnum(#[trigger] s[i])
}

pub open spec fn all_xdigit(s: Seq<char>) -> bool {
    forall|i: int| 0 <= i < s.len() ==> is_xdigit(#[trigger] s[i])
}

/// `s` reads as the hash `a:v`: a non-empty alphanumeric name, a colon and
/// non-empty hexadecimal digits, with white space allowed at either end.
#[verifier::opaque]
pub open spec fn hash_text(s: Seq<char>, a: Seq<char>, v: Seq<char>) -> bool {
    &&& a.len() > 0
    &&& all_alnum(a)
    &&& v.len() > 0
    &&& all_xdigit(v)
    &&& exists|p: Seq<char>, q: Seq<char>|
        all_space(p) && all_space(q) && s == p + a + seq![':'] + v + q
}

/// `s` is the text of a hash of a known algorithm `a` with digits `v`.
pub open spec fn parses_as(s: Seq<char>, a: HashAlgorithm, v: Seq<char>) -> bool {
    hash_text(s, alg_name(a), v)
}

/// The text form `algorithm:value` of a hash.
pub open spec fn hash_string(a: HashAlgorithm, v: Seq<char>) -> Seq<char> {
    alg_name(a) + seq![':'] + v
}

/// The hexadecimal digit for `n`, lowercase.
pub open spec fn hex_digit(n: int) -> char {
    seq!['0', '1', '2', '3', '4', '5', '6', '7', '8', '9', 'a', 'b', 'c', 'd', 'e', 'f'][n]
}

/// Two lowercase hexadecimal digits per byte, most significant first.
pub open spec fn hex_of(b: Seq<u8>) -> Seq<char>
    decreases b.len(),
{
    if b.len() == 0 {
        Seq::empty()
    } else {
        hex_of(b.drop_last()) + seq![
            hex_digit(b.last() as int / 16),
            hex_digit(b.last() as int % 16),
        ]
    }
}

/// The MD5 digest of `data`.
pub uninterp spec fn md5_of(data: Seq<u8>) -> Seq<u8>;

/// The SHA-1 digest of `data`.
pub uninterp spec fn sha1_of(data: Seq<u8>) -> Seq<u8>;

/// The SHA-256 digest of `data`.
pub uninterp spec fn sha256_of(data: Seq<u8>) -> Seq<u8>;

/// The SHA-384 digest of `data`.
pub uninterp spec fn sha384_of(data: Seq<u8>) -> Seq<u8>;

/// The SHA-512 digest of `data`.
pub uninterp spec fn sha512_of(data: Seq<u8>) -> Seq<u8>;

/// The digest of `data` under `a`.
pub open spec fn digest_of(data: Seq<u8>, a: HashAlgorithm) -> Seq<u8> {
    match a {
        HashAlgorithm::Md5 => md5_of(data),
        HashAlgorithm::Sha1 => sha1_of(data),
        HashAlgorithm::Sha256 => sha256_of(data),
        HashAlgorithm::Sha384 => sha384_of(data),
        HashAlgorithm::Sha512 => sha512_of(data),
    }
}

/// The digest length in bytes of each algorithm.
pub open spec fn digest_len(a: HashAlgorithm) -> nat {
    match a {
        HashAlgorithm::Md5 => 16,
        HashAlgorithm::Sha1 => 20,
        HashAlgorithm::Sha256 => 32,
        HashAlgorithm::Sha384 => 48,
        HashAlgorithm::Sha512 => 64,
    }
}

/// The hexadecimal value of the hash of `data` under `a`.
pub open spec fn hash_value_of(data: Seq<u8>, a: HashAlgorithm) -> Seq<char> {
    hex_of(digest_of(data, a))
}

/// Relies on `md5::compute`: the 16-byte MD5 digest of the data.
#[verifier::external_body]
fn md5_digest(data: &[u8]) -> (r: Vec<u8>)
    ensures
        r@ == md5_of(data@),
        r@.len() == 16,
{
    md5::compute(data).0.to_vec()
}

/// Relies on `sha1::Sha1::digest`: the 20-byte SHA-1 digest of the data.
#[verifier::external_body]
fn sha1_digest(data: &[u8]) -> (r: Vec<u8>)
    ensures
        r@ == sha1_of(data@),
        r@.len() == 20,
{
    sha1::Sha1::digest(data).to_vec()
}

/// Relies on `sha2::Sha256::digest`: the 32-byte SHA-256 digest of the data.
#[verifier::external_body]
fn sha256_digest(data: &[u8]) -> (r: Vec<u8>)
    ensures
        r@ == sha256_of(data@),
        r@.len() == 32,
{
    sha2::Sha256::digest(data).to_vec()
}

/// Relies on `sha2::Sha384::digest`: the 48-byte SHA-384 digest of the data.
#[verifier::external_body]
fn sha384_digest(data: &[u8]) -> (r: Vec<u8>)
    ensures
        r@ == sha384_of(data@),
        r@.len() == 48,
{
    sha2::Sha384::digest(data).to_vec()
}

/// Relies on `sha2::Sha512::digest`: the 64-byte SHA-512 digest of the data.
#[verifier::external_body]
fn sha512_digest(data: &[u8]) -> (r: Vec<u8>)
    ensures
        r@ == sha512_of(data@),
        r@.len() == 64,
{
    sha2::Sha512::digest(data).to_vec()
}

impl HashAlgorithm {
    /// The lowercase name of the algorithm.
    pub fn to_string(&self) -> (r: String)
        ensures
            r@ == alg_name(*self),
    {
        let cs: Vec<char> = match self {
            HashAlgorithm::Md5 => vec!['m', 'd', '5'],
            HashAlgorithm::Sha1 => vec!['s', 'h', 'a', '1'],
            HashAlgorithm::Sha256 => vec!['s', 'h', 'a', '2', '5', '6'],
            HashAlgorithm::Sha384 => vec!['s', 'h', 'a', '3', '8', '4'],
            HashAlgorithm::Sha512 => vec!['s', 'h', 'a', '5', '1', '2'],
        };
        proof {
            assert(cs@ =~= alg_name(*self));
        }
        string_of(&cs)
    }
}

/// The algorithm named by `cs[lo..hi]`, if any.
fn alg_from_chars(cs: &Vec<char>, lo: usize, hi: usize) -> (r: Option<HashAlgorithm>)
    requires
        lo <= hi <= cs@.len(),
    ensures
        r == alg_named(cs@.subrange(lo as int, hi as int)),
{
    let mut name: Vec<char> = Vec::new();
    let mut i = lo;
    while i < hi
        invariant
            lo <= i <= hi <= cs@.len(),
            name@ == cs@.subrange(lo as int, i as int),
        decreases hi - i,
    {
        name.push(cs[i]);
        i = i + 1;
        assert(name@ =~= cs@.subrange(lo as int, i as int));
    }
    let md5 = vec!['m', 'd', '5'];
    let sha1 = vec!['s', 'h', 'a', '1'];
    let sha256 = vec!['s', 'h', 'a', '2', '5', '6'];
    let sha384 = vec!['s', 'h', 'a', '3', '8', '4'];
    let sha512 = vec!['s', 'h', 'a', '5', '1', '2'];
    proof {
        assert(md5@ =~= alg_name(HashAlgorithm::Md5));
        assert(sha1@ =~= alg_name(HashAlgorithm::Sha1));
        assert(sha256@ =~= alg_name(HashAlgorithm::Sha256));
        assert(sha384@ =~= alg_name(HashAlgorithm::Sha384));
        assert(sha512@ =~= alg_name(HashAlgorithm::Sha512));
    }
    if chars_eq(&name, &md5) {
        Some(HashAlgorithm::Md5)
    } else if chars_eq(&name, &sha1) {
        Some(HashAlgorithm::Sha1)
    } else if chars_eq(&name, &sha256) {
        Some(HashAlgorithm::Sha256)
    } else if chars_eq(&name, &sha384) {
        Some(HashAlgorithm::Sha384)
    } else if chars_eq(&name, &sha512) {
        Some(HashAlgorithm::Sha512)
    } else {
        None
    }
}

/// Reads an algorithm from its lowercase name.
pub fn parse_algorithm(s: &str) -> (r: Result<HashAlgorithm, ParseHashAlgorithmErr>)
    ensures
        match alg_named(s@) {
            Some(a) => r == Ok::<HashAlgorithm, ParseHashAlgorithmErr>(a),
            None => r is Err,
        },
{
    let cs = chars_of(s);
    proof {
        assert(cs@.subrange(0, cs@.len() as int) =~= s@);
    }
    match alg_from_chars(&cs, 0, cs.len()) {
        Some(a) => Ok(a),
        None => Err(ParseHashAlgorithmErr),
    }
}

impl std::str::FromStr for HashAlgorithm {
    type Err = ParseHashAlgorithmErr;

    fn from_str(s: &str) -> Result<HashAlgorithm, ParseHashAlgorithmErr> {
        parse_algorithm(s)
    }
}


fn hex_char(n: u8) -> (c: char)
    requires
        n < 16,
    ensures
        c == hex_digit(n as int),
{
    let digits = ['0', '1', '2', '3', '4', '5', '6', '7', '8', '9', 'a', 'b', 'c', 'd', 'e', 'f'];
    proof {
        assert(digits@ =~= seq![
            '0', '1', '2', '3', '4', '5', '6', '7', '8', '9', 'a', 'b', 'c', 'd', 'e', 'f',
        ]);
    }
    digits[n as usize]
}

pub proof fn lemma_hex_of_len(b: Seq<u8>)
    ensures
        hex_of(b).len() == 2 * b.len(),
    decreases b.len(),
{
    if b.len() > 0 {
        lemma_hex_of_len(b.drop_last());
    }
}

pub proof fn lemma_hex_of_lower(b: Seq<u8>)
    ensures
        forall|i: int| 0 <= i < hex_of(b).len() ==> is_lower_xdigit(#[trigger] hex_of(b)[i]),
    decreases b.len(),
{
    if b.len() > 0 {
        lemma_hex_of_lower(b.drop_last());
        let d = seq!['0', '1', '2', '3', '4', '5', '6', '7', '8', '9', 'a', 'b', 'c', 'd', 'e', 'f'];
        assert forall|n: int| 0 <= n < 16 implies is_lower_xdigit(#[trigger] hex_digit(n)) by {
            assert(d[n] == hex_digit(n));
        }
        let x = b.last() as int;
        assert(0 <= x / 16 < 16);
        assert(0 <= x % 16 < 16);
        let h = hex_of(b);
        let t = hex_of(b.drop_last());
        assert forall|i: int| 0 <= i < h.len() implies is_lower_xdigit(#[trigger] h[i]) by {
            if i < t.len() {
                assert(h[i] == t[i]);
            } else if i == t.len() {
                assert(h[i] == hex_digit(x / 16));
            } else {
                assert(h[i] == hex_digit(x % 16));
            }
        }
    }
}

/// Lowercase hexadecimal text of `b`, two digits per byte.
fn hex_string(b: &Vec<u8>) -> (r: String)
    ensures
        r@ == hex_of(b@),
{
    let mut cs: Vec<char> = Vec::new();
    let mut i: usize = 0;
    while i < b.len()
        invariant
            i <= b@.len(),
            cs@ == hex_of(b@.subrange(0, i as int)),
        decreases b.len() - i,
    {
        let x = b[i];
        cs.push(hex_char(x / 16));
        cs.push(hex_char(x % 16));
        proof {
            let pre = b@.subrange(0, i as int + 1);
            assert(pre.drop_last() =~= b@.subrange(0, i as int));
            assert(pre.last() == x);
        }
        i = i + 1;
    }
    assert(b@.subrange(0, b@.len() as int) =~= b@);
    string_of(&cs)
}

/// The digest of `data` under `algorithm`.
fn digest(data: &[u8], algorithm: HashAlgorithm) -> (r: Vec<u8>)
    ensures
        r@ == digest_of(data@, algorithm),
        r@.len() == digest_len(algorithm),
{
    match algorithm {
        HashAlgorithm::Md5 => md5_digest(data),
        HashAlgorithm::Sha1 => sha1_digest(data),
        HashAlgorithm::Sha256 => sha256_digest(data),
        HashAlgorithm::Sha384 => sha384_digest(data),
        HashAlgorithm::Sha512 => sha512_digest(data),
    }
}

/// The hash made by `algorithm` with digest bytes `digest`: the digest as
/// lowercase hexadecimal, two digits per byte.
pub fn hash_from_digest(algorithm: HashAlgorithm, digest: &Vec<u8>) -> (r: Hash)
    ensures
        r.algorithm == algorithm,
        r.value@ == hex_of(digest@),
        r.value@.len() == 2 * digest@.len(),
        forall|i: int| 0 <= i < r.value@.len() ==> is_lower_xdigit(#[trigger] r.value@[i]),
{
    let value = hex_string(digest);
    proof {
        lemma_hex_of_len(digest@);
        lemma_hex_of_lower(digest@);
    }
    Hash { algorithm, value }
}

/// Hashes `data` with `algorithm`; the value is lowercase hexadecimal.
pub fn hash_data(data: &[u8], algorithm: HashAlgorithm) -> (r: Hash)
    ensures
        r.algorithm == algorithm,
        r.value@ == hash_value_of(data@, algorithm),
        r.value@.len() == 2 * digest_len(algorithm),
        forall|i: int| 0 <= i < r.value@.len() ==> is_lower_xdigit(#[trigger] r.value@[i]),
{
    let d = digest(data, algorithm);
    hash_from_digest(algorithm, &d)
}

impl Hash {
    /// The text form `algorithm:value`.
    pub fn to_string(&self) -> (r: String)
        ensures
            r@ == hash_string(self.algorithm, self.value@),
    {
        let mut cs: Vec<char> = Vec::new();
        push_str(&mut cs, self.algorithm.to_string().as_str());
        cs.push(':');
        push_str(&mut cs, self.value.as_str());
        proof {
            assert(cs@ =~= hash_string(self.algorithm, self.value@));
        }
        string_of(&cs)
    }
}

/// The only way `s` can split as a hash text: the first non-space index, the
/// first colon after it, and the end of the trailing white space.
proof fn lemma_hash_text_split(
    s: Seq<char>,
    a: Seq<char>,
    v: Seq<char>,
    p: Seq<char>,
    q: Seq<char>,
)
    requires
        a.len() > 0,
        all_alnum(a),
        v.len() > 0,
        all_xdigit(v),
        all_space(p),
        all_space(q),
        s == p + a + seq![':'] + v + q,
    ensures
        a == s.subrange(p.len() as int, p.len() + a.len() as int),
        v == s.subrange(p.len() + a.len() + 1 as int, s.len() - q.len() as int),
        s[p.len() + a.len() as int] == ':',
        !is_space(s[p.len() as int]),
        !is_space(s[s.len() - q.len() - 1]),
        forall|j: int| 0 <= j < p.len() ==> is_space(#[trigger] s[j]),
        forall|j: int| s.len() - q.len() <= j < s.len() ==> is_space(#[trigger] s[j]),
        forall|j: int| p.len() <= j < p.len() + a.len() as int ==> #[trigger] s[j] != ':',
{
    reveal(hash_text);
    let n = p.len() + a.len() as int;
    assert(s[p.len() as int] == a[0]);
    assert(s[s.len() - q.len() - 1] == v[v.len() - 1]);
    assert(a =~= s.subrange(p.len() as int, n as int));
    assert(v =~= s.subrange(n + 1, s.len() - q.len()));
    assert forall|j: int| 0 <= j < p.len() implies is_space(#[trigger] s[j]) by {
        assert(s[j] == p[j]);
    }
    assert forall|j: int| s.len() - q.len() <= j < s.len() implies is_space(#[trigger] s[j]) by {
        assert(s[j] == q[j - (s.len() - q.len())]);
    }
    assert forall|j: int| p.len() <= j < n implies #[trigger] s[j] != ':' by {
        assert(s[j] == a[j - p.len()]);
        assert(is_alnum(a[j - p.len()]));
    }
}

/// A text has at most one reading as a hash.
pub proof fn lemma_hash_text_unique(s: Seq<char>, a1: Seq<char>, v1: Seq<char>, a2: Seq<char>, v2: Seq<char>)
    requires
        hash_text(s, a1, v1),
        hash_text(s, a2, v2),
    ensures
        a1 == a2,
        v1 == v2,
{
    reveal(hash_text);
    let (p1, q1) = choose|p: Seq<char>, q: Seq<char>|
        all_space(p) && all_space(q) && s == p + a1 + seq![':'] + v1 + q;
    let (p2, q2) = choose|p: Seq<char>, q: Seq<char>|
        all_space(p) && all_space(q) && s == p + a2 + seq![':'] + v2 + q;
    lemma_hash_text_split(s, a1, v1, p1, q1);
    lemma_hash_text_split(s, a2, v2, p2, q2);
    if p1.len() < p2.len() {
        assert(is_space(s[p1.len() as int]));
    }
    if p2.len() < p1.len() {
        assert(is_space(s[p2.len() as int]));
    }
    assert(p1.len() == p2.len());
    if a1.len() < a2.len() {
        assert(s[p1.len() + a1.len() as int] == ':');
    }
    if a2.len() < a1.len() {
        assert(s[p2.len() + a2.len() as int] == ':');
    }
    assert(a1.len() == a2.len());
    if q1.len() < q2.len() {
        assert(is_space(s[s.len() - q1.len() - 1]));
    }
    if q2.len() < q1.len() {
        assert(is_space(s[s.len() - q2.len() - 1]));
    }
}

/// `s[lo..k]` is a non-empty name and `s[k+1..hi]` non-empty digits.
spec fn split_ok(s: Seq<char>, lo: int, k: int, hi: int) -> bool {
    &&& lo < k
    &&& k + 1 < hi
    &&& forall|j: int| lo <= j < k ==> is_alnum(#[trigger] s[j])
    &&& forall|j: int| k + 1 <= j < hi ==> is_xdigit(#[trigger] s[j])
}

/// Any reading of `s` as a hash is the one found by trimming white space and
/// splitting at the first colon.
proof fn lemma_hash_text_found(s: Seq<char>, lo: int, k: int, hi: int, a: Seq<char>, v: Seq<char>)
    requires
        0 <= lo <= k <= hi <= s.len(),
        forall|j: int| 0 <= j < lo ==> is_space(#[trigger] s[j]),
        lo == s.len() || !is_space(s[lo]),
        forall|j: int| hi <= j < s.len() ==> is_space(#[trigger] s[j]),
        hi == lo || !is_space(s[hi - 1]),
        forall|j: int| lo <= j < k ==> #[trigger] s[j] != ':',
        k == hi || s[k] == ':',
        hash_text(s, a, v),
    ensures
        split_ok(s, lo, k, hi),
        a == s.subrange(lo, k),
        v == s.subrange(k + 1, hi),
{
    reveal(hash_text);
    let (p, q) = choose|p: Seq<char>, q: Seq<char>|
        all_space(p) && all_space(q) && s == p + a + seq![':'] + v + q;
    lemma_hash_text_split(s, a, v, p, q);
    if lo < p.len() {
        assert(is_space(s[lo]));
    }
    if p.len() < lo {
        assert(is_space(s[p.len() as int]));
    }
    assert(lo == p.len());
    let e = s.len() - q.len();
    if hi > e {
        assert(is_space(s[hi - 1]));
    }
    if hi < e {
        assert(is_space(s[e - 1]));
    }
    assert(hi == e);
    let c = p.len() + a.len() as int;
    if k > c {
        assert(s[c] == ':');
    }
    assert(k == c);
    assert forall|t: int| lo <= t < k implies is_alnum(#[trigger] s[t]) by {
        assert(s[t] == a[t - lo]);
    }
    assert forall|t: int| k + 1 <= t < hi implies is_xdigit(#[trigger] s[t]) by {
        assert(s[t] == v[t - k - 1]);
    }
}

/// Whether every character of `cs[from..to]` is alphanumeric.
fn all_alnum_in(cs: &Vec<char>, from: usize, to: usize) -> (r: bool)
    requires
        from <= to <= cs@.len(),
    ensures
        r == forall|j: int| from <= j < to ==> is_alnum(#[trigger] cs@[j]),
{
    let mut i = from;
    while i < to
        invariant
            from <= i <= to <= cs@.len(),
            forall|j: int| from <= j < i ==> is_alnum(#[trigger] cs@[j]),
        decreases to - i,
    {
        if !char_is_alnum(cs[i]) {
            return false;
        }
        i = i + 1;
    }
    true
}

/// Whether every character of `cs[from..to]` is a hexadecimal digit.
fn all_xdigit_in(cs: &Vec<char>, from: usize, to: usize) -> (r: bool)
    requires
        from <= to <= cs@.len(),
    ensures
        r == forall|j: int| from <= j < to ==> is_xdigit(#[trigger] cs@[j]),
{
    let mut i = from;
    while i < to
        invariant
            from <= i <= to <= cs@.len(),
            forall|j: int| from <= j < i ==> is_xdigit(#[trigger] cs@[j]),
        decreases to - i,
    {
        if !char_is_xdigit(cs[i]) {
            return false;
        }
        i = i + 1;
    }
    true
}

/// Trimmed white space and a valid split give a hash text.
proof fn lemma_split_gives_text(s: Seq<char>, lo: int, k: int, hi: int)
    requires
        0 <= lo <= k <= hi <= s.len(),
        forall|j: int| 0 <= j < lo ==> is_space(#[trigger] s[j]),
        forall|j: int| hi <= j < s.len() ==> is_space(#[trigger] s[j]),
        split_ok(s, lo, k, hi),
        s[k] == ':',
    ensures
        hash_text(s, s.subrange(lo, k), s.subrange(k + 1, hi)),
{
    reveal(hash_text);
    let a = s.subrange(lo, k);
    let v = s.subrange(k + 1, hi);
    let p = s.subrange(0, lo);
    let q = s.subrange(hi, s.len() as int);
    assert(s =~= p + a + seq![':'] + v + q);
    assert(all_space(p));
    assert(all_space(q));
    assert(all_alnum(a));
    assert(all_xdigit(v));
}

/// The first non-space index `lo`, the end `hi` of the text before trailing
/// white space, and the first colon `k` from `lo` (or `hi` if none).
fn split_points(cs: &Vec<char>) -> (r: (usize, usize, usize))
    ensures
        ({
            let (lo, k, hi) = r;
            let s = cs@;
            &&& 0 <= lo <= k <= hi <= s.len()
            &&& forall|j: int| 0 <= j < lo ==> is_space(#[trigger] s[j])
            &&& lo == s.len() || !is_space(s[lo as int])
            &&& forall|j: int| hi <= j < s.len() ==> is_space(#[trigger] s[j])
            &&& hi == lo || !is_space(s[hi - 1])
            &&& forall|j: int| lo <= j < k ==> #[trigger] s[j] != ':'
            &&& k == hi || s[k as int] == ':'
        }),
{
    let n = cs.len();
    let mut lo: usize = 0;
    while lo < n && char_is_space(cs[lo])
        invariant
            n == cs@.len(),
            lo <= n,
            forall|j: int| 0 <= j < lo ==> is_space(#[trigger] cs@[j]),
        decreases n - lo,
    {
        lo = lo + 1;
    }
    let mut hi: usize = n;
    while hi > lo && char_is_space(cs[hi - 1])
        invariant
            n == cs@.len(),
            lo <= hi <= n,
            forall|j: int| hi <= j < n ==> is_space(#[trigger] cs@[j]),
        decreases hi,
    {
        hi = hi - 1;
    }
    let mut k: usize = lo;
    while k < hi && cs[k] != ':'
        invariant
            lo <= k <= hi <= n == cs@.len(),
            forall|j: int| lo <= j < k ==> #[trigger] cs@[j] != ':',
        decreases hi - k,
    {
        k = k + 1;
    }
    (lo, k, hi)
}

/// Reads a hash from its text form `algorithm:value`, with white space
/// allowed at either end.
pub fn parse_hash(s: &str) -> (r: Result<Hash, ParseHashErr>)
    ensures
        match r {
            Ok(h) => parses_as(s@, h.algorithm, h.value@),
            Err(ParseHashErr::InvalidAlgorithm) => exists|a: Seq<char>, v: Seq<char>|
                hash_text(s@, a, v) && alg_named(a) is None,
            Err(ParseHashErr::InvalidFormat) => forall|a: Seq<char>, v: Seq<char>|
                !hash_text(s@, a, v),
        },
{
    let cs = chars_of(s);
    let (lo, k, hi) = split_points(&cs);
    let ok = k > lo && k < hi && k + 1 < hi && all_alnum_in(&cs, lo, k) && all_xdigit_in(
        &cs,
        k + 1,
        hi,
    );
    let ghost sv = s@;
    proof {
        assert(cs@ == sv);
    }
    if !ok {
        proof {
            assert forall|a: Seq<char>, v: Seq<char>| !hash_text(sv, a, v) by {
                if hash_text(sv, a, v) {
                    lemma_hash_text_found(sv, lo as int, k as int, hi as int, a, v);
                }
            }
        }
        return Err(ParseHashErr::InvalidFormat);
    }
    let ghost a = cs@.subrange(lo as int, k as int);
    let ghost v = cs@.subrange(k + 1, hi as int);
    proof {
        lemma_split_gives_text(sv, lo as int, k as int, hi as int);
    }
    match alg_from_chars(&cs, lo, k) {
        Some(algorithm) => {
            let vcs = slice_chars(&cs, k + 1, hi);
            proof {
                lemma_alg_named_name(algorithm);
                if alg_name(algorithm) != a {
                    assert(alg_named(a) == Some(algorithm));
                }
            }
            Ok(Hash { algorithm, value: string_of(&vcs) })
        },
        None => Err(ParseHashErr::InvalidAlgorithm),
    }
}

/// `s` reads as a hash of a known algorithm.
pub open spec fn is_hash_text(s: Seq<char>) -> bool {
    exists|a: HashAlgorithm, v: Seq<char>| parses_as(s, a, v)
}

/// `s` reads as a hash of a known algorithm that `data` has.
pub open spec fn hash_text_matches(data: Seq<u8>, s: Seq<char>) -> bool {
    exists|a: HashAlgorithm, v: Seq<char>| parses_as(s, a, v) && v == hash_value_of(data, a)
}

/// Reading back the text form of a hash gives that hash and nothing else:
/// for any algorithm and any non-empty lowercase hexadecimal value (the values
/// that `hash_data` makes), `algorithm:value` parses as exactly that pair.
pub proof fn lemma_hash_round_trip(a: HashAlgorithm, v: Seq<char>)
    requires
        v.len() > 0,
        forall|i: int| 0 <= i < v.len() ==> is_lower_xdigit(#[trigger] v[i]),
    ensures
        parses_as(hash_string(a, v), a, v),
        forall|x: Seq<char>, y: Seq<char>|
            hash_text(hash_string(a, v), x, y) ==> x == alg_name(a) && y == v,
        forall|b: HashAlgorithm, y: Seq<char>|
            parses_as(hash_string(a, v), b, y) ==> b == a && y == v,
{
    let s = hash_string(a, v);
    let e = Seq::<char>::empty();
    lemma_alg_name_alnum(a);
    assert(s =~= e + alg_name(a) + seq![':'] + v + e);
    assert(all_xdigit(v));
    assert(all_alnum(alg_name(a)));
    reveal(hash_text);
    assert(hash_text(s, alg_name(a), v));
    assert forall|x: Seq<char>, y: Seq<char>|
        hash_text(s, x, y) implies x == alg_name(a) && y == v by {
        lemma_hash_text_unique(s, x, y, alg_name(a), v);
    }
    assert forall|b: HashAlgorithm, y: Seq<char>| parses_as(s, b, y) implies b == a && y == v by {
        lemma_hash_text_unique(s, alg_name(b), y, alg_name(a), v);
        lemma_alg_named_name(a);
        lemma_alg_named_name(b);
    }
}

/// A text that reads as a hash of a known algorithm does so in one way only.
pub proof fn lemma_parses_as_unique(s: Seq<char>, a: HashAlgorithm, v: Seq<char>, b: HashAlgorithm, w: Seq<char>)
    requires
        parses_as(s, a, v),
        parses_as(s, b, w),
    ensures
        a == b,
        v == w,
{
    lemma_hash_text_unique(s, alg_name(a), v, alg_name(b), w);
    lemma_alg_named_name(a);
    lemma_alg_named_name(b);
}

/// Parsing succeeds exactly on texts that read as a hash of a known algorithm.
pub proof fn lemma_parse_outcome(s: Seq<char>, r: Result<Hash, ParseHashErr>)
    requires
        match r {
            Ok(h) => parses_as(s, h.algorithm, h.value@),
            Err(ParseHashErr::InvalidAlgorithm) => exists|a: Seq<char>, v: Seq<char>|
                hash_text(s, a, v) && alg_named(a) is None,
            Err(ParseHashErr::InvalidFormat) => forall|a: Seq<char>, v: Seq<char>|
                !hash_text(s, a, v),
        },
    ensures
        (r is Ok) == is_hash_text(s),
{
    if is_hash_text(s) {
        let (a, v) = choose|a: HashAlgorithm, v: Seq<char>| parses_as(s, a, v);
        match r {
            Err(ParseHashErr::InvalidAlgorithm) => {
                let (x, y) = choose|x: Seq<char>, y: Seq<char>|
                    hash_text(s, x, y) && alg_named(x) is None;
                lemma_hash_text_unique(s, x, y, alg_name(a), v);
                lemma_alg_named_name(a);
            },
            Err(ParseHashErr::InvalidFormat) => {
                assert(hash_text(s, alg_name(a), v));
            },
            Ok(_) => {},
        }
    }
}

/// Checks that two hashes are the same: same algorithm, same digits.
pub fn validate_hash(found: &Hash, expected: &Hash) -> (r: Result<(), HashValidateErr>)
    ensures
        r is Ok <==> (found.algorithm == expected.algorithm && found.value@ == expected.value@),
        r is Err ==> r == Err::<(), HashValidateErr>(HashValidateErr::HashesDontMatch),
{
    if found.algorithm == expected.algorithm && str_eq(found.value.as_str(), expected.value.as_str()) {
        Ok(())
    } else {
        Err(HashValidateErr::HashesDontMatch)
    }
}

/// Checks `data` against the hash text `expected`.
pub fn validate_hash_data(data: &[u8], expected: &str) -> (r: Result<(), HashValidateErr>)
    ensures
        !is_hash_text(expected@) <==> r == Err::<(), HashValidateErr>(
            HashValidateErr::InvalidExpectedHash,
        ),
        r is Ok <==> hash_text_matches(data@, expected@),
        r is Err && is_hash_text(expected@) ==> r == Err::<(), HashValidateErr>(
            HashValidateErr::HashesDontMatch,
        ),
{
    let parsed = parse_hash(expected);
    proof {
        lemma_parse_outcome(expected@, parsed);
    }
    match parsed {
        Ok(h) => {
            let found = hash_data(data, h.algorithm);
            let r = validate_hash(&found, &h);
            proof {
                if hash_text_matches(data@, expected@) {
                    let (a, v) = choose|a: HashAlgorithm, v: Seq<char>|
                        parses_as(expected@, a, v) && v == hash_value_of(data@, a);
                    lemma_parses_as_unique(expected@, a, v, h.algorithm, h.value@);
                }
            }
            r
        },
        Err(_) => Err(HashValidateErr::InvalidExpectedHash),
    }
}

/// Checks the contents of a file against the hash text `expected`; `None`
/// stands for a file that could not be read.
pub fn validate_hash_file(contents: Option<&[u8]>, expected: &str) -> (r: Result<(), HashValidateErr>)
    ensures
        !is_hash_text(expected@) <==> r == Err::<(), HashValidateErr>(
            HashValidateErr::InvalidExpectedHash,
        ),
        is_hash_text(expected@) && contents is None ==> r == Err::<(), HashValidateErr>(
            HashValidateErr::FileReadFailed,
        ),
        r is Ok <==> (contents is Some && hash_text_matches(contents.unwrap()@, expected@)),
        r is Err && is_hash_text(expected@) && contents is Some ==> r == Err::<(), HashValidateErr>(
            HashValidateErr::HashesDontMatch,
        ),
{
    let parsed = parse_hash(expected);
    proof {
        lemma_parse_outcome(expected@, parsed);
    }
    match parsed {
        Ok(_) => match contents {
            Some(data) => validate_hash_data(data, expected),
            None => Err(HashValidateErr::FileReadFailed),
        },
        Err(_) => Err(HashValidateErr::InvalidExpectedHash),
    }
}

impl std::str::FromStr for Hash {
    type Err = ParseHashErr;

    fn from_str(s: &str) -> Result<Hash, ParseHashErr> {
        parse_hash(s)
    }
}

} // verus!
