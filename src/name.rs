use crate::text::{
    decimal, find_char, hex_alphabet, hex_lower, lemma_hex_lower_len, hex_string, i64_of, last_index_of, lemma_hex_lower_alphabet,
    lemma_i64_decimal_round_trip, lemma_next_index_of, next_index_of,
    parse_i64, rfind_char,
};
use crate::visibility::{display_name, display_of_name, Display};
use sha2::Digest;
use vstd::prelude::*;
use vstd::utf8::*;

verus! {

broadcast use vstd::utf8::encode_utf8_valid_utf8, vstd::utf8::encode_utf8_decode_utf8;

/// Why a picture token could not be read.
#[derive(Clone, Copy, Debug, PartialEq, Eq, Structural)]
pub enum NameError {
    /// Not URL-safe base64 without padding.
    InvalidBase64,
    /// The decoded bytes are not UTF-8.
    InvalidUtf8,
    /// Fewer than three `#`-separated fields.
    InvalidName,
    /// The second field names no visibility level.
    InvalidDisplay,
    /// The third field is not an `i64` in decimal.
    InvalidTimestamp,
}

/// SHA-256 digest of the bytes, as computed by the `sha2` crate.
pub uninterp spec fn sha256_of(b: Seq<u8>) -> Seq<u8>;

/// The URL-safe base64 alphabet, indexed by six-bit value.
pub open spec fn url_b64_alphabet() -> Seq<char> {
    seq!['A', 'B', 'C', 'D', 'E', 'F', 'G', 'H', 'I', 'J', 'K', 'L', 'M', 'N', 'O', 'P', 'Q', 'R', 'S', 'T', 'U', 'V', 'W', 'X', 'Y', 'Z', 'a', 'b', 'c', 'd', 'e', 'f', 'g', 'h', 'i', 'j', 'k', 'l', 'm', 'n', 'o', 'p', 'q', 'r', 's', 't', 'u', 'v', 'w', 'x', 'y', 'z', '0', '1', '2', '3', '4', '5', '6', '7', '8', '9', '-', '_']
}

/// URL-safe base64 without padding: each three bytes give four characters of six bits each, most
/// significant first; two trailing bytes give three characters and one gives two, the missing low
/// bits set to zero.
pub open spec fn url_b64_encoded(b: Seq<u8>) -> Seq<char>
    decreases b.len(),
{
    let a = url_b64_alphabet();
    if b.len() >= 3 {
        seq![
            a[(b[0] / 4) as int],
            a[((b[0] % 4) * 16 + b[1] / 16) as int],
            a[((b[1] % 16) * 4 + b[2] / 64) as int],
            a[(b[2] % 64) as int],
        ] + url_b64_encoded(b.subrange(3, b.len() as int))
    } else if b.len() == 2 {
        seq![a[(b[0] / 4) as int], a[((b[0] % 4) * 16 + b[1] / 16) as int], a[((b[1] % 16) * 4) as int]]
    } else if b.len() == 1 {
        seq![a[(b[0] / 4) as int], a[((b[0] % 4) * 16) as int]]
    } else {
        Seq::empty()
    }
}

/// Bytes that the `base64` crate reads from URL-safe base64 without padding, if it accepts the text.
pub uninterp spec fn url_b64_decoded(s: Seq<char>) -> Option<Seq<u8>>;

/// Characters of the URL-safe base64 alphabet.
pub open spec fn is_url_safe_char(c: char) -> bool {
    ('A' <= c && c <= 'Z') || ('a' <= c && c <= 'z') || ('0' <= c && c <= '9') || c == '-' || c
        == '_'
}

/// Relies on sha2::Sha256::digest: the 32-byte SHA-256 digest of the input.
#[verifier::external_body]
fn sha256(b: &[u8]) -> (r: Vec<u8>)
    ensures
        r@ == sha256_of(b@),
        r@.len() == 32,
{
    sha2::Sha256::digest(b).to_vec()
}

/// Relies on base64::encode_config with URL_SAFE_NO_PAD: the encoding of the bytes in the URL-safe
/// alphabet without padding, which base64::decode_config with the same config reads back.
/// It panics only when the output length overflows `usize`, which no slice can reach.
#[verifier::external_body]
fn url_b64_encode(b: &[u8]) -> (r: String)
    ensures
        r@ == url_b64_encoded(b@),
        url_b64_decoded(r@) == Some(b@),
        forall|i: int| 0 <= i < r@.len() ==> is_url_safe_char(#[trigger] r@[i]),
{
    base64::encode_config(b, base64::URL_SAFE_NO_PAD)
}

/// Relies on base64::decode_config with URL_SAFE_NO_PAD.
#[verifier::external_body]
fn url_b64_decode(s: &str) -> (r: Result<Vec<u8>, base64::DecodeError>)
    ensures
        r is Ok <==> url_b64_decoded(s@) is Some,
        r matches Ok(v) ==> url_b64_decoded(s@) == Some(v@),
{
    base64::decode_config(s, base64::URL_SAFE_NO_PAD)
}

/// Relies on String::from_utf8: succeeds exactly on well-formed UTF-8 and keeps its characters.
#[verifier::external_body]
fn utf8_string(b: Vec<u8>) -> (r: Option<String>)
    ensures
        r is Some <==> valid_utf8(b@),
        r matches Some(s) ==> s@ == decode_utf8(b@),
{
    String::from_utf8(b).ok()
}

/// Relies on chrono::Utc::now: the current time in whole seconds since the Unix epoch.
#[verifier::external_body]
fn now_timestamp() -> (r: i64) {
    chrono::Utc::now().timestamp()
}

#[verifier::external_type_specification]
#[verifier::external_body]
pub struct ExDecodeError(base64::DecodeError);

/// File ending of stored pictures.
pub open spec fn png_ending() -> Seq<char> {
    seq!['.', 'p', 'n', 'g']
}

/// The owner hash of a UUID: lowercase hex of the SHA-256 of its UTF-8 bytes.
pub open spec fn uuid_hash_of(uuid: Seq<char>) -> Seq<char> {
    hex_lower(sha256_of(encode_utf8(uuid)))
}

/// Storage key of a picture: `{hash}_{level}.png`.
pub open spec fn internal_key(hash: Seq<char>, d: Display) -> Seq<char> {
    hash + seq!['_'] + display_name(d) + png_ending()
}

/// Text inside a token: `{hash}#{level}#{seconds}`.
pub open spec fn payload(hash: Seq<char>, d: Display, ts: i64) -> Seq<char> {
    hash + seq!['#'] + display_name(d) + seq!['#'] + decimal(ts as int)
}

/// The first three `#`-separated fields of a payload, read as hash, level and seconds.
pub open spec fn parse_payload(s: Seq<char>) -> Result<(Seq<char>, Display, i64), NameError> {
    let d1 = next_index_of(s, '#', 0);
    if d1 >= s.len() {
        Err(NameError::InvalidName)
    } else {
        let d2 = next_index_of(s, '#', d1 + 1);
        match display_of_name(s.subrange(d1 + 1, d2)) {
            None => Err(NameError::InvalidDisplay),
            Some(d) => if d2 >= s.len() {
                Err(NameError::InvalidName)
            } else {
                let d3 = next_index_of(s, '#', d2 + 1);
                match i64_of(s.subrange(d2 + 1, d3)) {
                    None => Err(NameError::InvalidTimestamp),
                    Some(ts) => Ok((s.subrange(0, d1), d, ts)),
                }
            },
        }
    }
}

/// Fields of a decoded payload given as bytes.
pub open spec fn payload_fields(b: Seq<u8>) -> Result<(Seq<char>, Display, i64), NameError> {
    if valid_utf8(b) {
        parse_payload(decode_utf8(b))
    } else {
        Err(NameError::InvalidUtf8)
    }
}

/// Fields of an encoded token.
pub open spec fn token_fields(encoded: Seq<char>) -> Result<(Seq<char>, Display, i64), NameError> {
    match url_b64_decoded(encoded) {
        Some(b) => payload_fields(b),
        None => Err(NameError::InvalidBase64),
    }
}

/// The token inside a URI: the last path segment, without its extension.
pub open spec fn strip_uri(s: Seq<char>) -> Seq<char> {
    let start = match last_index_of(s, '/') {
        Some(i) => i + 1,
        None => 0,
    };
    match last_index_of(s, '.') {
        Some(e) => if e >= start {
            s.subrange(start, e)
        } else {
            s.subrange(start, s.len() as int)
        },
        None => s.subrange(start, s.len() as int),
    }
}

/// Owner hash, level and seconds of a file name.
pub open spec fn fields_of(n: ExternalFileName) -> (Seq<char>, Display, i64) {
    (n.internal.uuid_hash@, n.internal.display, n.ts)
}

/// A payload whose hash holds no `#` reads back as the same three fields.
pub proof fn lemma_payload_round_trip(hash: Seq<char>, d: Display, ts: i64)
    requires
        !hash.contains('#'),
    ensures
        parse_payload(payload(hash, d, ts)) == Ok::<_, NameError>((hash, d, ts)),
        payload_fields(encode_utf8(payload(hash, d, ts))) == Ok::<_, NameError>((hash, d, ts)),
{
    let name = display_name(d);
    let dec = decimal(ts as int);
    let s = payload(hash, d, ts);
    let d1 = hash.len() as int;
    let d2 = d1 + 1 + name.len();
    crate::visibility::lemma_display_name_round_trip(d);
    lemma_i64_decimal_round_trip(ts);
    assert(s[d1] == '#');
    assert forall|j: int| 0 <= j < d1 implies s[j] != '#' by {
        assert(s[j] == hash[j]);
        if hash[j] == '#' {
            assert(hash.contains('#'));
        }
    }
    lemma_next_index_of(s, '#', 0, d1);
    assert(name.len() > 0 && forall|j: int| 0 <= j < name.len() ==> name[j] != '#') by {
        match d {
            Display::Public => {},
            Display::Authenticated => {},
            Display::Vouched => {},
            Display::Ndaed => {},
            Display::Staff => {},
            Display::Private => {},
        }
    }
    assert(s[d2] == '#');
    assert forall|j: int| d1 + 1 <= j < d2 implies s[j] != '#' by {
        assert(s[j] == name[j - d1 - 1]);
    }
    lemma_next_index_of(s, '#', d1 + 1, d2);
    assert(s.subrange(d1 + 1, d2) =~= name);
    assert forall|j: int| d2 + 1 <= j < s.len() implies s[j] != '#' by {
        assert(s[j] == dec[j - d2 - 1]);
        if dec[j - d2 - 1] == '#' {
            assert(dec.contains('#'));
        }
    }
    lemma_next_index_of(s, '#', d2 + 1, s.len() as int);
    assert(s.subrange(d2 + 1, s.len() as int) =~= dec);
    assert(s.subrange(0, d1) =~= hash);
}

/// Text inside a plain owner token: `{uuid}#{seconds}`.
pub open spec fn uuid_payload(uuid: Seq<char>, ts: i64) -> Seq<char> {
    uuid + seq!['#'] + decimal(ts as int)
}

/// The owner read from a plain owner token: its text up to the first `#`.
pub open spec fn uuid_of_token(name: Seq<char>) -> Result<Seq<char>, NameError> {
    match url_b64_decoded(name) {
        None => Err(NameError::InvalidBase64),
        Some(b) => if valid_utf8(b) {
            let s = decode_utf8(b);
            Ok(s.subrange(0, next_index_of(s, '#', 0)))
        } else {
            Err(NameError::InvalidUtf8)
        },
    }
}

/// A plain owner token for `uuid`, stamped with `ts`.
pub fn name_from_uuid_at(uuid: &str, ts: i64) -> (r: String)
    ensures
        r@ == url_b64_encoded(encode_utf8(uuid_payload(uuid@, ts))),
        !uuid@.contains('#') ==> uuid_of_token(r@) == Ok::<_, NameError>(uuid@),
{
    let mut s = uuid.to_owned();
    s.append("#");
    let t = crate::text::i64_to_decimal(ts);
    s.append(t.as_str());
    proof {
        reveal_strlit("#");
        assert(s@ =~= uuid_payload(uuid@, ts));
    }
    let r = url_b64_encode(s.as_str().as_bytes());
    proof {
        let p = uuid_payload(uuid@, ts);
        let k = uuid@.len() as int;
        if !uuid@.contains('#') {
            assert forall|j: int| 0 <= j < k implies p[j] != '#' by {
                assert(p[j] == uuid@[j]);
                if uuid@[j] == '#' {
                    assert(uuid@.contains('#'));
                }
            }
            lemma_next_index_of(p, '#', 0, k);
            assert(p.subrange(0, k) =~= uuid@);
        }
    }
    r
}

/// A plain owner token for `uuid`, stamped with the current time.
pub fn name_from_uuid(uuid: &str) -> (r: String)
    ensures
        exists|ts: i64| r@ == url_b64_encoded(encode_utf8(#[trigger] uuid_payload(uuid@, ts))),
        !uuid@.contains('#') ==> uuid_of_token(r@) == Ok::<_, NameError>(uuid@),
{
    name_from_uuid_at(uuid, now_timestamp())
}

/// The owner of a plain owner token.
pub fn uuid_from_name(name: &str) -> (r: Result<String, NameError>)
    ensures
        match r {
            Ok(u) => uuid_of_token(name@) == Ok::<_, NameError>(u@),
            Err(e) => uuid_of_token(name@) == Err::<Seq<char>, NameError>(e),
        },
{
    let bytes = match url_b64_decode(name) {
        Ok(b) => b,
        Err(_) => return Err(NameError::InvalidBase64),
    };
    let s = match utf8_string(bytes) {
        Some(s) => s,
        None => return Err(NameError::InvalidUtf8),
    };
    let t = s.as_str();
    let end = find_char(t, '#', 0);
    Ok(t.substring_char(0, end).to_owned())
}

/// The payload made for an owner and a level reads back as the owner's hash, the level and the
/// time; the hash is hex, so it holds no separator.
pub proof fn lemma_owner_payload_round_trip(uuid: Seq<char>, d: Display, ts: i64)
    ensures
        payload_fields(encode_utf8(payload(uuid_hash_of(uuid), d, ts))) == Ok::<_, NameError>(
            (uuid_hash_of(uuid), d, ts),
        ),
{
    lemma_uuid_hash_chars(uuid);
    lemma_payload_round_trip(uuid_hash_of(uuid), d, ts);
}

/// A payload is read only when it has three fields, a known level and a decimal `i64` time, and
/// the decoding of a token fails when the text is not base64 or the bytes are not UTF-8.
pub proof fn lemma_decode_rejects(encoded: Seq<char>, s: Seq<char>)
    ensures
        url_b64_decoded(encoded) is None ==> token_fields(encoded) == Err::<
            (Seq<char>, Display, i64),
            NameError,
        >(NameError::InvalidBase64),
        url_b64_decoded(encoded) matches Some(b) && !valid_utf8(b) ==> token_fields(encoded) == Err::<
            (Seq<char>, Display, i64),
            NameError,
        >(NameError::InvalidUtf8),
        parse_payload(s) is Ok ==> {
            let d1 = next_index_of(s, '#', 0);
            let d2 = next_index_of(s, '#', d1 + 1);
            &&& d1 < s.len()
            &&& d2 < s.len()
            &&& display_of_name(s.subrange(d1 + 1, d2)) is Some
            &&& i64_of(s.subrange(d2 + 1, next_index_of(s, '#', d2 + 1))) is Some
        },
{
}

/// A payload `h#v#t` whose first two fields hold no `#` is refused when `v` names no level; when
/// `t` holds no `#` either, it is refused when `t` is not a decimal `i64`.
pub proof fn lemma_payload_rejects_fields(h: Seq<char>, v: Seq<char>, t: Seq<char>)
    requires
        !h.contains('#'),
        !v.contains('#'),
    ensures
        display_of_name(v) is None ==> parse_payload(h + seq!['#'] + v + seq!['#'] + t) is Err,
        !t.contains('#') && i64_of(t) is None ==> parse_payload(h + seq!['#'] + v + seq!['#'] + t) is Err,
{
    let s = h + seq!['#'] + v + seq!['#'] + t;
    let d1 = h.len() as int;
    let d2 = d1 + 1 + v.len();
    assert forall|j: int| 0 <= j < d1 implies s[j] != '#' by {
        assert(s[j] == h[j]);
        if h[j] == '#' {
            assert(h.contains('#'));
        }
    }
    lemma_next_index_of(s, '#', 0, d1);
    assert forall|j: int| d1 + 1 <= j < d2 implies s[j] != '#' by {
        assert(s[j] == v[j - d1 - 1]);
        if v[j - d1 - 1] == '#' {
            assert(v.contains('#'));
        }
    }
    lemma_next_index_of(s, '#', d1 + 1, d2);
    assert(s.subrange(d1 + 1, d2) =~= v);
    if !t.contains('#') {
        assert forall|j: int| d2 + 1 <= j < s.len() implies s[j] != '#' by {
            assert(s[j] == t[j - d2 - 1]);
            if t[j - d2 - 1] == '#' {
                assert(t.contains('#'));
            }
        }
        lemma_next_index_of(s, '#', d2 + 1, s.len() as int);
        assert(s.subrange(d2 + 1, s.len() as int) =~= t);
    }
}

/// Owner hash and visibility level of a stored picture.
pub struct InternalFileName {
    pub uuid_hash: String,
    pub display: Display,
}

/// A picture token: the stored picture's name and the time it was saved.
pub struct ExternalFileName {
    pub internal: InternalFileName,
    pub ts: i64,
}

/// The owner hash of a UUID.
pub fn uuid_hash(uuid: &str) -> (r: String)
    ensures
        r@ == uuid_hash_of(uuid@),
        r@.len() == 64,
        forall|i: int| 0 <= i < r@.len() ==> hex_alphabet().contains(#[trigger] r@[i]),
{
    let digest = sha256(uuid.as_bytes());
    let r = hex_string(digest.as_slice());
    proof {
        lemma_hex_lower_len(digest@);
        assert forall|i: int| 0 <= i < r@.len() implies hex_alphabet().contains(#[trigger] r@[i]) by {
            if !hex_alphabet().contains(r@[i]) {
                lemma_hex_lower_alphabet(digest@, r@[i]);
                assert(r@.contains(r@[i]));
            }
        }
    }
    r
}

/// An owner hash holds only hex digits, so no `#`.
pub proof fn lemma_uuid_hash_chars(uuid: Seq<char>)
    ensures
        !uuid_hash_of(uuid).contains('#'),
{
    lemma_hex_lower_alphabet(sha256_of(encode_utf8(uuid)), '#');
}

impl InternalFileName {
    pub fn from_uuid_and_display(uuid: &str, display: &Display) -> (r: Self)
        ensures
            r.uuid_hash@ == uuid_hash_of(uuid@),
            r.display == *display,
    {
        InternalFileName { uuid_hash: uuid_hash(uuid), display: *display }
    }

    /// Storage key: `{hash}_{level}.png`.
    pub fn to_string(&self) -> (r: String)
        ensures
            r@ == internal_key(self.uuid_hash@, self.display),
    {
        let mut s = self.uuid_hash.clone();
        s.append("_");
        s.append(self.display.as_str());
        s.append(".png");
        proof {
            reveal_strlit("_");
            reveal_strlit(".png");
            assert(s@ =~= internal_key(self.uuid_hash@, self.display));
        }
        s
    }
}

impl ExternalFileName {
    /// A new token for the owner and level, stamped with the current time.
    pub fn from_uuid_and_display(uuid: &str, display: &Display) -> (r: Self)
        ensures
            r.internal.uuid_hash@ == uuid_hash_of(uuid@),
            r.internal.display == *display,
    {
        ExternalFileName {
            internal: InternalFileName::from_uuid_and_display(uuid, display),
            ts: now_timestamp(),
        }
    }

    /// Reads the token of a URI or file name: the last path segment without its extension.
    pub fn from_uri(uri: &str) -> (r: Result<Self, NameError>)
        ensures
            match r {
                Ok(n) => token_fields(strip_uri(uri@)) == Ok::<_, NameError>(fields_of(n)),
                Err(e) => token_fields(strip_uri(uri@)) == Err::<(Seq<char>, Display, i64), NameError>(e),
            },
    {
        let n = uri.unicode_len();
        let start: usize = match rfind_char(uri, '/') {
            Some(i) => i + 1,
            None => 0,
        };
        let end: usize = match rfind_char(uri, '.') {
            Some(e) => if e >= start {
                e
            } else {
                n
            },
            None => n,
        };
        Self::from_encoded(uri.substring_char(start, end))
    }

    /// Reads a token: base64 of `{hash}#{level}#{seconds}`.
    pub fn from_encoded(encoded: &str) -> (r: Result<Self, NameError>)
        ensures
            match r {
                Ok(n) => token_fields(encoded@) == Ok::<_, NameError>(fields_of(n)),
                Err(e) => token_fields(encoded@) == Err::<(Seq<char>, Display, i64), NameError>(e),
            },
    {
        match url_b64_decode(encoded) {
            Ok(bytes) => Self::from_payload(bytes),
            Err(_) => Err(NameError::InvalidBase64),
        }
    }

    /// Reads the decoded bytes of a token.
    pub fn from_payload(bytes: Vec<u8>) -> (r: Result<Self, NameError>)
        ensures
            match r {
                Ok(n) => payload_fields(bytes@) == Ok::<_, NameError>(fields_of(n)),
                Err(e) => payload_fields(bytes@) == Err::<(Seq<char>, Display, i64), NameError>(e),
            },
    {
        let ghost b = bytes@;
        let s = match utf8_string(bytes) {
            Some(s) => s,
            None => return Err(NameError::InvalidUtf8),
        };
        let t = s.as_str();
        let n = t.unicode_len();
        let d1 = find_char(t, '#', 0);
        if d1 >= n {
            return Err(NameError::InvalidName);
        }
        let d2 = find_char(t, '#', d1 + 1);
        let display = match Display::from_name(t.substring_char(d1 + 1, d2)) {
            Some(d) => d,
            None => return Err(NameError::InvalidDisplay),
        };
        if d2 >= n {
            return Err(NameError::InvalidName);
        }
        let d3 = find_char(t, '#', d2 + 1);
        let ts = match parse_i64(t.substring_char(d2 + 1, d3)) {
            Some(v) => v,
            None => return Err(NameError::InvalidTimestamp),
        };
        let uuid_hash = t.substring_char(0, d1).to_owned();
        Ok(ExternalFileName { internal: InternalFileName { uuid_hash, display }, ts })
    }

    /// The text inside the token.
    pub fn payload(&self) -> (r: String)
        ensures
            r@ == payload(self.internal.uuid_hash@, self.internal.display, self.ts),
    {
        let mut s = self.internal.uuid_hash.clone();
        s.append("#");
        s.append(self.internal.display.as_str());
        s.append("#");
        let ts = crate::text::i64_to_decimal(self.ts);
        s.append(ts.as_str());
        proof {
            reveal_strlit("#");
            assert(s@ =~= payload(self.internal.uuid_hash@, self.internal.display, self.ts));
        }
        s
    }

    /// The token: URL-safe base64 without padding of the payload.
    pub fn encode(&self) -> (r: String)
        ensures
            r@ == url_b64_encoded(
                encode_utf8(payload(self.internal.uuid_hash@, self.internal.display, self.ts)),
            ),
            forall|i: int| 0 <= i < r@.len() ==> is_url_safe_char(#[trigger] r@[i]),
            !self.internal.uuid_hash@.contains('#') ==> token_fields(r@) == Ok::<_, NameError>(fields_of(*self)),
    {
        let p = self.payload();
        let r = url_b64_encode(p.as_str().as_bytes());
        proof {
            if !self.internal.uuid_hash@.contains('#') {
                lemma_payload_round_trip(self.internal.uuid_hash@, self.internal.display, self.ts);
            }
        }
        r
    }

    /// File name of the token: `{token}.png`.
    pub fn filename(&self) -> (r: String)
        ensures
            r@ == url_b64_encoded(
                encode_utf8(payload(self.internal.uuid_hash@, self.internal.display, self.ts)),
            ) + png_ending(),
            !self.internal.uuid_hash@.contains('#') ==> token_fields(strip_uri(r@)) == Ok::<_, NameError>(
                fields_of(*self),
            ),
    {
        let e = self.encode();
        let r = e.concat(".png");
        proof {
            reveal_strlit(".png");
            assert(r@ == e@ + png_ending());
            lemma_strip_encoded_png(e@);
            assert(strip_uri(r@) == e@);
        }
        r
    }
}

/// Stripping `.png` from a URL-safe token gives the token back.
pub proof fn lemma_strip_encoded_png(e: Seq<char>)
    requires
        forall|i: int| 0 <= i < e.len() ==> is_url_safe_char(#[trigger] e[i]),
    ensures
        strip_uri(e + png_ending()) == e,
{
    let s = e + png_ending();
    let n = e.len() as int;
    assert(s.drop_last().drop_last().drop_last().drop_last() =~= e);
    assert(s.last() == 'g');
    assert(s.drop_last().last() == 'n');
    assert(s.drop_last().drop_last().last() == 'p');
    assert(s.drop_last().drop_last().drop_last().last() == '.');
    assert(last_index_of(s, '.') == Some(n)) by {
        assert(last_index_of(s, '.') == last_index_of(s.drop_last(), '.'));
        assert(last_index_of(s.drop_last(), '.') == last_index_of(s.drop_last().drop_last(), '.'));
        assert(last_index_of(s.drop_last().drop_last(), '.') == last_index_of(
            s.drop_last().drop_last().drop_last(),
            '.',
        ));
    }
    assert forall|i: int| 0 <= i < s.len() implies s[i] != '/' by {
        if i < n {
            assert(s[i] == e[i]);
            assert(is_url_safe_char(e[i]));
        }
    }
    lemma_absent_char(s, '/');
    assert(s.subrange(0, n) =~= e);
}

proof fn lemma_absent_char(s: Seq<char>, c: char)
    requires
        forall|i: int| 0 <= i < s.len() ==> s[i] != c,
    ensures
        last_index_of(s, c) is None,
    decreases s.len(),
{
    if s.len() > 0 {
        lemma_absent_char(s.drop_last(), c);
    }
}

} // verus!
