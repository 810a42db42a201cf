//! The worker's access checks: constant-time comparison of secrets, the
//! admin credentials carried by request headers, salted hashes of PINs and
//! coach keys, and escaping for the admin page.
use base64::Engine;
use sha2::Digest;
use vstd::prelude::*;
use vstd::utf8::{decode_utf8, encode_utf8, valid_utf8};
use vstd::string::StringSliceAdditionalSpecFns;

use crate::text::{
    chars_between, chars_from, chars_of, hex_padded, has_prefix, push_all, push_hex_padded,
    starts_with_chars, string_from_chars, trim, trim_chars,
};

verus! {

// ── Outside calls ───────────────────────────────────────────────────────────

/// What standard base64 decoding (with padding, as `base64`'s `STANDARD`
/// engine decodes) gives for `input`: the bytes, or `None` for input that is
/// not valid base64.
pub uninterp spec fn base64_standard_decoded(input: Seq<u8>) -> Option<Seq<u8>>;

/// Decodes standard base64 (`base64::engine::general_purpose::STANDARD`'s
/// `Engine::decode`). The contract names the result; it says nothing of its
/// content beyond that it is a function of the input.
#[verifier::external_body]
fn base64_standard_decode(input: &[u8]) -> (r: Option<Vec<u8>>)
    ensures
        match r {
            Some(bytes) => base64_standard_decoded(input@) == Some(bytes@),
            None => base64_standard_decoded(input@) is None,
        },
{
    base64::engine::general_purpose::STANDARD.decode(input).ok()
}

/// UTF-8 decoding of a byte vector (std `String::from_utf8`): `None` for
/// bytes that are not UTF-8, otherwise the decoded characters.
#[verifier::external_body]
fn string_from_utf8(bytes: Vec<u8>) -> (r: Option<String>)
    ensures
        r is Some <==> valid_utf8(bytes@),
        r matches Some(s) ==> s@ == decode_utf8(bytes@),
{
    String::from_utf8(bytes).ok()
}

/// The SHA-256 digest of `data`.
pub uninterp spec fn sha256_digest(data: Seq<u8>) -> Seq<u8>;

/// SHA-256 of `data` (`sha2::Sha256::digest`). The contract names the digest
/// and adds only its length, 32 bytes, the algorithm's output size.
#[verifier::external_body]
fn sha256(data: &[u8]) -> (d: Vec<u8>)
    ensures
        d@ == sha256_digest(data@),
        d@.len() == 32,
{
    sha2::Sha256::digest(data).to_vec()
}

// ── Comparing secrets ───────────────────────────────────────────────────────

proof fn lemma_bytes_decide_text(a: Seq<char>, b: Seq<char>)
    ensures
        (encode_utf8(a) == encode_utf8(b)) == (a == b),
{
    vstd::utf8::encode_utf8_decode_utf8(a);
    vstd::utf8::encode_utf8_decode_utf8(b);
}

/// Compares two strings in time that depends only on their lengths, not on
/// where they differ.
pub fn timing_safe_eq(left: &str, right: &str) -> (r: bool)
    ensures
        r == (left@ == right@),
{
    let left_bytes = left.as_bytes();
    let right_bytes = right.as_bytes();
    let ll = left_bytes.len();
    let rl = right_bytes.len();
    let mut diff: usize = ll ^ rl;
    proof {
        assert((ll ^ rl) == 0usize <==> ll == rl) by (bit_vector);
    }
    let max_len = if ll > rl { ll } else { rl };
    let mut index: usize = 0;
    while index < max_len
        invariant
            left_bytes@.len() == ll,
            right_bytes@.len() == rl,
            max_len == if ll > rl { ll } else { rl },
            index <= max_len,
            (diff == 0) == (ll == rl && forall|k: int|
                0 <= k < index ==> (#[trigger] left_bytes@[k]) == right_bytes@[k]),
        decreases max_len - index,
    {
        let left_byte: u8 = if index < ll { left_bytes[index] } else { 0 };
        let right_byte: u8 = if index < rl { right_bytes[index] } else { 0 };
        let x: u8 = left_byte ^ right_byte;
        let wide: usize = x as usize;
        proof {
            assert((left_byte ^ right_byte) == 0u8 <==> left_byte == right_byte) by (bit_vector);
            assert(wide == 0 <==> x == 0);
            assert((diff | wide) == 0usize <==> (diff == 0usize && wide == 0usize)) by (bit_vector);
        }
        diff = diff | wide;
        proof {
            if ll == rl {
                assert(index < ll);
            }
        }
        index = index + 1;
    }
    proof {
        if diff == 0 {
            assert(left_bytes@ =~= right_bytes@);
        }
        lemma_bytes_decide_text(left@, right@);
    }
    diff == 0
}

// ── Admin credentials ───────────────────────────────────────────────────────

/// The first position of `c` in `s`.
pub open spec fn first_index_of(s: Seq<char>, c: char) -> Option<int>
    decreases s.len(),
{
    if s.len() == 0 {
        None
    } else if s[0] == c {
        Some(0)
    } else {
        match first_index_of(s.drop_first(), c) {
            Some(i) => Some(i + 1),
            None => None,
        }
    }
}

/// The password of an HTTP Basic `Authorization` header: the header starts
/// with `Basic `, the rest decodes as base64 to UTF-8 text, and the password
/// is what follows the first `:` of that text.
pub open spec fn basic_auth_password(header: Seq<char>) -> Option<Seq<char>> {
    if has_prefix(header, "Basic "@) {
        password_of_decoded(base64_standard_decoded(encode_utf8(header.skip("Basic "@.len() as int))))
    } else {
        None
    }
}

/// The password in decoded Basic credentials: the bytes must be UTF-8 text,
/// and the password is what follows its first `:`.
pub open spec fn password_of_decoded(decoded: Option<Seq<u8>>) -> Option<Seq<char>> {
    match decoded {
        Some(bytes) => if valid_utf8(bytes) {
            match first_index_of(decode_utf8(bytes), ':') {
                Some(i) => Some(decode_utf8(bytes).skip(i + 1)),
                None => None,
            }
        } else {
            None
        },
        None => None,
    }
}

pub(crate) fn first_index_of_exec(s: &[char], c: char) -> (r: Option<usize>)
    ensures
        match r {
            Some(i) => first_index_of(s@, c) == Some(i as int) && i < s.len(),
            None => first_index_of(s@, c) is None,
        },
{
    let mut i: usize = 0;
    proof {
        assert(s@.skip(0) == s@);
    }
    while i < s.len()
        invariant
            i <= s.len(),
            first_index_of(s@, c) == match first_index_of(s@.skip(i as int), c) {
                Some(j) => Some(j + i),
                None => None::<int>,
            },
        decreases s.len() - i,
    {
        proof {
            assert(s@.skip(i as int).drop_first() == s@.skip(i as int + 1));
        }
        if s[i] == c {
            return Some(i);
        }
        i = i + 1;
    }
    None
}

/// The password of an HTTP Basic `Authorization` header, if it is one.
pub fn parse_basic_auth_password(header_value: &str) -> (r: Option<String>)
    ensures
        match r {
            Some(p) => basic_auth_password(header_value@) == Some(p@),
            None => basic_auth_password(header_value@) is None,
        },
{
    let header = chars_of(header_value);
    let prefix = chars_of("Basic ");
    if !starts_with_chars(header.as_slice(), prefix.as_slice()) {
        return None;
    }
    let encoded = string_from_chars(chars_from(header.as_slice(), prefix.len()).as_slice());
    password_from_decoded(base64_standard_decode(encoded.as_str().as_bytes()))
}

/// The password in decoded Basic credentials (`None` when decoding failed).
pub fn password_from_decoded(decoded: Option<Vec<u8>>) -> (r: Option<String>)
    ensures
        match r {
            Some(p) => password_of_decoded(
                match decoded {
                    Some(b) => Some(b@),
                    None => None,
                },
            ) == Some(p@),
            None => password_of_decoded(
                match decoded {
                    Some(b) => Some(b@),
                    None => None,
                },
            ) is None,
        },
{
    let bytes = match decoded {
        Some(bytes) => bytes,
        None => return None,
    };
    let text = match string_from_utf8(bytes) {
        Some(t) => t,
        None => return None,
    };
    let chars = chars_of(text.as_str());
    match first_index_of_exec(chars.as_slice(), ':') {
        Some(i) => Some(string_from_chars(chars_from(chars.as_slice(), i + 1).as_slice())),
        None => None,
    }
}

/// Whether request headers carry the admin secret: never when the secret is
/// empty; otherwise when the `X-Token` header, the token of an
/// `Authorization: Bearer` header, or the password of an `Authorization:
/// Basic` header equals the secret after trimming white space.
pub open spec fn has_admin_access(
    x_token: Option<Seq<char>>,
    authorization: Option<Seq<char>>,
    secret: Seq<char>,
) -> bool {
    &&& secret.len() > 0
    &&& {
        ||| (x_token matches Some(t) && trim(t) == secret)
        ||| (authorization matches Some(a) && has_prefix(a, "Bearer "@) && trim(
            a.skip("Bearer "@.len() as int),
        ) == secret)
        ||| (authorization matches Some(a) && basic_auth_password(a) matches Some(p) && trim(p)
            == secret)
    }
}

/// Trims `s` and compares it with `secret` in constant time.
fn trimmed_equals(s: &[char], secret: &str) -> (r: bool)
    ensures
        r == (trim(s@) == secret@),
{
    let trimmed = string_from_chars(trim_chars(s).as_slice());
    timing_safe_eq(trimmed.as_str(), secret)
}

/// Whether the `X-Token` and `Authorization` header values carry the admin
/// secret.
pub fn header_has_admin_access(
    x_token_header: Option<&str>,
    authorization_header: Option<&str>,
    admin_secret: &str,
) -> (r: bool)
    ensures
        r == has_admin_access(
            match x_token_header {
                Some(t) => Some(t@),
                None => None,
            },
            match authorization_header {
                Some(a) => Some(a@),
                None => None,
            },
            admin_secret@,
        ),
{
    if admin_secret.is_empty() {
        return false;
    }
    let mut x_token_ok = false;
    match x_token_header {
        Some(value) => {
            x_token_ok = trimmed_equals(chars_of(value).as_slice(), admin_secret);
        },
        None => {},
    }
    if x_token_ok {
        return true;
    }
    match authorization_header {
        Some(value) => {
            let header = chars_of(value);
            let bearer = chars_of("Bearer ");
            if starts_with_chars(header.as_slice(), bearer.as_slice()) {
                let token = chars_from(header.as_slice(), bearer.len());
                if trimmed_equals(token.as_slice(), admin_secret) {
                    return true;
                }
            }
            match parse_basic_auth_password(value) {
                Some(password) => {
                    if trimmed_equals(chars_of(password.as_str()).as_slice(), admin_secret) {
                        return true;
                    }
                },
                None => {},
            }
        },
        None => {},
    }
    false
}

// ── Salted hashes ───────────────────────────────────────────────────────────

/// The bytes that are hashed for `secret` under `salt`: the salt's UTF-8
/// bytes, a colon, then the secret's UTF-8 bytes.
pub open spec fn salted_bytes(secret: Seq<char>, salt: Seq<char>) -> Seq<u8> {
    encode_utf8(salt) + seq![58u8] + encode_utf8(secret)
}

/// Lower-case hexadecimal of each byte, two digits per byte.
pub open spec fn hex_bytes(bytes: Seq<u8>) -> Seq<char>
    decreases bytes.len(),
{
    if bytes.len() == 0 {
        Seq::empty()
    } else {
        hex_bytes(bytes.drop_last()) + hex_padded(bytes.last() as nat, 2)
    }
}

/// The stored form of `secret` under `salt`: the hex of the SHA-256 digest of
/// the salted bytes.
pub open spec fn salted_hash(secret: Seq<char>, salt: Seq<char>) -> Seq<char> {
    hex_bytes(sha256_digest(salted_bytes(secret, salt)))
}

/// One step of the older hash: multiply by the LCG constant and add the byte,
/// both wrapping.
pub open spec fn legacy_step(acc: u64, byte: u8) -> u64 {
    acc.wrapping_mul(6364136223846793005u64).wrapping_add(byte as u64)
}

/// The older hash's accumulator after folding `bytes` into `acc`.
pub open spec fn legacy_fold(acc: u64, bytes: Seq<u8>) -> u64
    decreases bytes.len(),
{
    if bytes.len() == 0 {
        acc
    } else {
        legacy_step(legacy_fold(acc, bytes.drop_last()), bytes.last())
    }
}

/// The older stored form of `secret` under `salt`: the fold of the salted
/// bytes from `0xcafe_babe_dead_beef`, as 16 hex digits.
pub open spec fn legacy_hash(secret: Seq<char>, salt: Seq<char>) -> Seq<char> {
    hex_padded(legacy_fold(0xcafe_babe_dead_beefu64, salted_bytes(secret, salt)) as nat, 16)
}

/// Whether a stored hash accepts `secret` under `salt`, in either form.
pub open spec fn hash_accepts(stored: Seq<char>, secret: Seq<char>, salt: Seq<char>) -> bool {
    stored == salted_hash(secret, salt) || stored == legacy_hash(secret, salt)
}

/// `secret`'s salted bytes.
fn salted_bytes_of(secret: &str, salt: &str) -> (r: Vec<u8>)
    ensures
        r@ == salted_bytes(secret@, salt@),
{
    let mut r: Vec<u8> = Vec::new();
    r.extend_from_slice(salt.as_bytes());
    r.push(58u8);
    r.extend_from_slice(secret.as_bytes());
    proof {
        assert(r@ =~= salted_bytes(secret@, salt@));
    }
    r
}

/// The salted SHA-256 hash under which PINs and coach keys are stored.
pub fn simple_hash(pin: &str, salt: &str) -> (r: String)
    ensures
        r@ == salted_hash(pin@, salt@),
{
    let digest = sha256(salted_bytes_of(pin, salt).as_slice());
    hex_of_bytes(digest.as_slice())
}

/// Bytes as lower-case hex, two digits each.
pub fn hex_of_bytes(bytes: &[u8]) -> (r: String)
    ensures
        r@ == hex_bytes(bytes@),
{
    let mut out: Vec<char> = Vec::new();
    let mut i: usize = 0;
    while i < bytes.len()
        invariant
            i <= bytes.len(),
            out@ == hex_bytes(bytes@.take(i as int)),
        decreases bytes.len() - i,
    {
        push_hex_padded(&mut out, bytes[i] as u64, 2);
        proof {
            assert(bytes@.take(i as int + 1).drop_last() == bytes@.take(i as int));
        }
        i = i + 1;
    }
    proof {
        assert(bytes@.take(bytes.len() as int) == bytes@);
    }
    string_from_chars(out.as_slice())
}

/// The older, non-cryptographic hash that stored values may still hold.
pub fn legacy_simple_hash(pin: &str, salt: &str) -> (r: String)
    ensures
        r@ == legacy_hash(pin@, salt@),
{
    let bytes = salted_bytes_of(pin, salt);
    let mut acc: u64 = 0xcafe_babe_dead_beef;
    let mut i: usize = 0;
    while i < bytes.len()
        invariant
            i <= bytes.len(),
            acc == legacy_fold(0xcafe_babe_dead_beefu64, bytes@.take(i as int)),
        decreases bytes.len() - i,
    {
        acc = acc.wrapping_mul(6364136223846793005).wrapping_add(bytes[i] as u64);
        proof {
            assert(bytes@.take(i as int + 1).drop_last() == bytes@.take(i as int));
        }
        i = i + 1;
    }
    proof {
        assert(bytes@.take(bytes.len() as int) == bytes@);
    }
    let mut out: Vec<char> = Vec::new();
    push_hex_padded(&mut out, acc, 16);
    proof {
        assert(Seq::<char>::empty() + legacy_hash(pin@, salt@) == legacy_hash(pin@, salt@));
    }
    string_from_chars(out.as_slice())
}

/// Whether `stored` is the hash of `secret` under `salt`, current or older form.
pub fn hash_matches(stored: &str, secret: &str, salt: &str) -> (r: bool)
    ensures
        r == hash_accepts(stored@, secret@, salt@),
{
    let current = simple_hash(secret, salt);
    if crate::text::chars_equal(chars_of(stored).as_slice(), chars_of(current.as_str()).as_slice()) {
        return true;
    }
    let legacy = legacy_simple_hash(secret, salt);
    crate::text::chars_equal(chars_of(stored).as_slice(), chars_of(legacy.as_str()).as_slice())
}

/// A value stored as the hash of a secret accepts that secret again.
pub proof fn lemma_stored_hash_accepts_its_secret(secret: Seq<char>, salt: Seq<char>)
    ensures
        hash_accepts(salted_hash(secret, salt), secret, salt),
        hash_accepts(legacy_hash(secret, salt), secret, salt),
{
}

// ── CORS ────────────────────────────────────────────────────────────────────

/// The origins allowed to call the API, the production origin first.
pub open spec fn allowed_origins() -> Seq<Seq<char>> {
    seq![
        "https://pcplayerpicker.com"@,
        "https://www.pcplayerpicker.com"@,
        "http://localhost:8080"@,
        "http://127.0.0.1:8080"@,
    ]
}

/// The CORS origin to answer with: the caller's `Origin` when it is allowed,
/// otherwise the production origin (never a wildcard).
pub open spec fn cors_origin_for(origin: Seq<char>) -> Seq<char> {
    if allowed_origins().contains(origin) {
        origin
    } else {
        allowed_origins()[0]
    }
}

/// The CORS origin for a request with the given `Origin` header (a missing
/// header counts as empty).
pub fn cors_origin(origin_header: Option<&str>) -> (r: String)
    ensures
        r@ == cors_origin_for(
            match origin_header {
                Some(o) => o@,
                None => Seq::empty(),
            },
        ),
{
    let origin = match origin_header {
        Some(o) => chars_of(o),
        None => Vec::new(),
    };
    let ghost wanted = match origin_header {
        Some(o) => o@,
        None => Seq::<char>::empty(),
    };
    proof {
        assert(origin@ == wanted);
    }
    let candidates: [&str; 4] = [
        "https://pcplayerpicker.com",
        "https://www.pcplayerpicker.com",
        "http://localhost:8080",
        "http://127.0.0.1:8080",
    ];
    let ghost allowed = allowed_origins();
    let mut i: usize = 0;
    while i < 4
        invariant
            i <= 4,
            allowed == allowed_origins(),
            candidates@.map_values(|c: &str| c@) == allowed,
            forall|k: int| 0 <= k < i ==> allowed[k] != origin@,
            origin@ == wanted,
            wanted == match origin_header {
                Some(o) => o@,
                None => Seq::<char>::empty(),
            },
        decreases 4 - i,
    {
        let candidate = chars_of(candidates[i]);
        proof {
            assert(candidates@.map_values(|c: &str| c@)[i as int] == candidate@);
        }
        if crate::text::chars_equal(candidate.as_slice(), origin.as_slice()) {
            proof {
                assert(allowed[i as int] == origin@);
                assert(allowed.contains(origin@));
                assert(cors_origin_for(wanted) == origin@);
            }
            return string_from_chars(origin.as_slice());
        }
        i = i + 1;
    }
    proof {
        assert(!allowed.contains(origin@));
        assert(candidates@.map_values(|c: &str| c@)[0] == candidates@[0]@);
    }
    string_from_chars(chars_of(candidates[0]).as_slice())
}

// ── HTML escaping ───────────────────────────────────────────────────────────

/// The HTML escape of one character: `&`, `<`, `>`, `"` and `'` become
/// entities, every other character stays.
pub open spec fn escape_char(c: char) -> Seq<char> {
    if c == '&' {
        "&amp;"@
    } else if c == '<' {
        "&lt;"@
    } else if c == '>' {
        "&gt;"@
    } else if c == '"' {
        "&quot;"@
    } else if c == '\'' {
        "&#39;"@
    } else {
        seq![c]
    }
}

/// `s` with every character escaped for HTML text and attributes.
pub open spec fn html_escaped(s: Seq<char>) -> Seq<char>
    decreases s.len(),
{
    if s.len() == 0 {
        Seq::empty()
    } else {
        html_escaped(s.drop_last()) + escape_char(s.last())
    }
}

/// Escaped text holds no markup character: no `<`, `>`, `"` or `'`.
pub proof fn lemma_escaped_text_has_no_markup(s: Seq<char>)
    ensures
        forall|i: int|
            0 <= i < html_escaped(s).len() ==> {
                let c = #[trigger] html_escaped(s)[i];
                c != '<' && c != '>' && c != '"' && c != '\''
            },
    decreases s.len(),
{
    reveal_strlit("&amp;");
    reveal_strlit("&lt;");
    reveal_strlit("&gt;");
    reveal_strlit("&quot;");
    reveal_strlit("&#39;");
    if s.len() > 0 {
        lemma_escaped_text_has_no_markup(s.drop_last());
        let head = html_escaped(s.drop_last());
        let tail = escape_char(s.last());
        assert(html_escaped(s) == head + tail);
        assert forall|i: int| 0 <= i < html_escaped(s).len() implies {
            let c = #[trigger] html_escaped(s)[i];
            c != '<' && c != '>' && c != '"' && c != '\''
        } by {
            if i >= head.len() {
                assert(html_escaped(s)[i] == tail[i - head.len()]);
            } else {
                assert(html_escaped(s)[i] == head[i]);
            }
        }
    }
}

/// Escapes text for the admin page.
pub fn html_escape(raw: &str) -> (r: String)
    ensures
        r@ == html_escaped(raw@),
{
    let s = chars_of(raw);
    let mut out: Vec<char> = Vec::new();
    let mut i: usize = 0;
    while i < s.len()
        invariant
            i <= s.len(),
            out@ == html_escaped(s@.take(i as int)),
        decreases s.len() - i,
    {
        let c = s[i];
        if c == '&' {
            push_all(&mut out, chars_of("&amp;").as_slice());
        } else if c == '<' {
            push_all(&mut out, chars_of("&lt;").as_slice());
        } else if c == '>' {
            push_all(&mut out, chars_of("&gt;").as_slice());
        } else if c == '"' {
            push_all(&mut out, chars_of("&quot;").as_slice());
        } else if c == '\'' {
            push_all(&mut out, chars_of("&#39;").as_slice());
        } else {
            out.push(c);
        }
        proof {
            assert(s@.take(i as int + 1).drop_last() == s@.take(i as int));
            assert(s@.take(i as int + 1).last() == c);
        }
        i = i + 1;
    }
    proof {
        assert(s@.take(s.len() as int) == s@);
    }
    string_from_chars(out.as_slice())
}

} // verus!
