use vstd::prelude::*;
use vstd::utf8::{decode_utf8, encode_utf8, valid_utf8};
use base64::Engine;
use crate::config::BasicAuthConfig;
use crate::message::{header_text, header_value_is_valid, spec_header_text, text_body, valid_header_value, HttpResponse};
use crate::random::{fill_random, thread_rng};
use crate::table::{distinct_keys, entries_map, insert_entry, lemma_entries_map_index};
use crate::text::{
    trim, trim_chars, lemma_split_char_nonempty,
    chars_eq, chars_of, decimal, decimal_chars, extend_chars, find_char, first_index_of, has_prefix,
    is_prefix, lemma_parse_decimal, lemma_split_concat, lemma_split_without_separator,
    parse_unsigned, parse_unsigned_chars, split_char, split_chars, string_of, is_digit, all_digits,
};

verus! {

/// Length in bytes of a stored password hash (the output length of SHA-512).
pub const CREDENTIAL_LEN: usize = 64;

/// PBKDF2 iteration count used for new password hashes.
pub const PBKDF2_ITERATIONS: u32 = 100000;

/// Standard base64 (RFC 4648 alphabet, with padding) decoding of `text`, `None` when it is not
/// canonical standard base64.
pub uninterp spec fn base64_decode(text: Seq<char>) -> Option<Seq<u8>>;

/// Standard base64 (RFC 4648 alphabet, with padding) encoding of `bytes`.
pub uninterp spec fn base64_encode(bytes: Seq<u8>) -> Seq<char>;

/// PBKDF2 with HMAC-SHA512: the first `len` bytes derived from `secret` and `salt` in
/// `iterations` rounds.
pub uninterp spec fn pbkdf2_hmac_sha512(iterations: u32, salt: Seq<u8>, secret: Seq<u8>, len: nat) -> Seq<u8>;

/// A character of the standard base64 alphabet, or the padding `=`.
pub open spec fn is_base64_char(c: char) -> bool {
    ('A' <= c && c <= 'Z') || ('a' <= c && c <= 'z') || ('0' <= c && c <= '9') || c == '+' || c == '/'
        || c == '='
}

/// `base64::engine::general_purpose::STANDARD.decode`.
/// Claims that the result is the named standard base64 decoding of the text.
#[verifier::external_body]
fn decode_base64(text: &str) -> (res: Option<Vec<u8>>)
    ensures
        match res {
            Some(v) => base64_decode(text@) == Some(v@),
            None => base64_decode(text@) is None,
        },
{
    base64::engine::general_purpose::STANDARD.decode(text).ok()
}

/// `base64::engine::general_purpose::STANDARD.encode`.
/// Claims that the result is the named encoding, that it is written in the standard alphabet with
/// padding, and that decoding it gives the bytes back.
#[verifier::external_body]
fn encode_base64(bytes: &[u8]) -> (res: String)
    ensures
        res@ == base64_encode(bytes@),
        base64_decode(res@) == Some(bytes@),
        forall|i: int| 0 <= i < res@.len() ==> is_base64_char(#[trigger] res@[i]),
{
    base64::engine::general_purpose::STANDARD.encode(bytes)
}

/// `ring::pbkdf2::derive` with `PBKDF2_HMAC_SHA512` into a buffer of `len` bytes.
/// Claims that the result is the named derivation; `derive` panics on a zero iteration count
/// (not a `NonZeroU32`) and when more than `u32::MAX` blocks of 64 bytes are asked for, which
/// `requires` rules out.
#[verifier::external_body]
fn pbkdf2_derive(iterations: u32, salt: &[u8], secret: &[u8], len: usize) -> (res: Vec<u8>)
    requires
        iterations > 0,
        len <= 0xffff_ffff * 64,
    ensures
        res@ == pbkdf2_hmac_sha512(iterations, salt@, secret@, len as nat),
        res@.len() == len,
{
    let mut out = vec![0u8; len];
    ring::pbkdf2::derive(
        ring::pbkdf2::PBKDF2_HMAC_SHA512,
        std::num::NonZeroU32::new(iterations).unwrap(),
        salt,
        secret,
        &mut out,
    );
    out
}

/// A previously derived key matches: it is not empty, it is short enough to have been derived
/// (at most `u32::MAX` blocks of 64 bytes), and it equals the derivation of its own length.
pub open spec fn pbkdf2_matches(iterations: u32, salt: Seq<u8>, secret: Seq<u8>, derived: Seq<u8>) -> bool {
    &&& 0 < derived.len() <= 0xffff_ffff * 64
    &&& derived == pbkdf2_hmac_sha512(iterations, salt, secret, derived.len())
}

/// `ring::pbkdf2::verify` with `PBKDF2_HMAC_SHA512`.
/// Claims that it succeeds exactly when `pbkdf2_matches` holds (an empty or oversized derived key
/// never matches); it panics on a zero iteration count, which `requires` rules out.
#[verifier::external_body]
fn pbkdf2_verify(iterations: u32, salt: &[u8], secret: &[u8], derived: &[u8]) -> (res: bool)
    requires
        iterations > 0,
    ensures
        res == pbkdf2_matches(iterations, salt@, secret@, derived@),
{
    ring::pbkdf2::verify(
        ring::pbkdf2::PBKDF2_HMAC_SHA512,
        std::num::NonZeroU32::new(iterations).unwrap(),
        salt,
        secret,
        derived,
    ).is_ok()
}

/// `String::from_utf8`: claims that it succeeds exactly on valid UTF-8, with the decoded text.
#[verifier::external_body]
pub(crate) fn utf8_string(bytes: Vec<u8>) -> (res: Option<String>)
    ensures
        match res {
            Some(s) => valid_utf8(bytes@) && s@ == decode_utf8(bytes@),
            None => !valid_utf8(bytes@),
        },
{
    String::from_utf8(bytes).ok()
}

/// The scheme name `pbkdf2-sha512`.
pub open spec fn scheme_name() -> Seq<char> {
    seq!['p', 'b', 'k', 'd', 'f', '2', '-', 's', 'h', 'a', '5', '1', '2']
}

/// The text of a stored hash: `$pbkdf2-sha512$<iterations>$<salt>$<hash>`.
pub open spec fn stored_hash_text(iterations: Seq<char>, salt: Seq<char>, hash: Seq<char>) -> Seq<char> {
    Seq::<char>::empty() + seq!['$'] + scheme_name() + seq!['$'] + iterations + seq!['$'] + salt + seq!['$']
        + hash
}

/// Whether `password` verifies against the stored hash: the hash has five `$`-separated fields,
/// the second is `pbkdf2-sha512`, the third a nonzero `u32` iteration count, the last two standard
/// base64 salt and derived key, and PBKDF2-HMAC-SHA512 of the password's UTF-8 bytes matches the
/// key.
pub open spec fn spec_verify_password(password: Seq<char>, stored: Seq<char>) -> bool {
    let parts = split_char(stored, '$');
    &&& parts.len() == 5
    &&& parts[1] == scheme_name()
    &&& match (parse_unsigned(parts[2], 0xffff_ffff), base64_decode(parts[3]), base64_decode(parts[4])) {
        (Some(it), Some(salt), Some(hash)) => it > 0 && pbkdf2_matches(it as u32, salt, encode_utf8(password), hash),
        _ => false,
    }
}

/// Verifies a password against a stored hash; a hash that is malformed, or whose iteration count
/// is zero, verifies nothing.
pub fn verify_password(password: &str, stored_hash: &str) -> (res: bool)
    ensures
        res == spec_verify_password(password@, stored_hash@),
{
    let s = chars_of(stored_hash);
    let parts = split_chars(&s, '$');
    if parts.len() != 5 {
        return false;
    }
    let scheme = vec!['p', 'b', 'k', 'd', 'f', '2', '-', 's', 'h', 'a', '5', '1', '2'];
    assert(scheme@ == scheme_name());
    if !chars_eq(&parts[1], &scheme) {
        return false;
    }
    let iterations = match parse_unsigned_chars(&parts[2], 0xffff_ffff) {
        Some(i) => i as u32,
        None => return false,
    };
    let salt_text = string_of(&parts[3]);
    let salt = match decode_base64(salt_text.as_str()) {
        Some(v) => v,
        None => return false,
    };
    let hash_text = string_of(&parts[4]);
    let hash = match decode_base64(hash_text.as_str()) {
        Some(v) => v,
        None => return false,
    };
    if iterations == 0 {
        return false;
    }
    pbkdf2_verify(iterations, salt.as_slice(), password.as_bytes(), hash.as_slice())
}

proof fn lemma_no_dollar(s: Seq<char>)
    requires
        forall|i: int| 0 <= i < s.len() ==> s[i] != '$',
    ensures
        !s.contains('$'),
{
}

/// Splitting a stored hash text on `$` gives back its fields.
proof fn lemma_split_stored_hash(iterations: Seq<char>, salt: Seq<char>, hash: Seq<char>)
    requires
        !iterations.contains('$'),
        !salt.contains('$'),
        !hash.contains('$'),
    ensures
        split_char(stored_hash_text(iterations, salt, hash), '$')
            == seq![Seq::<char>::empty(), scheme_name(), iterations, salt, hash],
{
    let e = Seq::<char>::empty();
    let c = seq!['$'];
    assert(!scheme_name().contains('$')) by {
        assert forall|i: int| 0 <= i < scheme_name().len() implies scheme_name()[i] != '$' by {}
    }
    lemma_split_without_separator(e, '$');
    lemma_split_without_separator(scheme_name(), '$');
    lemma_split_without_separator(iterations, '$');
    lemma_split_without_separator(salt, '$');
    lemma_split_without_separator(hash, '$');
    let a1 = e + c + scheme_name();
    lemma_split_concat(e, '$', scheme_name());
    let a2 = a1 + c + iterations;
    lemma_split_concat(a1, '$', iterations);
    let a3 = a2 + c + salt;
    lemma_split_concat(a2, '$', salt);
    lemma_split_concat(a3, '$', hash);
    assert(stored_hash_text(iterations, salt, hash) == a3 + c + hash);
    assert(seq![e] + seq![scheme_name()] + seq![iterations] + seq![salt] + seq![hash]
        =~= seq![e, scheme_name(), iterations, salt, hash]);
}

/// Hashes a password with PBKDF2-HMAC-SHA512, a fresh random 16-byte salt and 100000 iterations,
/// as `$pbkdf2-sha512$100000$<salt>$<hash>` in standard base64. The password verifies against the
/// result.
pub fn hash_password(password: &str) -> (res: String)
    ensures
        exists|salt: Seq<u8>| #![trigger base64_encode(salt)]
            salt.len() == 16 && res@ == stored_hash_text(
                decimal(PBKDF2_ITERATIONS as nat),
                base64_encode(salt),
                base64_encode(pbkdf2_hmac_sha512(PBKDF2_ITERATIONS, salt, encode_utf8(password@), CREDENTIAL_LEN as nat)),
            ),
        spec_verify_password(password@, res@),
{
    let mut rng = thread_rng();
    let mut salt: Vec<u8> = vec![0u8; 16];
    fill_random(&mut rng, &mut salt);
    let secret = password.as_bytes();
    assert(secret@ == encode_utf8(password@));
    let hash = pbkdf2_derive(PBKDF2_ITERATIONS, salt.as_slice(), secret, CREDENTIAL_LEN);
    let salt_b64 = encode_base64(salt.as_slice());
    let hash_b64 = encode_base64(hash.as_slice());
    let iter_text = decimal_chars(PBKDF2_ITERATIONS as u64);
    let salt_chars = chars_of(salt_b64.as_str());
    let hash_chars = chars_of(hash_b64.as_str());
    let scheme = vec!['p', 'b', 'k', 'd', 'f', '2', '-', 's', 'h', 'a', '5', '1', '2'];
    let mut out: Vec<char> = vec!['$'];
    extend_chars(&mut out, &scheme);
    out.push('$');
    extend_chars(&mut out, &iter_text);
    out.push('$');
    extend_chars(&mut out, &salt_chars);
    out.push('$');
    extend_chars(&mut out, &hash_chars);
    let ghost it = decimal(PBKDF2_ITERATIONS as nat);
    assert(out@ =~= stored_hash_text(it, salt_b64@, hash_b64@));
    proof {
        assert forall|i: int| 0 <= i < salt_b64@.len() implies salt_b64@[i] != '$' by {
            assert(is_base64_char(salt_b64@[i]));
        }
        assert forall|i: int| 0 <= i < hash_b64@.len() implies hash_b64@[i] != '$' by {
            assert(is_base64_char(hash_b64@[i]));
        }
        crate::text::lemma_decimal_all_digits(PBKDF2_ITERATIONS as nat);
        assert forall|i: int| 0 <= i < it.len() implies it[i] != '$' by {
            assert(is_digit(it[i]));
        }
        lemma_no_dollar(salt_b64@);
        lemma_no_dollar(hash_b64@);
        lemma_no_dollar(it);
        lemma_split_stored_hash(it, salt_b64@, hash_b64@);
        lemma_parse_decimal(PBKDF2_ITERATIONS as nat, 0xffff_ffff);
        assert(base64_encode(salt@) == salt_b64@);
        let parts = split_char(out@, '$');
        assert(parts[2] == it);
        assert(parse_unsigned(parts[2], 0xffff_ffff) == Some(PBKDF2_ITERATIONS as nat));
        assert(base64_decode(parts[3]) == Some(salt@));
        assert(base64_decode(parts[4]) == Some(hash@));
        assert(pbkdf2_matches(PBKDF2_ITERATIONS, salt@, encode_utf8(password@), hash@));
    }
    string_of(&out)
}

/// The stored hash of the first entry of `users` whose user name is `name`.
pub open spec fn user_hash(users: Seq<(String, String)>, name: Seq<char>) -> Option<Seq<char>>
    decreases users.len(),
{
    if users.len() == 0 {
        None
    } else if users[0].0@ == name {
        Some(users[0].1@)
    } else {
        user_hash(users.drop_first(), name)
    }
}

/// The stored hash of a user, if the user is configured.
pub fn find_user_hash(users: &Vec<(String, String)>, name: &String) -> (res: Option<String>)
    ensures
        match res {
            Some(h) => user_hash(users@, name@) == Some(h@),
            None => user_hash(users@, name@) is None,
        },
{
    assert(users@.skip(0) == users@);
    for i in 0..users.len()
        invariant
            user_hash(users@, name@) == user_hash(users@.skip(i as int), name@),
    {
        assert(users@.skip(i as int).drop_first() == users@.skip(i + 1));
        assert(users@.skip(i as int)[0] == users@[i as int]);
        if users[i].0 == *name {
            return Some(users[i].1.clone());
        }
    }
    None
}

/// The characters `Basic ` that begin a Basic authorization header.
pub open spec fn basic_prefix() -> Seq<char> {
    seq!['B', 'a', 's', 'i', 'c', ' ']
}

/// The user name and password carried by the text of a Basic `Authorization` header: the text
/// starts with `Basic `, the rest is standard base64 of UTF-8 text, which splits at its first `:`.
pub open spec fn spec_basic_credentials(text: Seq<char>) -> Option<(Seq<char>, Seq<char>)> {
    if !is_prefix(basic_prefix(), text) {
        None
    } else {
        match base64_decode(text.skip(6)) {
            None => None,
            Some(decoded) => if !valid_utf8(decoded) {
                None
            } else {
                match first_index_of(decode_utf8(decoded), ':') {
                    None => None,
                    Some(k) => Some((decode_utf8(decoded).take(k), decode_utf8(decoded).skip(k + 1))),
                }
            },
        }
    }
}

/// Whether an `Authorization` header value (its raw bytes, if the header is present) carries
/// Basic credentials of a configured user whose password verifies against the first stored hash
/// of that user.
pub open spec fn spec_verify_basic_auth(authorization: Option<Seq<u8>>, users: Seq<(String, String)>) -> bool {
    match authorization {
        None => false,
        Some(bytes) => match spec_header_text(bytes) {
            None => false,
            Some(text) => match spec_basic_credentials(text) {
                None => false,
                Some((name, password)) => match user_hash(users, name) {
                    None => false,
                    Some(h) => spec_verify_password(password, h),
                },
            },
        },
    }
}

/// The characters of `v` from index `from` on.
fn chars_from(v: &Vec<char>, from: usize) -> (res: Vec<char>)
    requires
        from <= v@.len(),
    ensures
        res@ == v@.skip(from as int),
{
    let mut out: Vec<char> = Vec::new();
    for i in from..v.len()
        invariant
            from <= v@.len(),
            out@ == v@.subrange(from as int, i as int),
    {
        out.push(v[i]);
        assert(v@.subrange(from as int, i + 1) == v@.subrange(from as int, i as int).push(v@[i as int]));
    }
    out
}

/// The first `n` characters of `v`.
fn chars_upto(v: &Vec<char>, n: usize) -> (res: Vec<char>)
    requires
        n <= v@.len(),
    ensures
        res@ == v@.take(n as int),
{
    let mut out: Vec<char> = Vec::new();
    for i in 0..n
        invariant
            n <= v@.len(),
            out@ == v@.take(i as int),
    {
        out.push(v[i]);
        assert(v@.take(i + 1) == v@.take(i as int).push(v@[i as int]));
    }
    out
}

/// The user name and password of a Basic `Authorization` header text.
fn basic_credentials(text: &String) -> (res: Option<(String, String)>)
    ensures
        match res {
            Some((n, p)) => spec_basic_credentials(text@) == Some((n@, p@)),
            None => spec_basic_credentials(text@) is None,
        },
{
    let chars = chars_of(text.as_str());
    let prefix = vec!['B', 'a', 's', 'i', 'c', ' '];
    assert(prefix@ == basic_prefix());
    if !has_prefix(&chars, &prefix) {
        return None;
    }
    let cred = chars_from(&chars, 6);
    let cred_text = string_of(&cred);
    let decoded = match decode_base64(cred_text.as_str()) {
        Some(d) => d,
        None => return None,
    };
    let auth_string = match utf8_string(decoded) {
        Some(s) => s,
        None => return None,
    };
    let a = chars_of(auth_string.as_str());
    let sep = match find_char(&a, ':') {
        Some(k) => k,
        None => return None,
    };
    let name = string_of(&chars_upto(&a, sep));
    let password = string_of(&chars_from(&a, sep + 1));
    Some((name, password))
}

/// Basic credentials of a configured user are accepted with the right password: an
/// `Authorization` header whose text is `Basic ` and then base64 of `name:password` (for a name
/// without `:`) passes when the first stored hash of `name` verifies `password`, as the hash
/// `hash_password` made from it does.
pub proof fn known_user_credentials_are_accepted(header: Seq<u8>, token: Seq<char>, users: Seq<(String, String)>,
    name: Seq<char>, password: Seq<char>)
    requires
        spec_header_text(header) == Some(basic_prefix() + token),
        base64_decode(token) == Some(encode_utf8(name + seq![':'] + password)),
        !name.contains(':'),
        user_hash(users, name) matches Some(h) && spec_verify_password(password, h),
    ensures
        spec_verify_basic_auth(Some(header), users),
{
    let text = basic_prefix() + token;
    let plain = name + seq![':'] + password;
    assert(text.subrange(0, 6) =~= basic_prefix());
    assert(text.skip(6) =~= token);
    vstd::utf8::encode_utf8_valid_utf8(plain);
    vstd::utf8::encode_utf8_decode_utf8(plain);
    assert(plain[name.len() as int] == ':');
    assert(plain.contains(':'));
    let k = choose|i: int| 0 <= i < plain.len() && plain[i] == ':' && forall|j: int| 0 <= j < i ==> plain[j] != ':';
    if k < name.len() {
        assert(plain[k] == name[k]);
    }
    assert(k == name.len());
    assert(plain.take(k) =~= name);
    assert(plain.skip(k + 1) =~= password);
}

/// Verifies HTTP Basic credentials, given the raw bytes of the `Authorization` header if present.
pub fn verify_basic_auth(authorization: Option<&[u8]>, auth_config: &BasicAuthConfig) -> (res: bool)
    ensures
        res == spec_verify_basic_auth(
            match authorization { Some(b) => Some(b@), None => None },
            auth_config.users@,
        ),
{
    let bytes = match authorization {
        Some(b) => b,
        None => return false,
    };
    let text = match header_text(bytes) {
        Some(t) => t,
        None => return false,
    };
    let (name, password) = match basic_credentials(&text) {
        Some(c) => c,
        None => return false,
    };
    match find_user_hash(&auth_config.users, &name) {
        Some(h) => verify_password(password.as_str(), h.as_str()),
        None => false,
    }
}

/// The `WWW-Authenticate` value `Basic realm="<realm>"`, or `Basic realm="restricted"` when that is
/// not a valid header value.
pub open spec fn spec_basic_auth_challenge(realm: Seq<char>) -> Seq<char> {
    let v = seq!['B', 'a', 's', 'i', 'c', ' ', 'r', 'e', 'a', 'l', 'm', '=', '"'] + realm + seq!['"'];
    if valid_header_value(v) {
        v
    } else {
        seq!['B', 'a', 's', 'i', 'c', ' ', 'r', 'e', 'a', 'l', 'm', '=', '"', 'r', 'e', 's', 't', 'r', 'i', 'c', 't', 'e', 'd', '"']
    }
}

/// A 401 response asking the client for Basic authentication in `realm`.
pub fn request_basic_auth(realm: &str) -> (res: HttpResponse)
    ensures
        res.status == 401,
        res.body@ == encode_utf8(seq!['A', 'u', 't', 'h', 'e', 'n', 't', 'i', 'c', 'a', 't', 'i', 'o', 'n', ' ', 'r', 'e', 'q', 'u', 'i', 'r', 'e', 'd']),
        res.headers@.len() == 1,
        res.headers@[0].0@ == seq!['w', 'w', 'w', '-', 'a', 'u', 't', 'h', 'e', 'n', 't', 'i', 'c', 'a', 't', 'e'],
        res.headers@[0].1@ == spec_basic_auth_challenge(realm@),
{
    let mut v = vec!['B', 'a', 's', 'i', 'c', ' ', 'r', 'e', 'a', 'l', 'm', '=', '"'];
    extend_chars(&mut v, &chars_of(realm));
    v.push('"');
    let candidate = string_of(&v);
    assert(candidate@ == seq!['B', 'a', 's', 'i', 'c', ' ', 'r', 'e', 'a', 'l', 'm', '=', '"'] + realm@ + seq!['"']);
    let fallback = vec!['B', 'a', 's', 'i', 'c', ' ', 'r', 'e', 'a', 'l', 'm', '=', '"', 'r', 'e', 's', 't', 'r', 'i', 'c', 't', 'e', 'd', '"'];
    assert(fallback@ == seq!['B', 'a', 's', 'i', 'c', ' ', 'r', 'e', 'a', 'l', 'm', '=', '"', 'r', 'e', 's', 't', 'r', 'i', 'c', 't', 'e', 'd', '"']);
    let value = if header_value_is_valid(candidate.as_str()) {
        candidate
    } else {
        string_of(&fallback)
    };
    let name = string_of(&vec!['w', 'w', 'w', '-', 'a', 'u', 't', 'h', 'e', 'n', 't', 'i', 'c', 'a', 't', 'e']);
    let text = string_of(&vec!['A', 'u', 't', 'h', 'e', 'n', 't', 'i', 'c', 'a', 't', 'i', 'o', 'n', ' ', 'r', 'e', 'q', 'u', 'i', 'r', 'e', 'd']);
    let body = text_body(text.as_str());
    let mut headers: Vec<(String, String)> = Vec::new();
    headers.push((name, value));
    HttpResponse { status: 401, headers, raw_headers: Vec::new(), body }
}

/// The lines of a text as `str::lines` gives them: split at `\n`, without a final empty piece,
/// each without a trailing `\r`.
pub open spec fn text_lines(s: Seq<char>) -> Seq<Seq<char>> {
    let pieces = split_char(s, '\n');
    let kept = if pieces.len() > 0 && pieces.last().len() == 0 { pieces.drop_last() } else { pieces };
    kept.map_values(|l: Seq<char>| strip_cr(l))
}

/// A line without its trailing `\r`.
pub open spec fn strip_cr(l: Seq<char>) -> Seq<char> {
    if l.len() > 0 && l.last() == '\r' { l.drop_last() } else { l }
}

/// The users a list of lines gives: each line that is neither blank nor a `#` comment and holds
/// a `:` gives the user before the first `:` and the hash after it; a later line for the same
/// user replaces an earlier one.
pub open spec fn users_from_lines(lines: Seq<Seq<char>>) -> Map<Seq<char>, Seq<char>>
    decreases lines.len(),
{
    if lines.len() == 0 {
        Map::empty()
    } else {
        let m = users_from_lines(lines.drop_last());
        match user_of_line(lines.last()) {
            Some((name, hash)) => m.insert(name, hash),
            None => m,
        }
    }
}

/// The user and hash a line gives: none for a blank line, a `#` comment, or a line without `:`;
/// else the text before the first `:` and the text after it.
pub open spec fn user_of_line(l: Seq<char>) -> Option<(Seq<char>, Seq<char>)> {
    if trim(l).len() == 0 || (l.len() > 0 && l[0] == '#') {
        None
    } else {
        match first_index_of(l, ':') {
            Some(i) => Some((l.take(i), l.skip(i + 1))),
            None => None,
        }
    }
}

fn parse_user_line(line: &Vec<char>) -> (res: Option<(String, String)>)
    ensures
        match res {
            Some((n, h)) => user_of_line(line@) == Some((n@, h@)),
            None => user_of_line(line@) is None,
        },
{
    let blank = trim_chars(line).len() == 0;
    let comment = line.len() > 0 && line[0] == '#';
    if blank || comment {
        return None;
    }
    let k = match find_char(line, ':') {
        Some(k) => k,
        None => return None,
    };
    let mut name: Vec<char> = Vec::new();
    for j in 0..k
        invariant
            k < line@.len(),
            name@ == line@.take(j as int),
    {
        name.push(line[j]);
        assert(name@ == line@.take(j + 1));
    }
    let mut hash: Vec<char> = Vec::new();
    for j in k + 1..line.len()
        invariant
            k < line@.len(),
            hash@ == line@.subrange(k + 1, j as int),
    {
        hash.push(line[j]);
        assert(hash@ == line@.subrange(k + 1, j + 1));
    }
    assert(hash@ == line@.skip(k + 1));
    Some((string_of(&name), string_of(&hash)))
}

fn strip_cr_chars(piece: &Vec<char>) -> (res: Vec<char>)
    ensures
        res@ == strip_cr(piece@),
{
    let mut line: Vec<char> = piece.clone();
    assert(line@ == piece@);
    if line.len() > 0 && line[line.len() - 1] == '\r' {
        line.pop();
        assert(line@ == piece@.drop_last());
    }
    line
}

/// The users of a password file's text.
pub open spec fn spec_parse_users(content: Seq<char>) -> Map<Seq<char>, Seq<char>> {
    users_from_lines(text_lines(content))
}

/// The users of a password file's text, one entry per user (see `users_from_lines`).
pub fn parse_users(content: &str) -> (res: Vec<(String, String)>)
    ensures
        distinct_keys(res@),
        entries_map(res@) == spec_parse_users(content@),
{
    let chars = chars_of(content);
    let pieces = split_chars(&chars, '\n');
    proof { lemma_split_char_nonempty(chars@, '\n'); }
    let ghost ps = split_char(chars@, '\n');
    let n: usize = if pieces[pieces.len() - 1].len() == 0 { pieces.len() - 1 } else { pieces.len() };
    let ghost kept = if ps.len() > 0 && ps.last().len() == 0 { ps.drop_last() } else { ps };
    assert(kept.len() == n);
    let mut users: Vec<(String, String)> = Vec::new();
    assert(entries_map(users@) =~= Map::<Seq<char>, Seq<char>>::empty());
    for i in 0..n
        invariant
            n == kept.len(),
            n <= pieces@.len(),
            pieces@.len() == ps.len(),
            forall|j: int| 0 <= j < pieces@.len() ==> (#[trigger] pieces@[j])@ == ps[j],
            forall|j: int| 0 <= j < kept.len() ==> #[trigger] kept[j] == ps[j],
            kept.map_values(|l: Seq<char>| strip_cr(l)) == text_lines(content@),
            distinct_keys(users@),
            entries_map(users@) == users_from_lines(text_lines(content@).take(i as int)),
    {
        let ghost lines = text_lines(content@);
        assert(lines.take(i + 1).drop_last() == lines.take(i as int));
        assert(lines.take(i + 1).last() == lines[i as int]);
        let line = strip_cr_chars(&pieces[i]);
        assert(line@ == lines[i as int]) by {
            assert(pieces@[i as int]@ == ps[i as int]);
            assert(lines[i as int] == strip_cr(kept[i as int]));
        }
        if let Some((name, hash)) = parse_user_line(&line) {
            insert_entry(&mut users, name, hash);
        }
    }
    assert(text_lines(content@).take(n as int) == text_lines(content@));
    users
}

/// One line of a password file: the user, `:`, the hash, a newline.
pub open spec fn user_line(name: Seq<char>, hash: Seq<char>) -> Seq<char> {
    name + seq![':'] + hash + seq!['\n']
}

/// The text of a password file for the given users, one line each, in order.
pub open spec fn users_text(users: Seq<(String, String)>) -> Seq<char>
    decreases users.len(),
{
    if users.len() == 0 {
        Seq::empty()
    } else {
        users_text(users.drop_last()) + user_line(users.last().0@, users.last().1@)
    }
}

/// The text of a password file for the given users.
pub fn format_users(users: &Vec<(String, String)>) -> (res: String)
    ensures
        res@ == users_text(users@),
{
    let mut out: Vec<char> = Vec::new();
    for i in 0..users.len()
        invariant
            out@ == users_text(users@.take(i as int)),
    {
        assert(users@.take(i + 1).drop_last() == users@.take(i as int));
        extend_chars(&mut out, &chars_of(users[i].0.as_str()));
        out.push(':');
        extend_chars(&mut out, &chars_of(users[i].1.as_str()));
        out.push('\n');
        assert(out@ =~= users_text(users@.take(i + 1)));
    }
    assert(users@.take(users@.len() as int) == users@);
    string_of(&out)
}

/// A user name that a password file can hold: no `:`, no newline, not starting with `#`.
pub open spec fn storable_name(n: Seq<char>) -> bool {
    !n.contains(':') && !n.contains('\n') && !(n.len() > 0 && n[0] == '#')
}

/// A hash that a password file can hold: no newline, not ending with `\r`.
pub open spec fn storable_hash(h: Seq<char>) -> bool {
    !h.contains('\n') && !(h.len() > 0 && h.last() == '\r')
}

/// The lines of the users' entries, in order.
pub open spec fn entry_lines(users: Seq<(String, String)>) -> Seq<Seq<char>> {
    Seq::new(users.len(), |i: int| users[i].0@ + seq![':'] + users[i].1@)
}

proof fn lemma_split_users_text(users: Seq<(String, String)>)
    requires
        forall|i: int| 0 <= i < users.len() ==> storable_name(#[trigger] users[i].0@) && storable_hash(users[i].1@),
    ensures
        split_char(users_text(users), '\n') == entry_lines(users).push(Seq::empty()),
    decreases users.len(),
{
    if users.len() == 0 {
        assert(users_text(users) == Seq::<char>::empty());
        assert(entry_lines(users).push(Seq::empty()) =~= seq![Seq::<char>::empty()]);
    } else {
        let u = users.drop_last();
        let x = users.last();
        assert forall|i: int| 0 <= i < u.len() implies storable_name(#[trigger] u[i].0@) && storable_hash(u[i].1@) by {
            assert(u[i] == users[i]);
        }
        lemma_split_users_text(u);
        let t = users_text(u);
        let line = x.0@ + seq![':'] + x.1@;
        assert(storable_name(x.0@) && storable_hash(x.1@)) by {
            assert(users[users.len() - 1] == x);
        }
        assert(!line.contains('\n')) by {
            if line.contains('\n') {
                let j = choose|j: int| 0 <= j < line.len() && line[j] == '\n';
                if j < x.0@.len() {
                    assert(x.0@[j] == '\n');
                } else if j > x.0@.len() {
                    assert(x.1@[j - x.0@.len() - 1] == '\n');
                }
            }
        }
        assert(users_text(users) =~= (t + line) + seq!['\n'] + Seq::<char>::empty());
        crate::text::lemma_split_concat(t + line, '\n', Seq::<char>::empty());
        assert(split_char(Seq::<char>::empty(), '\n') == seq![Seq::<char>::empty()]);
        crate::text::lemma_split_append(t, '\n', line);
        let lu = entry_lines(u).push(Seq::<char>::empty());
        assert(lu.update(lu.len() - 1, lu.last() + line) =~= entry_lines(u).push(line));
        assert(entry_lines(u).push(line) =~= entry_lines(users));
        assert(entry_lines(users) + seq![Seq::<char>::empty()] =~= entry_lines(users).push(Seq::empty()));
    }
}

proof fn lemma_users_from_entry_lines(users: Seq<(String, String)>)
    requires
        distinct_keys(users),
        forall|i: int| 0 <= i < users.len() ==> storable_name(#[trigger] users[i].0@) && storable_hash(users[i].1@),
    ensures
        users_from_lines(entry_lines(users)) == entries_map(users),
    decreases users.len(),
{
    if users.len() == 0 {
        assert(entries_map(users) =~= Map::<Seq<char>, Seq<char>>::empty());
    } else {
        let u = users.drop_last();
        let x = users.last();
        assert(distinct_keys(u)) by {
            assert forall|i: int, j: int| 0 <= i < u.len() && 0 <= j < u.len() && i != j implies u[i].0@ != u[j].0@ by {
                assert(u[i] == users[i] && u[j] == users[j]);
            }
        }
        assert forall|i: int| 0 <= i < u.len() implies storable_name(#[trigger] u[i].0@) && storable_hash(u[i].1@) by {
            assert(u[i] == users[i]);
        }
        lemma_users_from_entry_lines(u);
        assert(entry_lines(users).drop_last() =~= entry_lines(u));
        let name = x.0@;
        let line = name + seq![':'] + x.1@;
        assert(entry_lines(users).last() == line);
        assert(storable_name(name) && storable_hash(x.1@)) by {
            assert(users[users.len() - 1] == x);
        }
        // the line is not blank, not a comment, and its first ':' ends the name
        assert(line[name.len() as int] == ':');
        crate::text::lemma_trim_not_blank(line, name.len() as int);
        assert(!(line.len() > 0 && line[0] == '#')) by {
            if name.len() > 0 {
                assert(line[0] == name[0]);
            }
        }
        assert(line.contains(':'));
        let k = choose|i: int| 0 <= i < line.len() && line[i] == ':' && forall|j: int| 0 <= j < i ==> line[j] != ':';
        assert(k == name.len()) by {
            if k < name.len() {
                assert(name[k] == ':');
            }
            if k > name.len() {
                assert(line[name.len() as int] == ':');
            }
        }
        assert(line.take(k) =~= name);
        assert(line.skip(k + 1) =~= x.1@);
        assert(user_of_line(line) == Some((name, x.1@)));
        // the map of the entries gains the last one
        let m = entries_map(users);
        let mu = entries_map(u).insert(name, x.1@);
        assert forall|key: Seq<char>| m.contains_key(key) <==> mu.contains_key(key) by {
            if m.contains_key(key) && key != name {
                let j = choose|j: int| 0 <= j < users.len() && users[j].0@ == key;
                assert(j != users.len() - 1);
                assert(u[j] == users[j]);
            }
            if entries_map(u).contains_key(key) {
                let j = choose|j: int| 0 <= j < u.len() && u[j].0@ == key;
                assert(users[j] == u[j]);
            }
            if key == name {
                assert(users[users.len() - 1].0@ == key);
            }
        }
        assert forall|key: Seq<char>| m.contains_key(key) implies m[key] == mu[key] by {
            let j = choose|j: int| 0 <= j < users.len() && users[j].0@ == key;
            lemma_entries_map_index(users, j);
            if key != name {
                assert(j != users.len() - 1);
                assert(u[j] == users[j]);
                lemma_entries_map_index(u, j);
            } else {
                lemma_entries_map_index(users, users.len() - 1);
            }
        }
        assert(m =~= mu);
    }
}

/// What is saved loads back: writing users to a password file and reading it gives the same
/// users, when every name is storable (no `:`, no newline, no leading `#`) and every hash is
/// (no newline, no trailing `\r`).
pub proof fn saved_users_load_back(users: Seq<(String, String)>)
    requires
        distinct_keys(users),
        forall|i: int| 0 <= i < users.len() ==> storable_name(#[trigger] users[i].0@) && storable_hash(users[i].1@),
    ensures
        spec_parse_users(users_text(users)) == entries_map(users),
{
    lemma_split_users_text(users);
    let pieces = split_char(users_text(users), '\n');
    assert(pieces.last().len() == 0);
    assert(pieces.drop_last() =~= entry_lines(users));
    assert forall|i: int| 0 <= i < entry_lines(users).len() implies strip_cr(#[trigger] entry_lines(users)[i]) == entry_lines(users)[i] by {
        let line = entry_lines(users)[i];
        assert(storable_name(users[i].0@) && storable_hash(users[i].1@));
        if users[i].1@.len() > 0 {
            assert(line.last() == users[i].1@.last());
        } else {
            assert(line.last() == ':');
        }
    }
    assert(text_lines(users_text(users)) =~= entry_lines(users));
    lemma_users_from_entry_lines(users);
}

} // verus!
