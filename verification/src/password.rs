//! Password rules and salted password hashes.
//!
//! A stored hash has the form `BLAKE3$<salt>$<digest>`: the salt and the
//! BLAKE3 digest of salt and password, each in standard base64.

use crate::text::{
    char_is_ascii_digit, char_is_lowercase, char_is_uppercase, chars_of, free_of, is_ascii_digit,
    is_lowercase, is_uppercase, lemma_split_cons, lemma_split_one, lemma_three_fields, split,
    split_spec, str_eq,
};
use vstd::prelude::*;
use vstd::utf8::encode_utf8;

verus! {

/// The number of random bytes in a salt.
pub const SALT_LEN: usize = 16;

/// The number of bytes in a digest.
pub const OUTPUT_LEN: usize = 32;

/// The least number of bytes in an acceptable password.
pub const MIN_PASSWORD_LEN: usize = 8;

/// What a password that is too short is answered with.
pub const MSG_TOO_SHORT: &'static str = "Password must be at least 8 characters long.";

/// What a password without an uppercase letter is answered with.
pub const MSG_NO_UPPERCASE: &'static str = "Password must contain at least one uppercase letter.";

/// What a password without a lowercase letter is answered with.
pub const MSG_NO_LOWERCASE: &'static str = "Password must contain at least one lowercase letter.";

/// What a password without a digit is answered with.
pub const MSG_NO_DIGIT: &'static str = "Password must contain at least one digit.";

/// The BLAKE3 digest of `input`, as `blake3::hash` computes it.
pub uninterp spec fn blake3_digest(input: Seq<u8>) -> Seq<u8>;

/// The bytes that a hasher has taken in so far, in order.
pub uninterp spec fn hasher_input(h: blake3::Hasher) -> Seq<u8>;

/// The input offset that a hasher works at; zero unless it hashes a subtree.
pub uninterp spec fn hasher_offset(h: blake3::Hasher) -> nat;

/// The standard base64 text of `data`, with padding, as the `STANDARD`
/// engine encodes it.
pub uninterp spec fn base64_encode(data: Seq<u8>) -> Seq<char>;

/// The bytes that standard base64 text stands for, if the `STANDARD` engine
/// accepts it.
pub uninterp spec fn base64_decode(text: Seq<char>) -> Option<Seq<u8>>;

/// The number of characters of the padded base64 text of `n` bytes: four
/// for every three bytes or part of three.
pub open spec fn base64_len(n: nat) -> nat {
    4 * ((n + 2) / 3)
}

/// A letter, digit, `+` or `/` of the standard base64 alphabet, or the
/// padding sign `=`.
pub open spec fn is_base64_char(c: char) -> bool {
    ('A' <= c && c <= 'Z') || ('a' <= c && c <= 'z') || ('0' <= c && c <= '9') || c == '+' || c
        == '/' || c == '='
}

/// Declares blake3's `Hasher`, an incremental hash state. Nothing inside it
/// is visible here; `hasher_input` and `hasher_offset` name what the
/// contracts say of it.
#[verifier::external_type_specification]
#[verifier::external_body]
pub struct ExHasher(blake3::Hasher);

/// Declares base64's `DecodeError`, the reason why a text is no base64.
/// Nothing inside it is visible here.
#[verifier::external_type_specification]
#[verifier::external_body]
pub struct ExDecodeError(base64::DecodeError);

/// Declares rand's `OsError`, the error of the operating system's random
/// source. Nothing inside it is visible here.
#[verifier::external_type_specification]
#[verifier::external_body]
pub struct ExOsError(rand::rand_core::OsError);

/// Calls `blake3::Hasher::new`. Trusted: the new hasher has taken in nothing
/// and works at input offset zero.
#[verifier::external_body]
fn hasher_new() -> (h: blake3::Hasher)
    ensures
        hasher_input(h) == Seq::<u8>::empty(),
        hasher_offset(h) == 0,
{
    blake3::Hasher::new()
}

/// Calls `blake3::Hasher::update`. Trusted: the bytes are added after those
/// taken in before. Left out are hashers at a nonzero input offset, for which
/// the call may panic.
#[verifier::external_body]
fn hasher_update(h: &mut blake3::Hasher, input: &[u8])
    requires
        hasher_offset(*old(h)) == 0,
    ensures
        hasher_input(*final(h)) == hasher_input(*old(h)) + input@,
        hasher_offset(*final(h)) == 0,
{
    h.update(input);
}

/// Calls `blake3::Hasher::finalize` and copies the 32 bytes out. Trusted: they
/// are the digest of everything taken in. Left out are hashers at a nonzero
/// input offset, for which the call panics.
#[verifier::external_body]
fn hasher_finalize(h: &blake3::Hasher) -> (d: Vec<u8>)
    requires
        hasher_offset(*h) == 0,
    ensures
        d@ == blake3_digest(hasher_input(*h)),
        d@.len() == OUTPUT_LEN,
{
    h.finalize().as_bytes().to_vec()
}

/// Calls `Engine::encode` of base64's `STANDARD` engine. Trusted: the text is
/// the encoding named `base64_encode`, it has four characters for every
/// three bytes or part of three, it is made of the standard alphabet and
/// the padding sign, and decoding it gives the bytes back. Left out are
/// inputs so long that the length of the text overflows, for which the call
/// panics.
#[verifier::external_body]
fn encode_base64(data: &[u8]) -> (text: String)
    requires
        (data@.len() / 3) * 4 + 4 <= usize::MAX,
    ensures
        text@ == base64_encode(data@),
        text@.len() == base64_len(data@.len()),
        forall|i: int| 0 <= i < text@.len() ==> is_base64_char(#[trigger] text@[i]),
        base64_decode(text@) == Some(data@),
{
    base64::Engine::encode(&base64::engine::general_purpose::STANDARD, data)
}

/// Calls `Engine::decode` of base64's `STANDARD` engine. Trusted: on success
/// the bytes are the decoding named `base64_decode`, and the text is the
/// encoding of those bytes and no other text of them, since the engine
/// takes nothing but the alphabet, canonical padding and no trailing bits;
/// the call fails exactly where that decoding is `None`.
#[verifier::external_body]
fn decode_base64(text: &str) -> (r: Result<Vec<u8>, base64::DecodeError>)
    ensures
        r matches Ok(bytes) ==> base64_decode(text@) == Some(bytes@),
        r matches Ok(bytes) ==> text@ == base64_encode(bytes@),
        r is Err ==> base64_decode(text@) is None,
{
    base64::Engine::decode(&base64::engine::general_purpose::STANDARD, text)
}

/// Calls `ConstantTimeEq::ct_eq` of subtle on two byte slices and turns the
/// `Choice` into a `bool`. Trusted: the result says whether the slices are equal.
#[verifier::external_body]
fn ct_eq(a: &[u8], b: &[u8]) -> (r: bool)
    ensures
        r == (a@ == b@),
{
    subtle::ConstantTimeEq::ct_eq(a, b).into()
}

/// Calls `TryRngCore::try_fill_bytes` of rand's `OsRng` on a buffer of
/// `len` bytes. Trusted: a salt that comes back has `len` bytes. Nothing is
/// said of what it holds, nor of when the call fails.
#[verifier::external_body]
fn draw_salt(len: usize) -> (r: Result<Vec<u8>, rand::rand_core::OsError>)
    ensures
        r matches Ok(salt) ==> salt@.len() == len,
{
    let mut salt = vec![0u8; len];
    match rand::TryRngCore::try_fill_bytes(&mut rand::rngs::OsRng, &mut salt) {
        Ok(()) => Ok(salt),
        Err(e) => Err(e),
    }
}

/// Why no hash could be made.
#[derive(Clone, Copy, Debug, PartialEq, Eq, Structural)]
pub enum HashError {
    /// The operating system's random source gave no salt.
    NoEntropy,
}

/// Some character of `p` is an uppercase letter.
pub open spec fn has_uppercase(p: Seq<char>) -> bool {
    exists|i: int| 0 <= i < p.len() && char_is_uppercase(#[trigger] p[i])
}

/// Some character of `p` is a lowercase letter.
pub open spec fn has_lowercase(p: Seq<char>) -> bool {
    exists|i: int| 0 <= i < p.len() && char_is_lowercase(#[trigger] p[i])
}

/// Some character of `p` is an ASCII digit.
pub open spec fn has_digit(p: Seq<char>) -> bool {
    exists|i: int| 0 <= i < p.len() && char_is_ascii_digit(#[trigger] p[i])
}

/// The verdict on a password: `Ok`, or the first rule that it breaks, in the
/// order length, uppercase letter, lowercase letter, digit.
pub open spec fn validate_spec(p: Seq<char>) -> Result<(), Seq<char>> {
    if encode_utf8(p).len() < MIN_PASSWORD_LEN {
        Err(MSG_TOO_SHORT@)
    } else if !has_uppercase(p) {
        Err(MSG_NO_UPPERCASE@)
    } else if !has_lowercase(p) {
        Err(MSG_NO_LOWERCASE@)
    } else if !has_digit(p) {
        Err(MSG_NO_DIGIT@)
    } else {
        Ok(())
    }
}

/// The verdict on a password of which only this is known: how many bytes
/// it has, and whether it holds an uppercase letter, a lowercase letter and
/// a digit.
pub open spec fn verdict_spec(len: nat, upper: bool, lower: bool, digit: bool) -> Result<
    (),
    Seq<char>,
> {
    if len < MIN_PASSWORD_LEN {
        Err(MSG_TOO_SHORT@)
    } else if !upper {
        Err(MSG_NO_UPPERCASE@)
    } else if !lower {
        Err(MSG_NO_LOWERCASE@)
    } else if !digit {
        Err(MSG_NO_DIGIT@)
    } else {
        Ok(())
    }
}

/// The verdict on a password depends on nothing but its length and the
/// three kinds of characters that it holds.
pub proof fn lemma_validate_is_verdict(p: Seq<char>)
    ensures
        validate_spec(p) == verdict_spec(
            encode_utf8(p).len(),
            has_uppercase(p),
            has_lowercase(p),
            has_digit(p),
        ),
{
}

/// The verdict on a password from what was found in it: the first rule
/// that it breaks, in the order length, uppercase letter, lowercase
/// letter, digit.
pub fn password_verdict(len: usize, upper: bool, lower: bool, digit: bool) -> (r: Result<
    (),
    &'static str,
>)
    ensures
        match r {
            Ok(_) => verdict_spec(len as nat, upper, lower, digit) is Ok,
            Err(msg) => verdict_spec(len as nat, upper, lower, digit) == Err::<(), Seq<char>>(
                msg@,
            ),
        },
{
    if len < MIN_PASSWORD_LEN {
        Err(MSG_TOO_SHORT)
    } else if !upper {
        Err(MSG_NO_UPPERCASE)
    } else if !lower {
        Err(MSG_NO_LOWERCASE)
    } else if !digit {
        Err(MSG_NO_DIGIT)
    } else {
        Ok(())
    }
}

/// The verdict of [`validate_spec`], with the message as a string slice.
pub open spec fn validate_result(p: Seq<char>, r: Result<(), &'static str>) -> bool {
    match r {
        Ok(()) => validate_spec(p) is Ok,
        Err(msg) => validate_spec(p) == Err::<(), Seq<char>>(msg@),
    }
}

/// Checks a password against the rules: at least eight bytes long, with an
/// uppercase letter, a lowercase letter and a digit.
pub fn validate_password(password: &str) -> (r: Result<(), &'static str>)
    ensures
        validate_result(password@, r),
{
    let len = password.as_bytes().len();
    let cs = chars_of(password);
    let mut upper = false;
    let mut lower = false;
    let mut digit = false;
    let mut i: usize = 0;
    while i < cs.len()
        invariant
            i <= cs.len(),
            cs@ == password@,
            upper == has_uppercase(cs@.take(i as int)),
            lower == has_lowercase(cs@.take(i as int)),
            digit == has_digit(cs@.take(i as int)),
        decreases cs.len() - i,
    {
        let c = cs[i];
        let ghost before = cs@.take(i as int);
        let ghost after = cs@.take(i + 1);
        let u = is_uppercase(c);
        let l = is_lowercase(c);
        let d = is_ascii_digit(c);
        proof {
            assert(after[i as int] == c);
            assert forall|k: int| 0 <= k < i implies before[k] == after[k] by {}
            if has_uppercase(before) {
                let k = choose|k: int| 0 <= k < before.len() && char_is_uppercase(before[k]);
                assert(char_is_uppercase(after[k]));
            }
            if has_uppercase(after) {
                let k = choose|k: int| 0 <= k < after.len() && char_is_uppercase(after[k]);
                if k < i {
                    assert(char_is_uppercase(before[k]));
                }
            }
            if has_lowercase(before) {
                let k = choose|k: int| 0 <= k < before.len() && char_is_lowercase(before[k]);
                assert(char_is_lowercase(after[k]));
            }
            if has_lowercase(after) {
                let k = choose|k: int| 0 <= k < after.len() && char_is_lowercase(after[k]);
                if k < i {
                    assert(char_is_lowercase(before[k]));
                }
            }
            if has_digit(before) {
                let k = choose|k: int| 0 <= k < before.len() && char_is_ascii_digit(before[k]);
                assert(char_is_ascii_digit(after[k]));
            }
            if has_digit(after) {
                let k = choose|k: int| 0 <= k < after.len() && char_is_ascii_digit(after[k]);
                if k < i {
                    assert(char_is_ascii_digit(before[k]));
                }
            }
        }
        upper = upper || u;
        lower = lower || l;
        digit = digit || d;
        i += 1;
    }
    assert(cs@.take(i as int) =~= cs@);
    password_verdict(len, upper, lower, digit)
}

/// The stored form of a salt and a digest, both already in base64.
pub open spec fn stored_form(salt_text: Seq<char>, digest_text: Seq<char>) -> Seq<char> {
    "BLAKE3"@ + seq!['$'] + salt_text + seq!['$'] + digest_text
}

/// The salted digest of a password: BLAKE3 of the salt followed by the
/// password's UTF-8 bytes.
pub open spec fn salted_digest_spec(salt: Seq<u8>, password: Seq<char>) -> Seq<u8> {
    blake3_digest(salt + encode_utf8(password))
}

/// The stored hash of `password` under `salt`.
pub open spec fn hash_spec(password: Seq<char>, salt: Seq<u8>) -> Seq<char> {
    stored_form(base64_encode(salt), base64_encode(salted_digest_spec(salt, password)))
}

/// The salt and the digest of a stored hash, both still in base64, if the
/// stored string has three `$`-separated fields of which the first is the
/// tag `BLAKE3`.
pub open spec fn stored_fields(stored: Seq<char>) -> Option<(Seq<char>, Seq<char>)> {
    let parts = split_spec(stored, '$');
    if parts.len() == 3 && parts[0] == "BLAKE3"@ {
        Some((parts[1], parts[2]))
    } else {
        None
    }
}

/// Whether `stored` is a hash of `password`: it has three `$`-separated
/// fields, the tag `BLAKE3`, a salt and a digest in base64, the digest is 32
/// bytes long and equals the salted digest of the password.
pub open spec fn verify_spec(password: Seq<char>, stored: Seq<char>) -> bool {
    match stored_fields(stored) {
        Some((salt_text, digest_text)) => {
            &&& base64_decode(salt_text) is Some
            &&& base64_decode(digest_text) is Some
            &&& base64_decode(digest_text)->0.len() == OUTPUT_LEN
            &&& base64_decode(digest_text)->0 == salted_digest_spec(
                base64_decode(salt_text)->0,
                password,
            )
        },
        None => false,
    }
}

/// Puts a salt and a digest, both in base64, into the stored form.
pub fn format_stored(salt_text: &str, digest_text: &str) -> (stored: String)
    ensures
        stored@ == stored_form(salt_text@, digest_text@),
{
    let mut stored = String::from_str("BLAKE3");
    stored.append("$");
    stored.append(salt_text);
    stored.append("$");
    stored.append(digest_text);
    proof {
        reveal_strlit("$");
        assert("$"@ =~= seq!['$']);
        assert(stored@ =~= stored_form(salt_text@, digest_text@));
    }
    stored
}

/// Takes a stored hash apart into its salt and its digest, both still in
/// base64. Gives `None` for a string that has not three fields or not the
/// tag `BLAKE3`.
pub fn parse_stored(stored: &str) -> (r: Option<(String, String)>)
    ensures
        match r {
            Some((salt_text, digest_text)) => stored_fields(stored@) == Some(
                (salt_text@, digest_text@),
            ),
            None => stored_fields(stored@) is None,
        },
{
    let mut parts = split(stored, '$');
    if parts.len() != 3 {
        return None;
    }
    assert(parts.deep_view()[0] == parts@[0]@);
    assert(parts.deep_view()[1] == parts@[1]@);
    assert(parts.deep_view()[2] == parts@[2]@);
    if !str_eq(parts[0].as_str(), "BLAKE3") {
        return None;
    }
    let digest_text = parts.remove(2);
    let salt_text = parts.remove(1);
    Some((salt_text, digest_text))
}

/// Whether a digest read from a stored hash is a digest at all, and the
/// one that was computed.
pub fn digest_matches(expected: &[u8], computed: &[u8]) -> (ok: bool)
    ensures
        ok == (expected@.len() == OUTPUT_LEN && expected@ == computed@),
{
    if expected.len() != OUTPUT_LEN {
        return false;
    }
    ct_eq(computed, expected)
}

/// Whether `stored` has the shape of a hash under a salt of `salt_len`
/// bytes: the tag, and behind it the two fields with the lengths of the
/// base64 texts of the salt and of a digest.
pub open spec fn hash_shape(stored: Seq<char>, salt_len: nat) -> bool {
    stored_fields(stored) matches Some((salt_text, digest_text)) && salt_text.len() == base64_len(
        salt_len,
    ) && digest_text.len() == base64_len(OUTPUT_LEN as nat)
}

/// BLAKE3 of `salt` followed by the bytes of `password`.
fn salted_digest(salt: &[u8], password: &str) -> (d: Vec<u8>)
    ensures
        d@ == salted_digest_spec(salt@, password@),
        d@.len() == OUTPUT_LEN,
{
    let mut hasher = hasher_new();
    hasher_update(&mut hasher, salt);
    hasher_update(&mut hasher, password.as_bytes());
    assert(hasher_input(hasher) =~= salt@ + encode_utf8(password@));
    hasher_finalize(&hasher)
}

/// The stored hash of `password` under the given salt. The result verifies
/// against the same password. The salt must be short enough for the length
/// of its base64 text to fit the machine's integers.
pub fn hash_password_with_salt(password: &str, salt: &[u8]) -> (stored: String)
    requires
        (salt@.len() / 3) * 4 + 4 <= usize::MAX,
    ensures
        stored@ == hash_spec(password@, salt@),
        verify_spec(password@, stored@),
        hash_shape(stored@, salt@.len()),
{
    let digest = salted_digest(salt, password);
    let salt_text = encode_base64(salt);
    let digest_text = encode_base64(digest.as_slice());
    let stored = format_stored(salt_text.as_str(), digest_text.as_str());
    proof {
        reveal_strlit("BLAKE3");
        let tag = "BLAKE3"@;
        let rest = salt_text@ + seq!['$'] + digest_text@;
        assert(stored@ =~= tag + seq!['$'] + rest);
        assert(free_of(tag, '$'));
        assert(free_of(salt_text@, '$'));
        assert(free_of(digest_text@, '$'));
        lemma_split_cons(tag, rest, '$');
        lemma_split_cons(salt_text@, digest_text@, '$');
        lemma_split_one(digest_text@, '$');
        assert(split_spec(stored@, '$') =~= seq![tag, salt_text@, digest_text@]);
    }
    stored
}

/// A stored hash of `password` under a fresh random salt of `SALT_LEN`
/// bytes, or an error if the operating system gave none. The result verifies
/// against the same password; its salt field has 24 characters and its
/// digest field 44.
pub fn hash_password(password: &str) -> (r: Result<String, HashError>)
    ensures
        r matches Ok(stored) ==> verify_spec(password@, stored@) && exists|salt: Seq<u8>|
            salt.len() == SALT_LEN && stored@ == #[trigger] hash_spec(password@, salt),
        r matches Ok(stored) ==> hash_shape(stored@, SALT_LEN as nat) && base64_len(
            SALT_LEN as nat,
        ) == 24 && base64_len(OUTPUT_LEN as nat) == 44,
        r matches Err(e) ==> e == HashError::NoEntropy,
{
    match draw_salt(SALT_LEN) {
        Ok(salt) => hash_password_from(password, Some(salt.as_slice())),
        Err(_) => hash_password_from(password, None),
    }
}

/// What becomes of a password once the random source has answered: with a
/// salt, the stored hash of the password under that salt, which verifies
/// against the same password; without one, the error. A salt must be short
/// enough for the length of its base64 text to fit the machine's integers.
pub fn hash_password_from(password: &str, salt: Option<&[u8]>) -> (r: Result<String, HashError>)
    requires
        salt matches Some(s) ==> (s@.len() / 3) * 4 + 4 <= usize::MAX,
    ensures
        match salt {
            Some(s) => r matches Ok(stored) && stored@ == hash_spec(password@, s@)
                && verify_spec(password@, stored@) && hash_shape(stored@, s@.len()),
            None => r matches Err(e) && e == HashError::NoEntropy,
        },
{
    match salt {
        Some(s) => Ok(hash_password_with_salt(password, s)),
        None => Err(HashError::NoEntropy),
    }
}

/// The salt that a stored string holds, if the string has the form of a
/// hash and its salt field is base64.
pub open spec fn stored_salt(stored: Seq<char>) -> Option<Seq<u8>> {
    match stored_fields(stored) {
        Some((salt_text, _)) => base64_decode(salt_text),
        None => None,
    }
}

/// Whether `stored` is a hash of `password`. A stored string that is not of
/// the expected form verifies against nothing. One that verifies is, to
/// the character, the hash of the password under the salt that it holds:
/// no other spelling of that salt and digest is taken.
pub fn verify_password(password: &str, stored: &str) -> (ok: bool)
    ensures
        ok == verify_spec(password@, stored@),
        ok ==> (stored_salt(stored@) matches Some(salt) && stored@ == hash_spec(
            password@,
            salt,
        )),
{
    let (salt_text, digest_text) = match parse_stored(stored) {
        Some(fields) => fields,
        None => {
            return false;
        },
    };
    let salt = match decode_base64(salt_text.as_str()) {
        Ok(s) => s,
        Err(_) => {
            return false;
        },
    };
    let expected = match decode_base64(digest_text.as_str()) {
        Ok(h) => h,
        Err(_) => {
            return false;
        },
    };
    let computed = salted_digest(salt.as_slice(), password);
    let ok = digest_matches(expected.as_slice(), computed.as_slice());
    proof {
        if ok {
            lemma_three_fields(stored@, '$');
            assert(stored@ =~= stored_form(salt_text@, digest_text@));
        }
    }
    ok
}

/// A stored string that is not of the expected form verifies against no
/// password: one that has not three fields or not the tag, one whose salt
/// or digest is no base64, and one whose digest has not 32 bytes.
pub proof fn lemma_malformed_never_verifies(password: Seq<char>, stored: Seq<char>)
    ensures
        stored_fields(stored) is None ==> !verify_spec(password, stored),
        stored_fields(stored) matches Some((salt_text, digest_text)) ==> (base64_decode(salt_text)
            is None || base64_decode(digest_text) is None || base64_decode(digest_text)->0.len()
            != OUTPUT_LEN ==> !verify_spec(password, stored)),
{
}

} // verus!
