//! The master key, and texts sealed with it.
use vstd::prelude::*;
use vstd::utf8::{decode_utf8, encode_utf8, encode_utf8_decode_utf8, encode_utf8_valid_utf8, valid_utf8};

use crate::text::{blank, cat2, decimal, decimal_text, is_blank, trim, trimmed};

verus! {

/// How a text is sealed.
pub const SEAL_ALGORITHM: &'static str = "xchacha20poly1305";

// ---------------------------------------------------------------------------
// Outside functions
// ---------------------------------------------------------------------------

/// What `XChaCha20Poly1305::encrypt` makes of a text under a key and a nonce, or how its error
/// reads.
pub uninterp spec fn sealed(key: Seq<u8>, nonce: Seq<u8>, plaintext: Seq<u8>) -> Result<
    Seq<u8>,
    Seq<char>,
>;

/// What `XChaCha20Poly1305::decrypt` gets back under a key and a nonce, or how its error reads.
pub uninterp spec fn opened(key: Seq<u8>, nonce: Seq<u8>, ciphertext: Seq<u8>) -> Result<
    Seq<u8>,
    Seq<char>,
>;

/// `chacha20poly1305::XChaCha20Poly1305::encrypt` without associated data. The result depends on
/// the key, the nonce and the text alone; the cipher refuses only texts of about 256 GiB and more,
/// and what it makes of a text opens to that text again under the same key and nonce. It is longer
/// than the text by a tag of 16 bytes. What the bytes are is left unsaid. The cipher's constructors panic on a key or a nonce of another length.
#[verifier::external_body]
fn seal(key: &Vec<u8>, nonce: &Vec<u8>, plaintext: &Vec<u8>) -> (r: Result<Vec<u8>, String>)
    requires
        key@.len() == 32,
        nonce@.len() == 24,
    ensures
        match r {
            Ok(c) => sealed(key@, nonce@, plaintext@) == Ok::<Seq<u8>, Seq<char>>(c@) && opened(
                key@,
                nonce@,
                c@,
            ) == Ok::<Seq<u8>, Seq<char>>(plaintext@) && c@.len() == plaintext@.len() + 16,
            Err(e) => sealed(key@, nonce@, plaintext@) == Err::<Seq<u8>, Seq<char>>(e@)
                && plaintext@.len() / 64 >= u32::MAX,
        },
{
    let cipher = <chacha20poly1305::XChaCha20Poly1305 as chacha20poly1305::KeyInit>::new(
        chacha20poly1305::Key::from_slice(key),
    );
    let n = chacha20poly1305::XNonce::from_slice(nonce);
    chacha20poly1305::aead::Aead::encrypt(&cipher, n, plaintext.as_slice()).map_err(
        |e| e.to_string(),
    )
}

/// `chacha20poly1305::XChaCha20Poly1305::decrypt` without associated data. The result depends on
/// the key, the nonce and the bytes alone. The cipher's constructors panic on a key or a nonce of
/// another length.
#[verifier::external_body]
fn open(key: &Vec<u8>, nonce: &Vec<u8>, ciphertext: &Vec<u8>) -> (r: Result<Vec<u8>, String>)
    requires
        key@.len() == 32,
        nonce@.len() == 24,
    ensures
        match r {
            Ok(p) => opened(key@, nonce@, ciphertext@) == Ok::<Seq<u8>, Seq<char>>(p@),
            Err(e) => opened(key@, nonce@, ciphertext@) == Err::<Seq<u8>, Seq<char>>(e@),
        },
{
    let cipher = <chacha20poly1305::XChaCha20Poly1305 as chacha20poly1305::KeyInit>::new(
        chacha20poly1305::Key::from_slice(key),
    );
    let n = chacha20poly1305::XNonce::from_slice(nonce);
    chacha20poly1305::aead::Aead::decrypt(&cipher, n, ciphertext.as_slice()).map_err(
        |e| e.to_string(),
    )
}

/// `getrandom::getrandom` on a buffer of `n` bytes: that many bytes from the operating system, or
/// how its error reads. Which bytes, nobody can say.
#[verifier::external_body]
pub(crate) fn random_bytes(n: usize) -> (r: Result<Vec<u8>, String>)
    requires
        n <= 256,
    ensures
        r matches Ok(b) ==> b@.len() == n,
{
    let mut buffer = vec![0u8; n];
    getrandom::getrandom(&mut buffer).map(|()| buffer).map_err(|e| e.to_string())
}

/// What base64 in its standard alphabet says, by `base64`, where it says something.
pub uninterp spec fn base64_decoded(text: Seq<char>) -> Option<Seq<u8>>;

/// `base64::engine::general_purpose::STANDARD.decode`. What it says depends on the text alone; the
/// encoding is left unsaid.
#[verifier::external_body]
fn base64_bytes(text: &str) -> (r: Option<Vec<u8>>)
    ensures
        match r {
            Some(b) => base64_decoded(text@) == Some(b@),
            None => base64_decoded(text@) is None,
        },
{
    base64::Engine::decode(&base64::engine::general_purpose::STANDARD, text).ok()
}

/// `String::from_utf8`: the text that the bytes encode, if they encode one.
#[verifier::external_body]
fn utf8_text(bytes: Vec<u8>) -> (r: Option<String>)
    ensures
        match r {
            Some(s) => valid_utf8(bytes@) && s@ == decode_utf8(bytes@),
            None => !valid_utf8(bytes@),
        },
{
    String::from_utf8(bytes).ok()
}

/// What `String::from_utf8_lossy` makes of bytes that encode no text.
pub uninterp spec fn mended_text(bytes: Seq<u8>) -> Seq<char>;

/// The text of some bytes; where they encode none, what `String::from_utf8_lossy` makes of them.
pub open spec fn lossy_text(bytes: Seq<u8>) -> Seq<char> {
    if valid_utf8(bytes) {
        decode_utf8(bytes)
    } else {
        mended_text(bytes)
    }
}

/// `String::from_utf8_lossy`: the text that the bytes encode; where they encode none, the bad
/// bytes are replaced, which depends on the bytes alone.
#[verifier::external_body]
pub(crate) fn lossy(bytes: &Vec<u8>) -> (r: String)
    ensures
        r@ == lossy_text(bytes@),
        !valid_utf8(bytes@) ==> r@ == mended_text(bytes@),
{
    String::from_utf8_lossy(bytes).into_owned()
}

// ---------------------------------------------------------------------------
// The master key
// ---------------------------------------------------------------------------

/// Why a value is no master key.
pub open spec fn key_complaint() -> Seq<char> {
    "MESA_MASTER_KEY 无效：需为 base64 编码的 32 字节随机密钥"@
}

/// The key that an environment variable gives: none where it is missing or blank, and an error
/// where it is not 32 bytes in base64.
pub open spec fn environment_key(value: Option<Seq<char>>) -> Result<Option<Seq<u8>>, Seq<char>> {
    match value {
        None => Ok(None),
        Some(v) => if blank(v) {
            Ok(None)
        } else {
            match base64_decoded(trimmed(v)) {
                Some(b) => if b.len() == 32 {
                    Ok(Some(b))
                } else {
                    Err(key_complaint())
                },
                None => Err(key_complaint()),
            }
        },
    }
}

pub fn key_from_environment(value: Option<&str>) -> (r: Result<Option<Vec<u8>>, String>)
    ensures
        match r {
            Ok(Some(k)) => environment_key(
                match value {
                    Some(v) => Some(v@),
                    None => None,
                },
            ) == Ok::<Option<Seq<u8>>, Seq<char>>(Some(k@)) && k@.len() == 32,
            Ok(None) => environment_key(
                match value {
                    Some(v) => Some(v@),
                    None => None,
                },
            ) == Ok::<Option<Seq<u8>>, Seq<char>>(None),
            Err(e) => environment_key(
                match value {
                    Some(v) => Some(v@),
                    None => None,
                },
            ) == Err::<Option<Seq<u8>>, Seq<char>>(e@),
        },
{
    let v: &str = match value {
        Some(v) => v,
        None => {
            return Ok(None);
        },
    };
    if is_blank(v) {
        return Ok(None);
    }
    let t: String = trim(v);
    match base64_bytes(t.as_str()) {
        Some(b) => {
            if b.len() == 32 {
                return Ok(Some(b));
            }
        },
        None => {},
    }
    Err("MESA_MASTER_KEY 无效：需为 base64 编码的 32 字节随机密钥".to_owned())
}

/// The key that a key file gives: 32 bytes as they are, or 32 bytes in base64.
pub open spec fn file_key(raw: Seq<u8>) -> Option<Seq<u8>> {
    if raw.len() == 32 {
        Some(raw)
    } else if valid_utf8(raw) {
        match base64_decoded(trimmed(decode_utf8(raw))) {
            Some(b) => if b.len() == 32 {
                Some(b)
            } else {
                None
            },
            None => None,
        }
    } else {
        None
    }
}

pub fn key_from_file(raw: Vec<u8>) -> (r: Option<Vec<u8>>)
    ensures
        match r {
            Some(k) => file_key(raw@) == Some(k@) && k@.len() == 32,
            None => file_key(raw@) is None,
        },
{
    if raw.len() == 32 {
        return Some(raw);
    }
    match utf8_text(raw) {
        Some(s) => {
            let t: String = trim(s.as_str());
            match base64_bytes(t.as_str()) {
                Some(b) => {
                    if b.len() == 32 {
                        Some(b)
                    } else {
                        None
                    }
                },
                None => None,
            }
        },
        None => None,
    }
}

/// A new key, or why there is none.
pub fn generate_key() -> (r: Result<Vec<u8>, String>)
    ensures
        r matches Ok(k) ==> k@.len() == 32,
{
    random_bytes(32)
}

/// The key of a store that is kept in memory alone.
pub open spec fn memory_key_bytes() -> Seq<u8> {
    Seq::new(32, |i: int| 0xA5u8)
}

pub fn memory_key() -> (r: Vec<u8>)
    ensures
        r@ == memory_key_bytes(),
{
    let mut k: Vec<u8> = Vec::new();
    let mut i: usize = 0;
    while i < 32
        invariant
            i <= 32,
            k@.len() == i,
            forall|j: int| 0 <= j < i ==> #[trigger] k@[j] == 0xA5u8,
        decreases 32 - i,
    {
        k.push(0xA5);
        i = i + 1;
    }
    assert(k@ =~= memory_key_bytes());
    k
}

// ---------------------------------------------------------------------------
// Sealing
// ---------------------------------------------------------------------------

/// Whether bytes and a nonce are a text sealed under a key: they open to that text, and are longer
/// than it.
pub open spec fn is_sealed(key: Seq<u8>, nonce: Seq<u8>, ciphertext: Seq<u8>, text: Seq<char>) -> bool {
    &&& nonce.len() == 24
    &&& sealed(key, nonce, encode_utf8(text)) == Ok::<Seq<u8>, Seq<char>>(ciphertext)
    &&& opened(key, nonce, ciphertext) == Ok::<Seq<u8>, Seq<char>>(encode_utf8(text))
    &&& ciphertext.len() == encode_utf8(text).len() + 16
}

/// A sealed text is not the text itself.
pub proof fn sealed_text_is_hidden(
    key: Seq<u8>,
    nonce: Seq<u8>,
    ciphertext: Seq<u8>,
    text: Seq<char>,
)
    requires
        is_sealed(key, nonce, ciphertext, text),
    ensures
        ciphertext != encode_utf8(text),
{
}

/// Seals a text under a nonce.
pub fn aead_encrypt_with(plaintext: &str, key: &Vec<u8>, nonce: &Vec<u8>) -> (r: Result<
    Vec<u8>,
    String,
>)
    requires
        key@.len() == 32,
        nonce@.len() == 24,
    ensures
        match r {
            Ok(c) => is_sealed(key@, nonce@, c@, plaintext@),
            Err(m) => encode_utf8(plaintext@).len() / 64 >= u32::MAX && sealed(
                key@,
                nonce@,
                encode_utf8(plaintext@),
            ) is Err && m@ == "encrypt: "@ + sealed(key@, nonce@, encode_utf8(plaintext@))->Err_0,
        },
{
    let bytes: Vec<u8> = plaintext.as_bytes_vec();
    match seal(key, nonce, &bytes) {
        Ok(c) => Ok(c),
        Err(e) => Err(cat2("encrypt: ", e.as_str())),
    }
}

/// Seals a text under a new nonce: the bytes, and the nonce.
pub fn aead_encrypt(plaintext: &str, key: &Vec<u8>) -> (r: Result<(Vec<u8>, Vec<u8>), String>)
    requires
        key@.len() == 32,
    ensures
        r matches Ok(x) ==> is_sealed(key@, x.1@, x.0@, plaintext@),
{
    aead_encrypt_drawn(plaintext, key, draw_nonce())
}

/// What sealing a text comes to, for each outcome of drawing a nonce: the bytes and the nonce, the
/// cipher's refusal, or why none was drawn.
pub open spec fn sealing(
    text: Seq<char>,
    key: Seq<u8>,
    drawn: Result<Seq<u8>, Seq<char>>,
) -> Result<(Seq<u8>, Seq<u8>), Seq<char>> {
    match drawn {
        Err(e) => Err(e),
        Ok(nonce) => match sealed(key, nonce, encode_utf8(text)) {
            Ok(c) => Ok((c, nonce)),
            Err(e) => Err("encrypt: "@ + e),
        },
    }
}

/// What came of drawing a nonce.
pub open spec fn drawn_view(drawn: Result<Vec<u8>, String>) -> Result<Seq<u8>, Seq<char>> {
    match drawn {
        Ok(n) => Ok(n@),
        Err(e) => Err(e@),
    }
}

/// Whether what was drawn, if something was, is a nonce.
pub open spec fn draws_nonce(drawn: Result<Vec<u8>, String>) -> bool {
    drawn matches Ok(n) ==> n@.len() == 24
}

/// Draws a nonce: 24 bytes that nobody can foresee, or why there are none.
pub(crate) fn draw_nonce() -> (r: Result<Vec<u8>, String>)
    ensures
        draws_nonce(r),
{
    random_bytes(24)
}

/// Seals a text under the nonce that was drawn, if one was. A text under about 256 GiB is sealed
/// whenever one was.
pub fn aead_encrypt_drawn(plaintext: &str, key: &Vec<u8>, drawn: Result<Vec<u8>, String>) -> (r:
    Result<(Vec<u8>, Vec<u8>), String>)
    requires
        key@.len() == 32,
        drawn matches Ok(n) ==> n@.len() == 24,
    ensures
        match drawn {
            Ok(n) => match r {
                Ok(x) => sealing(plaintext@, key@, Ok(n@)) == Ok::<
                    (Seq<u8>, Seq<u8>),
                    Seq<char>,
                >((x.0@, x.1@)) && is_sealed(key@, n@, x.0@, plaintext@),
                Err(m) => sealing(plaintext@, key@, Ok(n@)) == Err::<
                    (Seq<u8>, Seq<u8>),
                    Seq<char>,
                >(m@) && encode_utf8(plaintext@).len() / 64 >= u32::MAX,
            },
            Err(e) => r matches Err(m) && m@ == e@,
        },
{
    let nonce: Vec<u8> = match drawn {
        Ok(n) => n,
        Err(e) => {
            return Err(e);
        },
    };
    match aead_encrypt_with(plaintext, key, &nonce) {
        Ok(c) => Ok((c, nonce)),
        Err(e) => Err(e),
    }
}

/// What opening some bytes gives.
pub open spec fn decrypted(ciphertext: Seq<u8>, nonce: Seq<u8>, key: Seq<u8>) -> Result<
    Seq<u8>,
    Seq<char>,
> {
    if nonce.len() != 24 {
        Err("invalid nonce len "@ + decimal(nonce.len()))
    } else {
        match opened(key, nonce, ciphertext) {
            Ok(p) => Ok(p),
            Err(e) => Err("decrypt: "@ + e),
        }
    }
}

pub fn aead_decrypt(ciphertext: &Vec<u8>, nonce: &Vec<u8>, key: &Vec<u8>) -> (r: Result<
    Vec<u8>,
    String,
>)
    requires
        key@.len() == 32,
    ensures
        match r {
            Ok(p) => decrypted(ciphertext@, nonce@, key@) == Ok::<Seq<u8>, Seq<char>>(p@),
            Err(e) => decrypted(ciphertext@, nonce@, key@) == Err::<Seq<u8>, Seq<char>>(e@),
        },
{
    if nonce.len() != 24 {
        return Err(cat2("invalid nonce len ", decimal_text(nonce.len() as u64).as_str()));
    }
    match open(key, nonce, ciphertext) {
        Ok(p) => Ok(p),
        Err(e) => Err(cat2("decrypt: ", e.as_str())),
    }
}

/// A sealed text opens to itself.
pub proof fn sealed_text_opens(key: Seq<u8>, nonce: Seq<u8>, ciphertext: Seq<u8>, text: Seq<char>)
    requires
        is_sealed(key, nonce, ciphertext, text),
    ensures
        decrypted(ciphertext, nonce, key) is Ok,
        lossy_text(decrypted(ciphertext, nonce, key)->Ok_0) == text,
{
    encode_utf8_valid_utf8(text);
    encode_utf8_decode_utf8(text);
}

// ---------------------------------------------------------------------------
// The old way
// ---------------------------------------------------------------------------

/// The byte that the old way mixes in.
pub open spec fn mix_byte(key_id: Seq<u8>) -> u8
    decreases key_id.len(),
{
    if key_id.len() == 0 {
        0xAA
    } else {
        mix_byte(key_id.drop_last()) ^ key_id.last()
    }
}

/// The bytes that the old way hides.
pub open spec fn unmixed(bytes: Seq<u8>, b: u8) -> Seq<u8> {
    bytes.map_values(|x: u8| x ^ b)
}

fn unmix(bytes: &Vec<u8>, key_id: &str) -> (r: Vec<u8>)
    ensures
        r@ == unmixed(bytes@, mix_byte(encode_utf8(key_id@))),
{
    let id: Vec<u8> = key_id.as_bytes_vec();
    let mut b: u8 = 0xAA;
    let mut i: usize = 0;
    while i < id.len()
        invariant
            i <= id.len(),
            b == mix_byte(id@.subrange(0, i as int)),
        decreases id.len() - i,
    {
        assert(id@.subrange(0, i + 1).drop_last() =~= id@.subrange(0, i as int));
        b = b ^ id[i];
        i = i + 1;
    }
    assert(id@.subrange(0, id@.len() as int) =~= id@);
    let mut r: Vec<u8> = Vec::new();
    let mut k: usize = 0;
    while k < bytes.len()
        invariant
            k <= bytes.len(),
            r@.len() == k,
            forall|j: int| 0 <= j < k ==> #[trigger] r@[j] == bytes@[j] ^ b,
        decreases bytes.len() - k,
    {
        r.push(bytes[k] ^ b);
        k = k + 1;
    }
    assert(r@ =~= unmixed(bytes@, b));
    r
}

/// The text that a stored secret holds, by the way in which it was sealed.
pub open spec fn revealed(
    ciphertext: Seq<u8>,
    nonce: Seq<u8>,
    algorithm: Seq<char>,
    key_id: Seq<char>,
    key: Seq<u8>,
) -> Result<Seq<char>, Seq<char>> {
    if algorithm == "xor-demo"@ {
        Ok(lossy_text(unmixed(ciphertext, mix_byte(encode_utf8(key_id)))))
    } else {
        match decrypted(ciphertext, nonce, key) {
            Ok(p) => Ok(lossy_text(p)),
            Err(e) => Err(e),
        }
    }
}

pub fn reveal_secret(
    ciphertext: &Vec<u8>,
    nonce: &Vec<u8>,
    algorithm: &str,
    key_id: &str,
    key: &Vec<u8>,
) -> (r: Result<String, String>)
    requires
        key@.len() == 32,
    ensures
        match r {
            Ok(s) => revealed(ciphertext@, nonce@, algorithm@, key_id@, key@) == Ok::<
                Seq<char>,
                Seq<char>,
            >(s@),
            Err(e) => revealed(ciphertext@, nonce@, algorithm@, key_id@, key@) == Err::<
                Seq<char>,
                Seq<char>,
            >(e@),
        },
{
    if crate::text::same_text(algorithm, "xor-demo") {
        return Ok(lossy(&unmix(ciphertext, key_id)));
    }
    match aead_decrypt(ciphertext, nonce, key) {
        Ok(p) => Ok(lossy(&p)),
        Err(e) => Err(e),
    }
}

/// The key in the environment is used exactly where it is given, is not blank, and is the text of
/// 32 bytes; what is no such text is complained of, and nothing given is no key.
pub proof fn keys_in_the_environment_have_32_bytes(v: Seq<char>, b: Seq<u8>)
    ensures
        environment_key(None) == Ok::<Option<Seq<u8>>, Seq<char>>(None),
        blank(v) ==> environment_key(Some(v)) == Ok::<Option<Seq<u8>>, Seq<char>>(None),
        !blank(v) && base64_decoded(trimmed(v)) == Some(b) && b.len() == 32 ==> environment_key(
            Some(v),
        ) == Ok::<Option<Seq<u8>>, Seq<char>>(Some(b)),
        !blank(v) && base64_decoded(trimmed(v)) == Some(b) && b.len() != 32 ==> environment_key(
            Some(v),
        ) is Err,
        !blank(v) && base64_decoded(trimmed(v)) is None ==> environment_key(Some(v)) is Err,
{
}

/// The key in a file is the file itself where it has 32 bytes, and what it is the text of where
/// that has 32 bytes; any other file holds none.
pub proof fn keys_in_files_have_32_bytes(raw: Seq<u8>)
    ensures
        raw.len() == 32 ==> file_key(raw) == Some(raw),
        file_key(raw) matches Some(k) ==> k.len() == 32,
        raw.len() != 32 ==> (file_key(raw) is Some <==> (valid_utf8(raw) && base64_decoded(
            trimmed(decode_utf8(raw)),
        ) is Some && base64_decoded(trimmed(decode_utf8(raw)))->0.len() == 32)),
        raw.len() != 32 && file_key(raw) is Some ==> file_key(raw) == base64_decoded(
            trimmed(decode_utf8(raw)),
        ),
{
}

/// The key of a store in memory is 32 times the same byte.
pub proof fn keys_in_memory_are_these(i: int)
    requires
        0 <= i < 32,
    ensures
        memory_key_bytes().len() == 32,
        memory_key_bytes()[i] == 0xA5,
{
}

/// A text is sealed with the nonce that was drawn, and not at all where none could be.
pub proof fn texts_are_sealed_with_what_was_drawn(
    text: Seq<char>,
    key: Seq<u8>,
    nonce: Seq<u8>,
    e: Seq<char>,
)
    ensures
        sealing(text, key, Err(e)) == Err::<(Seq<u8>, Seq<u8>), Seq<char>>(e),
        sealed(key, nonce, encode_utf8(text)) matches Ok(c) ==> sealing(text, key, Ok(nonce))
            == Ok::<(Seq<u8>, Seq<u8>), Seq<char>>((c, nonce)),
        sealed(key, nonce, encode_utf8(text)) is Err ==> sealing(text, key, Ok(nonce)) is Err,
{
}

/// What is sealed is opened with a nonce of 24 bytes and the key, and with nothing else.
pub proof fn sealed_bytes_are_opened_with_their_key(
    ciphertext: Seq<u8>,
    nonce: Seq<u8>,
    key: Seq<u8>,
)
    ensures
        decrypted(ciphertext, nonce, key) is Ok <==> nonce.len() == 24 && opened(
            key,
            nonce,
            ciphertext,
        ) is Ok,
        decrypted(ciphertext, nonce, key) matches Ok(p) ==> opened(key, nonce, ciphertext) == Ok::<
            Seq<u8>,
            Seq<char>,
        >(p),
{
}

/// What was kept in the old way is read by its own rule, anything else by opening it.
pub proof fn kept_secrets_are_read_by_their_algorithm(
    ciphertext: Seq<u8>,
    nonce: Seq<u8>,
    algorithm: Seq<char>,
    key_id: Seq<char>,
    key: Seq<u8>,
    i: int,
)
    ensures
        algorithm != "xor-demo"@ ==> (revealed(ciphertext, nonce, algorithm, key_id, key) is Ok
            <==> decrypted(ciphertext, nonce, key) is Ok),
        algorithm != "xor-demo"@ ==> (revealed(
            ciphertext,
            nonce,
            algorithm,
            key_id,
            key,
        ) matches Ok(t) ==> t == lossy_text(decrypted(ciphertext, nonce, key)->Ok_0)),
        algorithm == "xor-demo"@ ==> revealed(ciphertext, nonce, algorithm, key_id, key) == Ok::<
            Seq<char>,
            Seq<char>,
        >(lossy_text(unmixed(ciphertext, mix_byte(encode_utf8(key_id))))),
        0 <= i < ciphertext.len() ==> unmixed(ciphertext, 0x5a)[i] == ciphertext[i] ^ 0x5a,
        unmixed(ciphertext, 0x5a).len() == ciphertext.len(),
{
}

/// Bytes that are a text are read as that text.
pub proof fn bytes_of_a_text_are_read_as_it(bytes: Seq<u8>)
    ensures
        valid_utf8(bytes) ==> lossy_text(bytes) == decode_utf8(bytes),
{
}

/// The name of the way in which secrets are sealed.
pub proof fn secrets_are_sealed_like_this()
    ensures
        SEAL_ALGORITHM@ == "xchacha20poly1305"@,
{
}

} // verus!
