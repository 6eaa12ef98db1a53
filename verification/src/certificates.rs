//! Certificates for OPC UA: what they say, which are trusted, and requests for them.
use vstd::prelude::*;
use vstd::utf8::encode_utf8;

use crate::api::{
    complain, count_json, count_value, error_reply, integer_json, integer_value, list_json, object1,
    object3, object4, reply, text_json, truth_json, ApiResponse, ReplyV,
};
use crate::json::{entries_view, items_view, lemma_json_view, Json, JsonNumber, JsonV};
use crate::secrets::{lossy, lossy_text};
use crate::snapshot::put;
use crate::text::{
    cat2, cat3, contains_text, hex, hex_text, is_blank, blank, same_text, text_contains, texts_view,
    trim, trimmed,
};

verus! {

// ---------------------------------------------------------------------------
// What the outside says
// ---------------------------------------------------------------------------

/// What bytes hold in the PEM format, by `pem::parse`: the tag and the contents, or how the error
/// reads.
pub uninterp spec fn pem_read(bytes: Seq<u8>) -> Result<(Seq<char>, Seq<u8>), Seq<char>>;

/// `pem::parse`: the tag and the contents of the first block. They depend on the bytes alone, and
/// so does the wording of the error. The grammar is left unsaid.
#[verifier::external_body]
fn parse_pem(bytes: &Vec<u8>) -> (r: Result<(String, Vec<u8>), String>)
    ensures
        match r {
            Ok(x) => pem_read(bytes@) == Ok::<(Seq<char>, Seq<u8>), Seq<char>>((x.0@, x.1@)),
            Err(e) => pem_read(bytes@) == Err::<(Seq<char>, Seq<u8>), Seq<char>>(e@),
        },
{
    match pem::parse(bytes) {
        Ok(p) => Ok((p.tag().to_owned(), p.contents().to_vec())),
        Err(e) => Err(e.to_string()),
    }
}

/// The SHA-1 digest of some bytes.
pub uninterp spec fn sha1_digest(bytes: Seq<u8>) -> Seq<u8>;

/// `sha1::Sha1::digest`: twenty bytes that depend on the bytes alone.
#[verifier::external_body]
fn digest(bytes: &Vec<u8>) -> (r: Vec<u8>)
    ensures
        r@ == sha1_digest(bytes@),
        r@.len() == 20,
{
    <sha1::Sha1 as sha1::Digest>::digest(bytes).to_vec()
}

/// What bytes say as an X.509 certificate, by `x509_parser`, or how the error reads: its subject,
/// its issuer, and the two ends of its validity, each as text and in seconds since 1970.
pub uninterp spec fn x509_read(der: Seq<u8>) -> Result<
    (Seq<char>, Seq<char>, Seq<char>, Seq<char>, i64, i64),
    Seq<char>,
>;

/// `x509_parser::certificate::X509Certificate::from_der`, with the texts of what it gives. All of
/// it depends on the bytes alone. What a certificate is made of is left unsaid.
#[verifier::external_body]
fn parse_x509(der: &Vec<u8>) -> (r: Result<(String, String, String, String, i64, i64), String>)
    ensures
        match r {
            Ok(x) => x509_read(der@) == Ok::<
                (Seq<char>, Seq<char>, Seq<char>, Seq<char>, i64, i64),
                Seq<char>,
            >((x.0@, x.1@, x.2@, x.3@, x.4, x.5)),
            Err(e) => x509_read(der@) == Err::<
                (Seq<char>, Seq<char>, Seq<char>, Seq<char>, i64, i64),
                Seq<char>,
            >(e@),
        },
{
    match <x509_parser::certificate::X509Certificate as x509_parser::prelude::FromDer<
        x509_parser::error::X509Error,
    >>::from_der(der) {
        Ok((_, c)) => {
            let v = c.validity();
            let (b, e) = (v.not_before, v.not_after);
            let (subject, issuer) = (c.subject().to_string(), c.issuer().to_string());
            Ok((subject, issuer, b.to_string(), e.to_string(), b.timestamp(), e.timestamp()))
        },
        Err(e) => Err(format!("{e:?}")),
    }
}

/// A time in seconds since 1970 as `chrono` writes it by RFC 3339, if it is in the range of times
/// that `chrono` knows.
pub uninterp spec fn rfc3339_text(secs: i64) -> Option<Seq<char>>;

/// `chrono::DateTime::from_timestamp`, then `to_rfc3339`. The text depends on the time alone; how
/// it is made up is left unsaid.
#[verifier::external_body]
fn write_time(secs: i64) -> (r: Option<String>)
    ensures
        match r {
            Some(t) => rfc3339_text(secs) == Some(t@),
            None => rfc3339_text(secs) is None,
        },
{
    chrono::DateTime::from_timestamp(secs, 0).map(|t| t.to_rfc3339())
}

/// A text with all letters as capitals.
pub uninterp spec fn uppercased(s: Seq<char>) -> Seq<char>;

/// An ASCII small letter as a capital one; every other character as it is.
pub open spec fn capital(c: char) -> char {
    if 'a' <= c <= 'z' {
        ((c as u8) - 32) as u8 as char
    } else {
        c
    }
}

/// Whether a text holds but ASCII characters.
pub open spec fn all_ascii(s: Seq<char>) -> bool {
    forall|i: int| 0 <= i < s.len() ==> (#[trigger] s[i]) as u32 <= 0x7f
}

/// `str::to_uppercase`. The result depends on the text alone; of ASCII text the small letters
/// become the capital ones. What becomes of other characters is left unsaid.
#[verifier::external_body]
fn to_upper(s: &str) -> (r: String)
    ensures
        r@ == uppercased(s@),
        all_ascii(s@) ==> r@ == s@.map_values(|c: char| capital(c)),
{
    s.to_uppercase()
}

/// The name that a certificate is made out to, as `rcgen` writes it: the one DNS name among what
/// else its subject goes by.
pub uninterp spec fn made_out_to(der: Seq<u8>) -> Seq<char>;

/// Whether a text is a plain name of a host: ASCII letters, digits and hyphens, at most 63 of them.
/// None of these is an IP address, since they hold neither a dot nor a colon.
pub open spec fn plain_name(s: Seq<char>) -> bool {
    &&& 0 < s.len() <= 63
    &&& forall|i: int|
        0 <= i < s.len() ==> ('a' <= #[trigger] s[i] <= 'z' || 'A' <= s[i] <= 'Z' || '0' <= s[i]
            <= '9' || s[i] == '-')
}

/// `rcgen::generate_simple_self_signed`: a new certificate in the PEM format, the key to it, and
/// the bytes of the certificate. The first begins as the PEM format does, and the bytes are what
/// `pem::parse` reads from it; they do not begin so themselves, since a certificate begins as a
/// sequence does. For a plain name the certificate is made out to it, and `x509_parser` reads it.
/// The key and the bytes are different each time. What else the certificate says, what comes of
/// other names, and when none can be made is left unsaid.
#[verifier::external_body]
fn self_signed(name: &str) -> (r: Result<(String, String, Vec<u8>), String>)
    ensures
        match r {
            Ok(x) => {
                &&& pem_read(encode_utf8(x.0@)) == Ok::<(Seq<char>, Seq<u8>), Seq<char>>(
                    ("CERTIFICATE"@, x.2@),
                )
                &&& is_pem(encode_utf8(x.0@))
                &&& !is_pem(x.2@)
                &&& plain_name(name@) ==> made_out_to(x.2@) == name@ && x509_read(x.2@) is Ok
            },
            Err(_) => true,
        },
{
    match rcgen::generate_simple_self_signed(vec![name.to_owned()]) {
        Ok(c) => Ok((c.cert.pem(), c.key_pair.serialize_pem(), c.cert.der().to_vec())),
        Err(e) => Err(e.to_string()),
    }
}

// ---------------------------------------------------------------------------
// What a certificate says
// ---------------------------------------------------------------------------

/// A certificate as it is listed. The times are written by RFC 3339, and the days until it expires
/// are negative once it has.
#[derive(Debug, Clone, PartialEq)]
pub struct CertInfo {
    pub thumbprint: String,
    pub filename: String,
    pub pem_preview: String,
    pub subject: String,
    pub issuer: String,
    pub not_before: String,
    pub not_after: String,
    pub expired: bool,
    pub days_remaining: i64,
}

/// What a [`CertInfo`] is.
pub struct CertV {
    pub thumbprint: Seq<char>,
    pub filename: Seq<char>,
    pub pem_preview: Seq<char>,
    pub subject: Seq<char>,
    pub issuer: Seq<char>,
    pub not_before: Seq<char>,
    pub not_after: Seq<char>,
    pub expired: bool,
    pub days_remaining: i64,
}

impl View for CertInfo {
    type V = CertV;

    open spec fn view(&self) -> CertV {
        CertV {
            thumbprint: self.thumbprint@,
            filename: self.filename@,
            pem_preview: self.pem_preview@,
            subject: self.subject@,
            issuer: self.issuer@,
            not_before: self.not_before@,
            not_after: self.not_after@,
            expired: self.expired,
            days_remaining: self.days_remaining,
        }
    }
}

/// A moment: seconds since 1970, and nanoseconds beyond them.
#[derive(Debug, Clone, Copy, PartialEq, Eq, Structural)]
pub struct Moment {
    pub secs: i64,
    pub nanos: u32,
}

/// A moment in nanoseconds since 1970.
pub open spec fn nanoseconds(m: Moment) -> int {
    m.secs * 1_000_000_000 + m.nanos
}

/// The quotient of two numbers without its fraction.
pub open spec fn whole(n: int, d: int) -> int {
    if n >= 0 {
        n / d
    } else {
        -((-n) / d)
    }
}

/// The whole days from a moment until so many seconds since 1970.
pub open spec fn days_until(secs: i64, now: Moment) -> int {
    whole(secs * 1_000_000_000 - nanoseconds(now), 86_400_000_000_000)
}

fn days_left(secs: i64, now: Moment) -> (r: i64)
    requires
        now.nanos < 1_000_000_000,
    ensures
        r == days_until(secs, now),
{
    let end: i128 = secs as i128 * 1_000_000_000;
    let start: i128 = now.secs as i128 * 1_000_000_000 + now.nanos as i128;
    if end >= start {
        ((end - start) / 86_400_000_000_000) as i64
    } else {
        let days: i64 = ((start - end) / 86_400_000_000_000) as i64;
        -days
    }
}

/// The bytes of a certificate that stand in a file.
pub open spec fn der_of(data: Seq<u8>) -> Result<Seq<u8>, Seq<char>> {
    if is_pem(data) {
        match pem_read(data) {
            Ok(x) => Ok(x.1),
            Err(e) => Err(e),
        }
    } else {
        Ok(data)
    }
}

/// Whether bytes begin as the PEM format does.
pub open spec fn is_pem(data: Seq<u8>) -> bool {
    let mark = encode_utf8("-----BEGIN"@);
    data.len() >= mark.len() && data.subrange(0, mark.len() as int) == mark
}

fn begins_as_pem(data: &Vec<u8>) -> (r: bool)
    ensures
        r == is_pem(data@),
{
    let mark: Vec<u8> = "-----BEGIN".as_bytes_vec();
    if data.len() < mark.len() {
        return false;
    }
    let mut i: usize = 0;
    while i < mark.len()
        invariant
            i <= mark.len() <= data.len(),
            mark@ == encode_utf8("-----BEGIN"@),
            forall|j: int| 0 <= j < i ==> data@[j] == mark@[j],
        decreases mark.len() - i,
    {
        if data[i] != mark[i] {
            assert(data@.subrange(0, mark@.len() as int)[i as int] != mark@[i as int]);
            return false;
        }
        i = i + 1;
    }
    assert(data@.subrange(0, mark@.len() as int) =~= mark@);
    true
}

/// The thumbprint of a certificate: its digest in capital hexadecimal digits.
pub open spec fn thumbprint(der: Seq<u8>) -> Seq<char> {
    hex(sha1_digest(der), true)
}

/// The first characters of a text.
pub open spec fn preview(s: Seq<char>) -> Seq<char> {
    if s.len() <= 100 {
        s
    } else {
        s.subrange(0, 100)
    }
}

fn first_characters(s: &str) -> (r: String)
    ensures
        r@ == preview(s@),
{
    if s.unicode_len() <= 100 {
        s.to_owned()
    } else {
        s.substring_char(0, 100).to_owned()
    }
}

/// A time, or else how the certificate writes it.
pub open spec fn time_text(secs: i64, text: Seq<char>) -> Seq<char> {
    match rfc3339_text(secs) {
        Some(t) => t,
        None => text,
    }
}

fn shown_time(secs: i64, text: String) -> (r: String)
    ensures
        r@ == time_text(secs, text@),
{
    match write_time(secs) {
        Some(t) => t,
        None => text,
    }
}

/// What the certificate in a file says at a moment, or why it cannot be read.
pub open spec fn certificate(filename: Seq<char>, data: Seq<u8>, now: Moment) -> Result<
    CertV,
    Seq<char>,
> {
    match der_of(data) {
        Err(e) => Err(e),
        Ok(der) => match x509_read(der) {
            Err(e) => Err("x509 解析失败: "@ + e),
            Ok(x) => Ok(
                CertV {
                    thumbprint: thumbprint(der),
                    filename,
                    pem_preview: preview(lossy_text(data)),
                    subject: x.0,
                    issuer: x.1,
                    not_before: time_text(x.4, x.2),
                    not_after: time_text(x.5, x.3),
                    expired: x.5 * 1_000_000_000 < nanoseconds(now),
                    days_remaining: days_until(x.5, now) as i64,
                },
            ),
        },
    }
}

/// What the certificate in a file says at a moment, or why it cannot be read.
pub fn parse_file(filename: &str, data: &Vec<u8>, now: Moment) -> (r: Result<CertInfo, String>)
    requires
        now.nanos < 1_000_000_000,
    ensures
        match r {
            Ok(c) => certificate(filename@, data@, now) == Ok::<CertV, Seq<char>>(c@),
            Err(e) => certificate(filename@, data@, now) == Err::<CertV, Seq<char>>(e@),
        },
{
    let inner: Option<Vec<u8>> = if begins_as_pem(data) {
        match parse_pem(data) {
            Ok((_, contents)) => Some(contents),
            Err(e) => {
                return Err(e);
            },
        }
    } else {
        None
    };
    let der: &Vec<u8> = match &inner {
        Some(x) => x,
        None => data,
    };
    assert(der_of(data@) == Ok::<Seq<u8>, Seq<char>>(der@));
    let hash: Vec<u8> = digest(der);
    match parse_x509(der) {
        Err(e) => Err(cat2("x509 解析失败: ", e.as_str())),
        Ok((subject, issuer, begins, ends, begins_at, ends_at)) => {
            let text: String = lossy(data);
            let expired: bool = (ends_at as i128) * 1_000_000_000 < now.secs as i128
                * 1_000_000_000 + now.nanos as i128;
            Ok(
                CertInfo {
                    thumbprint: hex_text(hash.as_slice(), true),
                    filename: filename.to_owned(),
                    pem_preview: first_characters(text.as_str()),
                    subject,
                    issuer,
                    not_before: shown_time(begins_at, begins),
                    not_after: shown_time(ends_at, ends),
                    expired,
                    days_remaining: days_left(ends_at, now),
                },
            )
        },
    }
}

/// A certificate that has expired has no days left, and one that has days left has not expired.
pub proof fn expired_certificates_have_no_days_left(filename: Seq<char>, data: Seq<u8>, now: Moment)
    requires
        now.nanos < 1_000_000_000,
        certificate(filename, data, now) is Ok,
    ensures
        certificate(filename, data, now)->Ok_0.expired ==> certificate(
            filename,
            data,
            now,
        )->Ok_0.days_remaining <= 0,
        certificate(filename, data, now)->Ok_0.days_remaining < 0 ==> certificate(
            filename,
            data,
            now,
        )->Ok_0.expired,
{
    let der = der_of(data)->Ok_0;
    let ends = x509_read(der)->Ok_0.5;
    let diff = ends * 1_000_000_000 - nanoseconds(now);
    let days = days_until(ends, now);
    assert(-400_000_000_000_000 < days < 400_000_000_000_000);
}

// ---------------------------------------------------------------------------
// Files with certificates
// ---------------------------------------------------------------------------

/// A file that may hold a certificate.
#[derive(Debug, Clone, PartialEq)]
pub struct CertFile {
    pub name: String,
    pub extension: String,
    pub data: Vec<u8>,
}

/// Whether a file is named as one with a certificate.
pub open spec fn named_as_certificate(extension: Seq<char>) -> bool {
    extension == "pem"@ || extension == "der"@ || extension == "crt"@
}

/// The certificates in the first `n` of some files. Other files, and certificates that cannot be
/// read, are passed over.
pub open spec fn certificates_in(files: Seq<CertFile>, now: Moment, n: int) -> Seq<CertV>
    decreases n,
{
    if n <= 0 {
        Seq::empty()
    } else {
        let before = certificates_in(files, now, n - 1);
        let f = files[n - 1];
        match certificate(f.name@, f.data@, now) {
            Ok(c) if named_as_certificate(f.extension@) => before.push(c),
            _ => before,
        }
    }
}

/// What certificates are.
pub open spec fn certs_view(list: Seq<CertInfo>) -> Seq<CertV> {
    list.map_values(|c: CertInfo| c@)
}

/// The certificates in some files.
pub fn list(files: &Vec<CertFile>, now: Moment) -> (r: Vec<CertInfo>)
    requires
        now.nanos < 1_000_000_000,
    ensures
        certs_view(r@) == certificates_in(files@, now, files@.len() as int),
{
    let mut out: Vec<CertInfo> = Vec::new();
    assert(certs_view(out@) =~= Seq::<CertV>::empty());
    let mut i: usize = 0;
    while i < files.len()
        invariant
            i <= files.len(),
            now.nanos < 1_000_000_000,
            certs_view(out@) == certificates_in(files@, now, i as int),
        decreases files.len() - i,
    {
        let f: &CertFile = &files[i];
        let ext: &str = f.extension.as_str();
        if same_text(ext, "pem") || same_text(ext, "der") || same_text(ext, "crt") {
            match parse_file(f.name.as_str(), &f.data, now) {
                Ok(c) => {
                    let ghost before = certs_view(out@);
                    out.push(c);
                    assert(certs_view(out@) =~= before.push(c@));
                },
                Err(_) => {},
            }
        }
        i = i + 1;
    }
    out
}

/// The first of some file names, from place `i` on, that holds a text.
pub open spec fn name_with(names: Seq<Seq<char>>, part: Seq<char>, i: int) -> Option<int>
    decreases names.len() - i,
{
    if i < 0 || i >= names.len() {
        None
    } else if text_contains(names[i], part) {
        Some(i)
    } else {
        name_with(names, part, i + 1)
    }
}

/// A certificate that is to be trusted: its thumbprint, and the file to be written, if there is
/// none yet.
#[derive(Debug, Clone, PartialEq)]
pub struct Trusted {
    pub thumbprint: String,
    pub file: Option<(String, String)>,
}

/// The contents of a certificate that is given as text, or why it cannot be trusted.
pub open spec fn given_certificate(text: Seq<char>) -> Result<Seq<u8>, Seq<char>> {
    if text.len() == 0 {
        Err("PEM 不能为空"@)
    } else {
        match pem_read(encode_utf8(text)) {
            Err(e) => Err("PEM 解析失败: "@ + e),
            Ok(x) => if x.0 == "CERTIFICATE"@ {
                Ok(x.1)
            } else {
                Err("PEM tag 需为 CERTIFICATE，实际 "@ + x.0)
            },
        }
    }
}

/// Takes a certificate that is to be trusted. `names` are the names of the files with trusted
/// certificates: where one of them holds the thumbprint, nothing is to be written. A certificate
/// that was rejected is written like any other.
pub fn add_trusted(pem_text: &str, names: &Vec<String>) -> (r: Result<Trusted, String>)
    ensures
        match given_certificate(trimmed(pem_text@)) {
            Err(e) => r is Err && r->Err_0@ == e,
            Ok(der) => {
                &&& r is Ok
                &&& r->Ok_0.thumbprint@ == thumbprint(der)
                &&& match r->Ok_0.file {
                    Some(f) => {
                        &&& name_with(texts_view(names@), thumbprint(der), 0) is None
                        &&& f.0@ == thumbprint(der) + ".pem"@
                        &&& f.1@ == trimmed(pem_text@)
                    },
                    None => name_with(texts_view(names@), thumbprint(der), 0) is Some,
                }
            },
        },
{
    let text: String = trim(pem_text);
    if text.as_str().unicode_len() == 0 {
        return Err("PEM 不能为空".to_owned());
    }
    let bytes: Vec<u8> = text.as_str().as_bytes_vec();
    let (tag, der): (String, Vec<u8>) = match parse_pem(&bytes) {
        Ok(x) => x,
        Err(e) => {
            return Err(cat2("PEM 解析失败: ", e.as_str()));
        },
    };
    if !same_text(tag.as_str(), "CERTIFICATE") {
        return Err(cat2("PEM tag 需为 CERTIFICATE，实际 ", tag.as_str()));
    }
    let hash: Vec<u8> = digest(&der);
    let thumb: String = hex_text(hash.as_slice(), true);
    let ghost all = texts_view(names@);
    let mut i: usize = 0;
    while i < names.len()
        invariant
            i <= names.len(),
            all == texts_view(names@),
            thumb@ == thumbprint(der@),
            given_certificate(trimmed(pem_text@)) == Ok::<Seq<u8>, Seq<char>>(der@),
            name_with(all, thumb@, 0) == name_with(all, thumb@, i as int),
        decreases names.len() - i,
    {
        assert(all[i as int] == names@[i as int]@);
        if contains_text(names[i].as_str(), thumb.as_str()) {
            return Ok(Trusted { thumbprint: thumb, file: None });
        }
        i = i + 1;
    }
    let name: String = cat2(thumb.as_str(), ".pem");
    Ok(Trusted { thumbprint: thumb, file: Some((name, text)) })
}

proof fn lemma_certificates_pushed(files: Seq<CertFile>, f: CertFile, now: Moment, n: int)
    requires
        0 <= n <= files.len(),
    ensures
        certificates_in(files.push(f), now, n) == certificates_in(files, now, n),
    decreases n,
{
    if n > 0 {
        lemma_certificates_pushed(files, f, now, n - 1);
    }
}

proof fn lemma_name_with(names: Seq<Seq<char>>, part: Seq<char>, i: int, k: int)
    requires
        0 <= i <= k < names.len(),
        text_contains(names[k], part),
    ensures
        name_with(names, part, i) is Some,
    decreases k - i,
{
    if i < k && !text_contains(names[i], part) {
        lemma_name_with(names, part, i + 1, k);
    }
}

/// A certificate that was added is trusted: where the file that [`add_trusted`] asks for is
/// written next to those that are there, it is listed under its thumbprint after them, and they
/// are listed as before. To add it again writes nothing, so that the list stays as it is.
pub proof fn added_certificates_are_listed(
    text: Seq<char>,
    der: Seq<u8>,
    files: Seq<CertFile>,
    f: CertFile,
    now: Moment,
)
    requires
        given_certificate(text) == Ok::<Seq<u8>, Seq<char>>(der),
        is_pem(encode_utf8(text)),
        x509_read(der) is Ok,
        f.name@ == thumbprint(der) + ".pem"@,
        f.extension@ == "pem"@,
        f.data@ == encode_utf8(text),
    ensures
        ({
            let before = certificates_in(files, now, files.len() as int);
            let after = certificates_in(files.push(f), now, files.len() as int + 1);
            &&& after.len() == before.len() + 1
            &&& after.subrange(0, before.len() as int) == before
            &&& after.last().thumbprint == thumbprint(der)
        }),
        name_with(
            files.push(f).map_values(|f: CertFile| f.name@),
            thumbprint(der),
            0,
        ) is Some,
{
    let all = files.push(f);
    let before = certificates_in(files, now, files.len() as int);
    lemma_certificates_pushed(files, f, now, files.len() as int);
    assert(all[files.len() as int] == f);
    let c = certificate(f.name@, f.data@, now)->Ok_0;
    let after = certificates_in(all, now, files.len() as int + 1);
    assert(after == before.push(c));
    assert(after.subrange(0, before.len() as int) =~= before);
    let names = all.map_values(|f: CertFile| f.name@);
    let name = names[files.len() as int];
    assert(name.subrange(0, 0int + thumbprint(der).len()) =~= thumbprint(der));
    assert(text_contains(name, thumbprint(der)));
    lemma_name_with(names, thumbprint(der), 0, files.len() as int);
}

/// The place of the file that belongs to a thumbprint, small and capital letters being the same.
pub open spec fn file_of(names: Seq<Seq<char>>, thumb: Seq<char>) -> Option<int> {
    name_with(names.map_values(|n: Seq<char>| uppercased(n)), uppercased(thumb), 0)
}

/// The place of the file with the certificate that has a thumbprint: that which is no longer to be
/// trusted, or that which is to be trusted although it was rejected. The file that [`add_trusted`]
/// asks for is found by its thumbprint.
pub fn find_certificate(names: &Vec<String>, thumb: &str) -> (r: Option<usize>)
    ensures
        match r {
            Some(i) => file_of(texts_view(names@), thumb@) == Some(i as int) && i < names@.len(),
            None => file_of(texts_view(names@), thumb@) is None,
        },
        (exists|i: int, der: Seq<u8>|
            0 <= i < names@.len() && thumb@ == #[trigger] thumbprint(der) && (#[trigger] names@[i])@
                == thumbprint(der) + ".pem"@) ==> r is Some,
{
    let part: String = to_upper(thumb);
    let ghost all = texts_view(names@).map_values(|n: Seq<char>| uppercased(n));
    let mut i: usize = 0;
    while i < names.len()
        invariant
            i <= names.len(),
            part@ == uppercased(thumb@),
            all_ascii(thumb@) ==> part@ == thumb@.map_values(|c: char| capital(c)),
            all == texts_view(names@).map_values(|n: Seq<char>| uppercased(n)),
            name_with(all, part@, 0) == name_with(all, part@, i as int),
            forall|j: int, der: Seq<u8>|
                0 <= j < i && thumb@ == #[trigger] thumbprint(der) ==> (#[trigger] names@[j])@
                    != thumbprint(der) + ".pem"@,
        decreases names.len() - i,
    {
        assert(all[i as int] == uppercased(names@[i as int]@));
        let name: String = to_upper(names[i].as_str());
        if contains_text(name.as_str(), part.as_str()) {
            return Some(i);
        }
        proof {
            assert forall|der: Seq<u8>|
                thumb@ == #[trigger] thumbprint(der) implies names@[i as int]@ != thumbprint(der)
                + ".pem"@ by {
                if names@[i as int]@ == thumbprint(der) + ".pem"@ {
                    lemma_found(thumb@, names@[i as int]@, der);
                    assert(name@.subrange(0, 0int + part@.len()) =~= part@);
                    assert(text_contains(name@, part@));
                }
            }
        }
        i = i + 1;
    }
    None
}

proof fn lemma_hex_is_ascii(bytes: Seq<u8>)
    ensures
        all_ascii(hex(bytes, true)),
    decreases bytes.len(),
{
    if bytes.len() > 0 {
        lemma_hex_is_ascii(bytes.drop_last());
    }
}

proof fn lemma_found(thumb: Seq<char>, name: Seq<char>, der: Seq<u8>)
    requires
        thumb == thumbprint(der),
        name == thumb + ".pem"@,
    ensures
        all_ascii(thumb),
        all_ascii(name),
{
    reveal_strlit(".pem");
    lemma_hex_is_ascii(sha1_digest(der));
    assert forall|i: int| 0 <= i < name.len() implies (#[trigger] name[i]) as u32 <= 0x7f by {
        if i < thumb.len() {
            assert(name[i] == thumb[i]);
        }
    }
}

/// A file to be written.
#[derive(Debug, Clone, PartialEq)]
pub struct OwnFile {
    pub path: String,
    pub data: Vec<u8>,
}

/// The name that an own certificate is made for.
pub fn own_subject() -> (r: &'static str)
    ensures
        r@ == "Mesa-opcua"@,
{
    "Mesa-opcua"
}

/// The files of an own certificate, to be written in this order, for what came of making it: its
/// text, the text of its key and its bytes, or why there is none.
pub fn own_files(made: Result<(String, String, Vec<u8>), String>) -> (r: Result<
    Vec<OwnFile>,
    String,
>)
    ensures
        match made {
            Err(e) => r is Err && r->Err_0@ == e@,
            Ok(x) => {
                &&& r is Ok
                &&& r->Ok_0@.len() == 5
                &&& r->Ok_0@[0].path@ == "own/own.der"@
                &&& r->Ok_0@[0].data@ == x.2@
                &&& r->Ok_0@[1].path@ == "own/own.pem"@
                &&& r->Ok_0@[1].data@ == encode_utf8(x.0@)
                &&& r->Ok_0@[2].path@ == "own/own.key"@
                &&& r->Ok_0@[2].data@ == encode_utf8(x.1@)
                &&& r->Ok_0@[3].path@ == "own/cert.der"@
                &&& r->Ok_0@[3].data@ == x.2@
                &&& r->Ok_0@[4].path@ == "private/private.pem"@
                &&& r->Ok_0@[4].data@ == encode_utf8(x.1@)
            },
        },
{
    let (pem_text, key, der): (String, String, Vec<u8>) = match made {
        Ok(x) => x,
        Err(e) => {
            return Err(e);
        },
    };
    let mut files: Vec<OwnFile> = Vec::new();
    files.push(OwnFile { path: "own/own.der".to_owned(), data: copied(&der) });
    files.push(OwnFile { path: "own/own.pem".to_owned(), data: pem_text.as_str().as_bytes_vec() });
    files.push(OwnFile { path: "own/own.key".to_owned(), data: key.as_str().as_bytes_vec() });
    files.push(OwnFile { path: "own/cert.der".to_owned(), data: der });
    files.push(
        OwnFile { path: "private/private.pem".to_owned(), data: key.as_str().as_bytes_vec() },
    );
    Ok(files)
}

/// The files of an own certificate, as [`own_files`] gives them for a new one that is made for
/// [`own_subject`]: none where all of them are there already. The second file holds the certificate
/// of the first in the PEM format, and each of the three files with it can be listed.
pub fn ensure_own_cert(all_there: bool) -> (r: Result<Option<Vec<OwnFile>>, String>)
    ensures
        all_there ==> r == Ok::<Option<Vec<OwnFile>>, String>(None),
        !all_there && r is Ok ==> {
            &&& r->Ok_0 is Some
            &&& r->Ok_0->0@.len() == 5
            &&& r->Ok_0->0@[0].path@ == "own/own.der"@
            &&& r->Ok_0->0@[1].path@ == "own/own.pem"@
            &&& r->Ok_0->0@[2].path@ == "own/own.key"@
            &&& r->Ok_0->0@[3].path@ == "own/cert.der"@
            &&& r->Ok_0->0@[4].path@ == "private/private.pem"@
            &&& pem_read(r->Ok_0->0@[1].data@) == Ok::<(Seq<char>, Seq<u8>), Seq<char>>(
                ("CERTIFICATE"@, r->Ok_0->0@[0].data@),
            )
            &&& r->Ok_0->0@[3].data@ == r->Ok_0->0@[0].data@
            &&& r->Ok_0->0@[4].data@ == r->Ok_0->0@[2].data@
            &&& made_out_to(r->Ok_0->0@[0].data@) == "Mesa-opcua"@
            &&& forall|filename: Seq<char>, now: Moment|
                {
                    &&& #[trigger] certificate(filename, r->Ok_0->0@[0].data@, now) is Ok
                    &&& certificate(filename, r->Ok_0->0@[1].data@, now) is Ok
                    &&& certificate(filename, r->Ok_0->0@[3].data@, now) is Ok
                }
        },
{
    if all_there {
        return Ok(None);
    }
    proof {
        reveal_strlit("Mesa-opcua");
        assert(plain_name("Mesa-opcua"@));
    }
    match own_files(self_signed(own_subject())) {
        Ok(files) => Ok(Some(files)),
        Err(e) => Err(e),
    }
}

fn copied(bytes: &Vec<u8>) -> (r: Vec<u8>)
    ensures
        r@ == bytes@,
{
    let mut out: Vec<u8> = Vec::new();
    let mut i: usize = 0;
    while i < bytes.len()
        invariant
            i <= bytes.len(),
            out@ == bytes@.subrange(0, i as int),
        decreases bytes.len() - i,
    {
        out.push(bytes[i]);
        assert(out@ =~= bytes@.subrange(0, i + 1));
        i = i + 1;
    }
    assert(out@ =~= bytes@);
    out
}

// ---------------------------------------------------------------------------
// Requests
// ---------------------------------------------------------------------------

/// A certificate as a value.
pub open spec fn cert_value(c: CertV) -> JsonV {
    JsonV::Object(
        seq![
            ("days_remaining"@, integer_value(c.days_remaining)),
            ("expired"@, JsonV::Bool(c.expired)),
            ("filename"@, JsonV::String(c.filename)),
            ("issuer"@, JsonV::String(c.issuer)),
            ("not_after"@, JsonV::String(c.not_after)),
            ("not_before"@, JsonV::String(c.not_before)),
            ("pem_preview"@, JsonV::String(c.pem_preview)),
            ("subject"@, JsonV::String(c.subject)),
            ("thumbprint"@, JsonV::String(c.thumbprint)),
        ],
    )
}

/// Certificates as a value.
pub open spec fn certs_value(list: Seq<CertV>) -> JsonV {
    JsonV::Array(list.map_values(|c: CertV| cert_value(c)))
}

impl CertInfo {
    pub fn to_json(&self) -> (r: Json)
        ensures
            r@ == cert_value(self@),
    {
        broadcast use lemma_json_view;

        let mut o: Vec<(String, Json)> = Vec::new();
        put(&mut o, "days_remaining", integer_json(self.days_remaining));
        put(&mut o, "expired", truth_json(self.expired));
        put(&mut o, "filename", text_json(self.filename.as_str()));
        put(&mut o, "issuer", text_json(self.issuer.as_str()));
        put(&mut o, "not_after", text_json(self.not_after.as_str()));
        put(&mut o, "not_before", text_json(self.not_before.as_str()));
        put(&mut o, "pem_preview", text_json(self.pem_preview.as_str()));
        put(&mut o, "subject", text_json(self.subject.as_str()));
        put(&mut o, "thumbprint", text_json(self.thumbprint.as_str()));
        assert(entries_view(o@) =~= cert_value(self@)->Object_0);
        Json::Object(o)
    }
}

fn certs_json(list: &Vec<CertInfo>) -> (r: Json)
    ensures
        r@ == certs_value(certs_view(list@)),
{
    let mut items: Vec<Json> = Vec::new();
    let mut i: usize = 0;
    while i < list.len()
        invariant
            i <= list.len(),
            items@.len() == i,
            forall|j: int| 0 <= j < i ==> (#[trigger] items@[j])@ == cert_value(list@[j]@),
        decreases list.len() - i,
    {
        items.push(list[i].to_json());
        i = i + 1;
    }
    assert(items_view(items@) =~= certs_view(list@).map_values(|c: CertV| cert_value(c)));
    list_json(items)
}

/// Whether there is such a store of certificates.
pub open spec fn is_store(name: Seq<char>) -> bool {
    name == "own"@ || name == "trusted"@ || name == "issuers"@ || name == "rejected"@
}

/// The answer to a request for the certificates of a store, by what the files gave.
pub open spec fn store_listing(name: Seq<char>, found: Result<Seq<CertV>, Seq<char>>) -> ReplyV {
    if !is_store(name) {
        error_reply(400, "VALIDATION_ERROR"@, "store 需为 own/trusted/issuers/rejected"@)
    } else {
        match found {
            Ok(list) => ReplyV {
                status: 200,
                body: JsonV::Object(
                    seq![
                        ("certs"@, certs_value(list)),
                        ("count"@, count_value(list.len() as u64)),
                        ("store"@, JsonV::String(name)),
                    ],
                ),
            },
            Err(e) => error_reply(500, "INTERNAL"@, e),
        }
    }
}

/// The answer to a request for the certificates of a store.
pub fn list_cert_store(name: &str, found: Result<Vec<CertInfo>, String>) -> (r: ApiResponse)
    ensures
        r@ == store_listing(
            name@,
            match found {
                Ok(l) => Ok(certs_view(l@)),
                Err(e) => Err(e@),
            },
        ),
{
    if !(same_text(name, "own") || same_text(name, "trusted") || same_text(name, "issuers")
        || same_text(name, "rejected")) {
        return complain(400, "VALIDATION_ERROR", "store 需为 own/trusted/issuers/rejected");
    }
    match found {
        Ok(l) => {
            assert(certs_view(l@).len() == l@.len());
            let count: u64 = l.len() as u64;
            reply(
                200,
                object3(
                    "certs",
                    certs_json(&l),
                    "count",
                    count_json(count),
                    "store",
                    text_json(name),
                ),
            )
        },
        Err(e) => complain(500, "INTERNAL", e.as_str()),
    }
}

/// The refusal of a certificate that is blank.
pub fn blank_certificate(pem_text: &str) -> (r: Option<ApiResponse>)
    ensures
        match r {
            Some(e) => blank(pem_text@) && e@ == error_reply(
                400,
                "VALIDATION_ERROR"@,
                "pem 不能为空"@,
            ),
            None => !blank(pem_text@),
        },
{
    if is_blank(pem_text) {
        Some(complain(400, "VALIDATION_ERROR", "pem 不能为空"))
    } else {
        None
    }
}

/// The answer to a request to trust a certificate, by its thumbprint or by what is wrong with it.
pub fn add_trusted_cert(outcome: Result<String, String>) -> (r: ApiResponse)
    ensures
        match outcome {
            Ok(t) => r@ == (ReplyV {
                status: 201,
                body: JsonV::Object(seq![("thumbprint"@, JsonV::String(t@))]),
            }),
            Err(e) => r@ == error_reply(400, "INVALID_CERT"@, e@),
        },
{
    match outcome {
        Ok(t) => reply(201, object1("thumbprint", text_json(t.as_str()))),
        Err(e) => complain(400, "INVALID_CERT", e.as_str()),
    }
}

/// The answer to a request to trust a certificate no longer.
pub fn remove_trusted_cert(thumb: &str, outcome: Result<bool, String>) -> (r: ApiResponse)
    ensures
        match outcome {
            Ok(true) => r@ == (ReplyV {
                status: 200,
                body: JsonV::Object(seq![("deleted"@, JsonV::String(thumb@))]),
            }),
            Ok(false) => r@ == error_reply(
                404,
                "NOT_FOUND"@,
                "证书 "@ + thumb@ + " 不存在"@,
            ),
            Err(e) => r@ == error_reply(500, "INTERNAL"@, e@),
        },
{
    match outcome {
        Ok(true) => reply(200, object1("deleted", text_json(thumb))),
        Ok(false) => complain(404, "NOT_FOUND", cat3("证书 ", thumb, " 不存在").as_str()),
        Err(e) => complain(500, "INTERNAL", e.as_str()),
    }
}

/// The answer to a request to trust a certificate that was rejected.
pub fn trust_rejected_cert(thumb: &str, outcome: Result<bool, String>) -> (r: ApiResponse)
    ensures
        match outcome {
            Ok(true) => r@ == (ReplyV {
                status: 200,
                body: JsonV::Object(seq![("trusted"@, JsonV::String(thumb@))]),
            }),
            Ok(false) => r@ == error_reply(
                404,
                "NOT_FOUND"@,
                "rejected 证书 "@ + thumb@ + " 不存在"@,
            ),
            Err(e) => r@ == error_reply(500, "INTERNAL"@, e@),
        },
{
    match outcome {
        Ok(true) => reply(200, object1("trusted", text_json(thumb))),
        Ok(false) => complain(404, "NOT_FOUND", cat3("rejected 证书 ", thumb, " 不存在").as_str()),
        Err(e) => complain(500, "INTERNAL", e.as_str()),
    }
}

/// How many of some certificates have expired.
pub open spec fn expired_among(list: Seq<CertV>) -> nat
    decreases list.len(),
{
    if list.len() == 0 {
        0
    } else {
        expired_among(list.drop_last()) + if list.last().expired {
            1nat
        } else {
            0nat
        }
    }
}

/// How the certificates of a store are doing.
pub open spec fn store_diagnosis(list: Seq<CertV>) -> JsonV {
    JsonV::Object(
        seq![
            ("certs"@, certs_value(list)),
            ("count"@, count_value(list.len() as u64)),
            ("expired"@, count_value(expired_among(list) as u64)),
        ],
    )
}

fn diagnose(list: &Vec<CertInfo>) -> (r: Json)
    ensures
        r@ == store_diagnosis(certs_view(list@)),
{
    let ghost all = certs_view(list@);
    let mut n: u64 = 0;
    let mut i: usize = 0;
    while i < list.len()
        invariant
            i <= list.len(),
            n <= i,
            all == certs_view(list@),
            n == expired_among(all.subrange(0, i as int)),
        decreases list.len() - i,
    {
        let ghost part = all.subrange(0, i + 1);
        assert(part.drop_last() =~= all.subrange(0, i as int));
        assert(part.last() == list@[i as int]@);
        if list[i].expired {
            n = n + 1;
        }
        i = i + 1;
    }
    assert(all.subrange(0, list@.len() as int) =~= all);
    let count: u64 = list.len() as u64;
    object3("certs", certs_json(list), "count", count_json(count), "expired", count_json(n))
}

/// How the certificates of all stores are doing.
pub fn diagnostics(
    own: &Vec<CertInfo>,
    trusted: &Vec<CertInfo>,
    issuers: &Vec<CertInfo>,
    rejected: &Vec<CertInfo>,
) -> (r: Json)
    ensures
        r@ == JsonV::Object(
            seq![
                ("issuers"@, store_diagnosis(certs_view(issuers@))),
                ("own"@, store_diagnosis(certs_view(own@))),
                ("rejected"@, store_diagnosis(certs_view(rejected@))),
                ("trusted"@, store_diagnosis(certs_view(trusted@))),
            ],
        ),
{
    object4(
        "issuers",
        diagnose(issuers),
        "own",
        diagnose(own),
        "rejected",
        diagnose(rejected),
        "trusted",
        diagnose(trusted),
    )
}

/// Time is counted in nanoseconds, and days in whole ones, towards zero.
pub proof fn days_are_counted_towards_zero(secs: i64, now: Moment, n: int)
    ensures
        nanoseconds(now) == now.secs * 1_000_000_000 + now.nanos,
        n >= 0 ==> whole(n, 86_400) == n / 86_400,
        n < 0 ==> whole(n, 86_400) == -((-n) / 86_400),
        ({
            let left = secs * 1_000_000_000 - nanoseconds(now);
            let d = days_until(secs, now);
            &&& left >= 0 ==> d * 86_400_000_000_000 <= left < (d + 1) * 86_400_000_000_000
            &&& left < 0 ==> (d - 1) * 86_400_000_000_000 < left <= d * 86_400_000_000_000
        }),
{
}

/// What is told of a certificate: its print, its names and its times, that it is expired exactly
/// where its end lies before now, and how many days it has left.
pub proof fn certificates_are_told_field_by_field(filename: Seq<char>, data: Seq<u8>, now: Moment)
    ensures
        der_of(data) matches Err(e) ==> certificate(filename, data, now) is Err,
        der_of(data) matches Ok(der) ==> (certificate(filename, data, now) is Ok <==> x509_read(der)
            is Ok),
        certificate(filename, data, now) matches Ok(c) ==> {
            let der = der_of(data)->Ok_0;
            let x = x509_read(der)->Ok_0;
            &&& c.filename == filename
            &&& c.thumbprint == hex(sha1_digest(der), true)
            &&& c.subject == x.0
            &&& c.issuer == x.1
            &&& c.not_before == time_text(x.4, x.2)
            &&& c.not_after == time_text(x.5, x.3)
            &&& c.expired <==> x.5 * 1_000_000_000 < now.secs * 1_000_000_000 + now.nanos
            &&& c.days_remaining == days_until(x.5, now) as i64
        },
{
}

/// A certificate that begins like a text is read as one, any other as it is.
pub proof fn certificates_are_texts_or_bytes(data: Seq<u8>)
    ensures
        is_pem(data) <==> encode_utf8("-----BEGIN"@).is_prefix_of(data),
        !is_pem(data) ==> der_of(data) == Ok::<Seq<u8>, Seq<char>>(data),
        is_pem(data) ==> (pem_read(data) matches Ok(x) ==> der_of(data) == Ok::<
            Seq<u8>,
            Seq<char>,
        >(x.1)),
        is_pem(data) ==> (pem_read(data) is Err ==> der_of(data) is Err),
{
    let mark = encode_utf8("-----BEGIN"@);
    if mark.is_prefix_of(data) {
        assert(data.subrange(0, mark.len() as int) =~= mark);
    }
    if is_pem(data) {
        assert(mark.is_prefix_of(data));
    }
}

/// At most the first hundred characters are shown of a certificate.
pub proof fn certificates_are_shown_in_part(s: Seq<char>)
    ensures
        preview(s).len() <= 100,
        s.len() <= 100 ==> preview(s) == s,
        preview(s).is_prefix_of(s),
        s.len() > 100 ==> preview(s).len() == 100,
{
    if s.len() > 100 {
        assert(preview(s) =~= s.subrange(0, preview(s).len() as int));
    } else {
        assert(s =~= s.subrange(0, s.len() as int));
    }
}

/// The files that are looked at are those with one of three endings, and of these all that hold a
/// certificate are listed.
pub proof fn files_with_certificates_are_listed(files: Seq<CertFile>, now: Moment, n: int)
    requires
        0 < n <= files.len(),
    ensures
        certificates_in(files, now, 0).len() == 0,
        ({
            let f = files[n - 1];
            let looked = f.extension@ == "pem"@ || f.extension@ == "der"@ || f.extension@
                == "crt"@;
            let before = certificates_in(files, now, n - 1);
            &&& looked && certificate(f.name@, f.data@, now) is Ok ==> certificates_in(
                files,
                now,
                n,
            ) == before.push(certificate(f.name@, f.data@, now)->Ok_0)
            &&& !looked || certificate(f.name@, f.data@, now) is Err ==> certificates_in(
                files,
                now,
                n,
            ) == before
        }),
{
}

/// What is given as a certificate is taken exactly where it is a text of that kind.
pub proof fn certificates_are_taken_as_text(text: Seq<char>)
    ensures
        given_certificate(text) is Ok <==> (text.len() > 0 && (pem_read(encode_utf8(text)) matches Ok(
            x,
        ) && x.0 == "CERTIFICATE"@)),
        given_certificate(text) matches Ok(d) ==> d == pem_read(encode_utf8(text))->Ok_0.1,
{
}

/// A file is found by its print: the first whose name has it in it.
pub proof fn files_are_found_by_part_of_their_name(
    names: Seq<Seq<char>>,
    part: Seq<char>,
    i: int,
)
    requires
        0 <= i <= names.len(),
    ensures
        name_with(names, part, i) matches Some(k) ==> i <= k < names.len() && text_contains(
            names[k],
            part,
        ) && forall|j: int| i <= j < k ==> !text_contains(#[trigger] names[j], part),
        name_with(names, part, i) is None <==> forall|j: int|
            i <= j < names.len() ==> !text_contains(#[trigger] names[j], part),
    decreases names.len() - i,
{
    if i < names.len() && !text_contains(names[i], part) {
        files_are_found_by_part_of_their_name(names, part, i + 1);
    }
}

/// There are four places for certificates; any other is refused, and what they hold is told with
/// how many they are.
pub proof fn certificates_lie_in_four_places(
    name: Seq<char>,
    found: Result<Seq<CertV>, Seq<char>>,
)
    ensures
        is_store(name) <==> name == "own"@ || name == "trusted"@ || name == "issuers"@ || name
            == "rejected"@,
        !is_store(name) ==> store_listing(name, found).status == 400,
        is_store(name) && found is Err ==> store_listing(name, found).status == 500,
        is_store(name) && found is Ok ==> store_listing(name, found).status == 200 && (
        store_listing(name, found).body matches JsonV::Object(o) && o.len() == 3 && o[0] == (
            "certs"@,
            certs_value(found->Ok_0),
        ) && o[1] == ("count"@, JsonV::Number(JsonNumber::PosInt(found->Ok_0.len() as u64)))
            && o[2] == ("store"@, JsonV::String(name))),
{
}

/// A certificate is shown field by field.
pub proof fn certificates_are_shown_field_by_field(c: CertV)
    ensures
        cert_value(c) matches JsonV::Object(o) && {
            &&& o.len() == 9
            &&& o[0] == ("days_remaining"@, integer_value(c.days_remaining))
            &&& o[1] == ("expired"@, JsonV::Bool(c.expired))
            &&& o[2] == ("filename"@, JsonV::String(c.filename))
            &&& o[3] == ("issuer"@, JsonV::String(c.issuer))
            &&& o[4] == ("not_after"@, JsonV::String(c.not_after))
            &&& o[5] == ("not_before"@, JsonV::String(c.not_before))
            &&& o[6] == ("pem_preview"@, JsonV::String(c.pem_preview))
            &&& o[7] == ("subject"@, JsonV::String(c.subject))
            &&& o[8] == ("thumbprint"@, JsonV::String(c.thumbprint))
        },
{
}

/// The certificates that are expired are counted.
pub proof fn expired_certificates_are_counted(list: Seq<CertV>, c: CertV)
    ensures
        expired_among(Seq::empty()) == 0,
        c.expired ==> expired_among(list.push(c)) == expired_among(list) + 1,
        !c.expired ==> expired_among(list.push(c)) == expired_among(list),
{
    assert(list.push(c).drop_last() =~= list);
}

/// Small letters are made capital, and nothing else is changed; a plain name has no more than 63
/// characters, all letters, digits or hyphens.
pub proof fn names_are_plain_when_they_have_letters_only(c: char, s: Seq<char>)
    ensures
        'a' <= c <= 'z' ==> capital(c) as int == c as int - 32,
        !('a' <= c <= 'z') ==> capital(c) == c,
        plain_name(s) <==> (0 < s.len() <= 63 && forall|i: int|
            0 <= i < s.len() ==> ('a' <= #[trigger] s[i] <= 'z' || 'A' <= s[i] <= 'Z' || '0' <= s[i]
                <= '9' || s[i] == '-')),
{
}

/// What a place holds is told with how many certificates it has and how many are expired.
pub proof fn places_are_diagnosed_with_what_is_expired(list: Seq<CertV>)
    requires
        list.len() <= u64::MAX,
    ensures
        store_diagnosis(list) matches JsonV::Object(o) && o.len() == 3 && o[0] == (
            "certs"@,
            certs_value(list),
        ) && o[1] == ("count"@, JsonV::Number(JsonNumber::PosInt(list.len() as u64))) && o[2] == (
            "expired"@,
            JsonV::Number(JsonNumber::PosInt(expired_among(list) as u64)),
        ),
        certs_value(list) matches JsonV::Array(a) && a.len() == list.len() && forall|i: int|
            0 <= i < a.len() ==> #[trigger] a[i] == cert_value(list[i]),
{
}

} // verus!
