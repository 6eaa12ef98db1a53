use mesa::certificates::{
    add_trusted, add_trusted_cert, blank_certificate, diagnostics, ensure_own_cert,
    find_certificate, list, list_cert_store, own_files, own_subject, parse_file, remove_trusted_cert, trust_rejected_cert,
    CertFile, Moment, OwnFile,
};

fn now(secs: i64) -> Moment {
    Moment { secs, nanos: 0 }
}

fn own() -> Vec<OwnFile> {
    ensure_own_cert(false).unwrap().unwrap()
}

fn file(f: &OwnFile) -> CertFile {
    let name = f.path.rsplit('/').next().unwrap().to_string();
    let extension = name.rsplit('.').next().unwrap().to_string();
    CertFile { name, extension, data: f.data.clone() }
}

fn pem_text(files: &[OwnFile]) -> String {
    String::from_utf8(files[1].data.clone()).unwrap()
}

#[test]
fn cert_store_list_empty() {
    assert_eq!(list(&Vec::new(), now(0)).len(), 0);
}

#[test]
fn ensure_own_generates() {
    let created = ensure_own_cert(false).unwrap();
    assert!(created.is_some());
    let created2 = ensure_own_cert(true).unwrap();
    assert!(created2.is_none());
    let files: Vec<CertFile> = created.unwrap().iter().take(4).map(file).collect();
    let found = list(&files, now(0));
    assert!(!found.is_empty());
    // The key is no certificate; the other three files say the same.
    assert_eq!(found.len(), 3);
    assert_eq!(found[0].thumbprint, found[1].thumbprint);
}

#[test]
fn own_files_hold_what_was_made() {
    assert_eq!(own_subject(), "Mesa-opcua");
    let made = Ok(("pem".to_string(), "key".to_string(), vec![1, 2]));
    let files = own_files(made).unwrap();
    let held: Vec<(&str, &[u8])> =
        files.iter().map(|f| (f.path.as_str(), f.data.as_slice())).collect();
    assert_eq!(
        held,
        vec![
            ("own/own.der", [1, 2].as_slice()),
            ("own/own.pem", b"pem".as_slice()),
            ("own/own.key", b"key".as_slice()),
            ("own/cert.der", [1, 2].as_slice()),
            ("private/private.pem", b"key".as_slice()),
        ]
    );
    assert_eq!(own_files(Err("no key".to_string())).unwrap_err(), "no key");
}

#[test]
fn add_and_remove_trusted() {
    let files = own();
    let pem = pem_text(&files);
    let t = add_trusted(&pem, &Vec::new()).unwrap();
    assert!(!t.thumbprint.is_empty());
    let (name, text) = t.file.unwrap();
    let stored = CertFile {
        name: name.clone(),
        extension: "pem".to_string(),
        data: text.into_bytes(),
    };
    let trusted = list(&vec![stored], now(0));
    assert_eq!(trusted.len(), 1);
    assert_eq!(trusted[0].thumbprint, t.thumbprint);
    let names = vec!["other.pem".to_string(), name];
    assert_eq!(find_certificate(&names, &t.thumbprint), Some(1));
    assert_eq!(find_certificate(&names, &t.thumbprint.to_lowercase()), Some(1));
    assert_eq!(find_certificate(&vec!["other.pem".to_string()], &t.thumbprint), None);
    // It comes after those that were there, which stay as they are.
    let first = file(&files[0]);
    let added = CertFile {
        name: names[1].clone(),
        extension: "pem".to_string(),
        data: pem.trim().as_bytes().to_vec(),
    };
    let before = list(&vec![first.clone()], now(0));
    let after = list(&vec![first, added], now(0));
    assert_eq!((after.len(), &after[0]), (2, &before[0]));
    assert_eq!(after[1].thumbprint, t.thumbprint);
    // One that is there already is not written again.
    let again = add_trusted(&pem, &names).unwrap();
    assert_eq!(again.thumbprint, t.thumbprint);
    assert!(again.file.is_none());
}

#[test]
fn only_certificates_are_trusted() {
    assert_eq!(add_trusted("  ", &Vec::new()).unwrap_err(), "PEM 不能为空");
    assert!(add_trusted("abc", &Vec::new()).unwrap_err().starts_with("PEM 解析失败: "));
    let key = String::from_utf8(own()[2].data.clone()).unwrap();
    assert_eq!(
        add_trusted(&key, &Vec::new()).unwrap_err(),
        "PEM tag 需为 CERTIFICATE，实际 PRIVATE KEY"
    );
}

#[test]
fn certificates_say_when_they_expire() {
    let files = own();
    let c = parse_file("own.der", &files[0].data, now(0)).unwrap();
    assert_eq!(c.thumbprint.len(), 40);
    assert_eq!(c.filename, "own.der");
    assert_eq!(c.subject, "CN=rcgen self signed cert");
    assert_eq!(c.not_before, "1975-01-01T00:00:00+00:00");
    assert_eq!(c.not_after, "4096-01-01T00:00:00+00:00");
    assert!(!c.expired);
    // The days from 1970 to 4096.
    assert_eq!(c.days_remaining, 776_506);
    let end = 776_506 * 86_400;
    let late = parse_file("own.der", &files[0].data, now(end + 1)).unwrap();
    assert!(late.expired);
    assert_eq!(late.days_remaining, 0);
    let later = parse_file("own.der", &files[0].data, now(end + 3 * 86_400)).unwrap();
    assert_eq!(later.days_remaining, -3);
    let pem = parse_file("own.pem", &files[1].data, now(0)).unwrap();
    assert!(pem.pem_preview.starts_with("-----BEGIN CERTIFICATE-----"));
    assert_eq!(pem.pem_preview.chars().count(), 100);
    let bad = parse_file("x.der", &vec![1, 2, 3], now(0)).unwrap_err();
    assert!(bad.starts_with("x509 解析失败: "));
    assert!(parse_file("x.pem", &b"-----BEGIN nothing".to_vec(), now(0)).is_err());
}

#[test]
fn files_that_are_not_named_as_certificates_are_passed_over() {
    let mut f = file(&own()[0]);
    f.extension = "txt".to_string();
    assert!(list(&vec![f], now(0)).is_empty());
}

#[test]
fn requests_for_certificates_are_answered() {
    assert_eq!(list_cert_store("keys", Ok(Vec::new())).status, 400);
    let r = list_cert_store("trusted", Ok(Vec::new()));
    assert_eq!(r.body.to_text(), r#"{"certs":[],"count":0,"store":"trusted"}"#);
    assert_eq!(list_cert_store("own", Err("disk".to_string())).status, 500);
    assert_eq!(blank_certificate(" \n").unwrap().status, 400);
    assert!(blank_certificate("x").is_none());
    assert_eq!(add_trusted_cert(Ok("AB".to_string())).status, 201);
    assert_eq!(
        add_trusted_cert(Err("bad".to_string())).body.to_text(),
        r#"{"error":{"code":"INVALID_CERT","message":"bad"}}"#
    );
    assert_eq!(remove_trusted_cert("AB", Ok(true)).body.to_text(), r#"{"deleted":"AB"}"#);
    assert_eq!(remove_trusted_cert("AB", Ok(false)).status, 404);
    assert_eq!(remove_trusted_cert("AB", Err("x".to_string())).status, 500);
    assert_eq!(trust_rejected_cert("AB", Ok(true)).body.to_text(), r#"{"trusted":"AB"}"#);
    assert_eq!(trust_rejected_cert("AB", Ok(false)).status, 404);
}

#[test]
fn expired_certificates_are_counted() {
    let c = parse_file("own.der", &own()[0].data, now(i64::MAX / 2)).unwrap();
    let d = diagnostics(&vec![c], &Vec::new(), &Vec::new(), &Vec::new());
    let own = d.get("own").unwrap();
    assert_eq!(own.get("count").unwrap().to_text(), "1");
    assert_eq!(own.get("expired").unwrap().to_text(), "1");
    assert_eq!(d.get("trusted").unwrap().get("count").unwrap().to_text(), "0");
}
