//! Connections: what is wrong with one, and where its secrets go.
use vstd::prelude::*;

use crate::api::{complain, error_reply, object1, store_err_to_response, store_reply, truth_json, ApiResponse, ReplyV};
use crate::json::{
    entries_view, entry, entry_keys, json_parsed, json_text, lemma_json_view, object_get,
    object_get_found, object_set, object_set_in_place, other_keys_are_written_as_objects, plain,
    plain_entries_one_by_one, set_entry, Json, JsonV,
};
use crate::schema::{
    instance_issues, issue, issues_view, FieldDescriptor, FieldType, IssueV, SchemaDescriptor,
    ValidationIssue,
};
use crate::secrets::{draw_nonce, drawn_view, draws_nonce, sealing};
use crate::store::{
    broken_reference, pairs_view, rows_for, secret_kept, secret_put, secret_read, store_ok,
    ConfigStore, SealedV, StoreError, StoreFault, StoreV,
};
use crate::table::{ascending, ordered_keys};
use crate::text::{cat3, cat5, same_text, text_before, texts_contain, texts_hold, texts_view};
use crate::types::now_unix_ns;

verus! {

// ---------------------------------------------------------------------------
// What is wrong with a connection
// ---------------------------------------------------------------------------

/// Everything that is wrong with a connection, by the one validator of schemas.
pub fn validate_connection_against_schema(schema: &SchemaDescriptor, conn: &Json) -> (r: Vec<
    ValidationIssue,
>)
    ensures
        issues_view(r@) == instance_issues(schema.fields@, "connection"@, conn@),
{
    schema.validate_instance("connection", conn)
}

// ---------------------------------------------------------------------------
// Secrets in a connection
// ---------------------------------------------------------------------------

/// The keys of the fields that hold secrets.
pub open spec fn secret_keys(fields: Seq<FieldDescriptor>) -> Seq<Seq<char>>
    decreases fields.len(),
{
    if fields.len() == 0 {
        Seq::empty()
    } else if fields.last().field_type is Secret {
        secret_keys(fields.drop_last()).push(fields.last().key@)
    } else {
        secret_keys(fields.drop_last())
    }
}

pub fn secret_field_keys(schema: &SchemaDescriptor) -> (r: Vec<String>)
    ensures
        texts_view(r@) == secret_keys(schema.fields@),
{
    let mut out: Vec<String> = Vec::new();
    assert(texts_view(out@) =~= Seq::<Seq<char>>::empty());
    let mut i: usize = 0;
    while i < schema.fields.len()
        invariant
            i <= schema.fields.len(),
            texts_view(out@) == secret_keys(schema.fields@.subrange(0, i as int)),
        decreases schema.fields.len() - i,
    {
        let ghost part = schema.fields@.subrange(0, i + 1);
        assert(part.drop_last() =~= schema.fields@.subrange(0, i as int));
        let ghost before = texts_view(out@);
        let f: &FieldDescriptor = &schema.fields[i];
        match f.field_type {
            FieldType::Secret => {
                out.push(f.key.clone());
                assert(texts_view(out@) =~= before.push(f.key@));
            },
            _ => {},
        }
        i = i + 1;
    }
    assert(schema.fields@.subrange(0, schema.fields@.len() as int) =~= schema.fields@);
    out
}

/// What stands in a connection for a secret that is kept elsewhere.
pub open spec fn marker() -> JsonV {
    JsonV::Object(seq![("secret_set"@, JsonV::Bool(true))])
}

/// Whether a value stands for a secret that is kept elsewhere.
pub open spec fn is_marker(v: JsonV) -> bool {
    v matches JsonV::Object(o) && object_get(o, "secret_set"@) == Some(JsonV::Bool(true))
}

/// What stands for a secret is known as such.
pub proof fn marker_is_a_marker()
    ensures
        is_marker(marker()),
{
    reveal_with_fuel(object_get, 2);
}

pub fn is_secret_marker(v: &Json) -> (r: bool)
    ensures
        r == is_marker(v@),
{
    broadcast use lemma_json_view;

    match v.get("secret_set") {
        Some(Json::Bool(b)) => *b,
        _ => false,
    }
}

fn secret_marker() -> (r: Json)
    ensures
        r@ == marker(),
{
    object1("secret_set", truth_json(true))
}

/// The text under a key, if a text stands there.
pub open spec fn text_under(o: Seq<(Seq<char>, JsonV)>, key: Seq<char>) -> Option<Seq<char>> {
    match object_get(o, key) {
        Some(JsonV::String(s)) => Some(s),
        _ => None,
    }
}

fn text_of<'a>(o: &'a Vec<(String, Json)>, key: &str) -> (r: Option<&'a String>)
    ensures
        match r {
            Some(s) => text_under(entries_view(o@), key@) == Some(s@),
            None => text_under(entries_view(o@), key@) is None,
        },
{
    broadcast use lemma_json_view;

    match entry(o, key) {
        Some(Json::String(s)) => Some(s),
        _ => None,
    }
}

/// Whether what stands under a key stands for a secret.
pub open spec fn marker_under(o: Seq<(Seq<char>, JsonV)>, key: Seq<char>) -> bool {
    object_get(o, key) matches Some(v) && is_marker(v)
}

fn has_marker(o: &Vec<(String, Json)>, key: &str) -> (r: bool)
    ensures
        r == marker_under(entries_view(o@), key@),
{
    match entry(o, key) {
        Some(v) => is_secret_marker(v),
        None => false,
    }
}

// ---------------------------------------------------------------------------
// Showing a connection
// ---------------------------------------------------------------------------

/// A connection with the first `n` of its secrets hidden: those that are kept, and those that
/// still stand there as texts.
pub open spec fn redacted(
    s: StoreV,
    endpoint: Seq<char>,
    o: Seq<(Seq<char>, JsonV)>,
    keys: Seq<Seq<char>>,
    n: int,
) -> Seq<(Seq<char>, JsonV)>
    decreases n,
{
    if n <= 0 {
        o
    } else {
        let before = redacted(s, endpoint, o, keys, n - 1);
        if secret_read(s, endpoint, keys[n - 1]) matches Ok(Some(t)) {
            object_set(before, keys[n - 1], marker())
        } else if text_under(before, keys[n - 1]) is Some {
            object_set(before, keys[n - 1], marker())
        } else {
            before
        }
    }
}

/// A connection with its secrets hidden.
pub open spec fn redacted_value(
    s: StoreV,
    endpoint: Seq<char>,
    v: JsonV,
    keys: Seq<Seq<char>>,
) -> JsonV {
    match v {
        JsonV::Object(o) => JsonV::Object(redacted(s, endpoint, o, keys, keys.len() as int)),
        _ => v,
    }
}

pub fn redact_connection_for_response(
    conn: Json,
    endpoint_id: &str,
    store: &ConfigStore,
    secret_keys: &Vec<String>,
) -> (r: Json)
    requires
        store_ok(store@),
    ensures
        r@ == redacted_value(store@, endpoint_id@, conn@, texts_view(secret_keys@)),
{
    broadcast use lemma_json_view;

    let ghost keys = texts_view(secret_keys@);
    match conn {
        Json::Object(entries) => {
            let ghost o = entries_view(entries@);
            let mut entries: Vec<(String, Json)> = entries;
            let mut i: usize = 0;
            while i < secret_keys.len()
                invariant
                    i <= secret_keys.len(),
                    store_ok(store@),
                    keys == texts_view(secret_keys@),
                    entries_view(entries@) == redacted(
                        store@,
                        endpoint_id@,
                        o,
                        keys,
                        i as int,
                    ),
                decreases secret_keys.len() - i,
            {
                let key: &str = secret_keys[i].as_str();
                assert(keys[i as int] == key@);
                let kept: bool = match store.get_secret(endpoint_id, key) {
                    Ok(Some(_)) => true,
                    _ => false,
                };
                if kept || text_of(&entries, key).is_some() {
                    set_entry(&mut entries, key, secret_marker());
                }
                i = i + 1;
            }
            Json::Object(entries)
        },
        other => other,
    }
}

proof fn lemma_redacted(
    s: StoreV,
    endpoint: Seq<char>,
    o: Seq<(Seq<char>, JsonV)>,
    keys: Seq<Seq<char>>,
    n: int,
    k: Seq<char>,
)
    requires
        0 <= n <= keys.len(),
    ensures
        keys.subrange(0, n).contains(k) ==> text_under(redacted(s, endpoint, o, keys, n), k)
            is None,
        !keys.subrange(0, n).contains(k) ==> object_get(redacted(s, endpoint, o, keys, n), k)
            == object_get(o, k),
    decreases n,
{
    if n > 0 {
        let before = redacted(s, endpoint, o, keys, n - 1);
        lemma_redacted(s, endpoint, o, keys, n - 1, k);
        crate::json::object_get_after_set(before, keys[n - 1], marker(), k);
        let a = keys.subrange(0, n - 1);
        let b = keys.subrange(0, n);
        assert(b =~= a.push(keys[n - 1]));
        if b.contains(k) && k != keys[n - 1] {
            let i = choose|i: int| 0 <= i < b.len() && b[i] == k;
            assert(a[i] == k);
        }
        if a.contains(k) {
            let i = choose|i: int| 0 <= i < a.len() && a[i] == k;
            assert(b[i] == k);
        }
        if k == keys[n - 1] {
            assert(b[n - 1] == k);
        }
    }
}

/// No secret is shown: under none of the keys of secrets a text is left, and nothing else changes.
pub proof fn no_secret_is_shown(
    s: StoreV,
    endpoint: Seq<char>,
    o: Seq<(Seq<char>, JsonV)>,
    keys: Seq<Seq<char>>,
    k: Seq<char>,
)
    ensures
        keys.contains(k) ==> text_under(redacted(s, endpoint, o, keys, keys.len() as int), k)
            is None,
        !keys.contains(k) ==> object_get(redacted(s, endpoint, o, keys, keys.len() as int), k)
            == object_get(o, k),
{
    lemma_redacted(s, endpoint, o, keys, keys.len() as int, k);
    assert(keys.subrange(0, keys.len() as int) =~= keys);
}

// ---------------------------------------------------------------------------
// Using a connection
// ---------------------------------------------------------------------------

/// The complaint that a secret is said to be kept and is not.
pub open spec fn secret_missing(key: Seq<char>, endpoint: Seq<char>) -> StoreFault {
    StoreFault::Validation(
        "secret `"@ + key + "` marker 存在但 SecretStore 无记录 (endpoint `"@ + endpoint + "`)"@,
    )
}

/// A connection with the first `n` of its secrets put in where something stands for them.
pub open spec fn filled(
    s: StoreV,
    endpoint: Seq<char>,
    o: Seq<(Seq<char>, JsonV)>,
    keys: Seq<Seq<char>>,
    n: int,
) -> Result<Seq<(Seq<char>, JsonV)>, StoreFault>
    decreases n,
{
    if n <= 0 {
        Ok(o)
    } else {
        match filled(s, endpoint, o, keys, n - 1) {
            Err(f) => Err(f),
            Ok(before) => if marker_under(before, keys[n - 1]) {
                match secret_read(s, endpoint, keys[n - 1]) {
                    Ok(Some(t)) => Ok(object_set(before, keys[n - 1], JsonV::String(t))),
                    Ok(None) => Err(secret_missing(keys[n - 1], endpoint)),
                    Err(f) => Err(f),
                }
            } else {
                Ok(before)
            },
        }
    }
}

/// Whether a path leads to the secret of a connection.
pub open spec fn leads_to_secret(path: Seq<char>, keys: Seq<Seq<char>>) -> bool {
    exists|i: int| 0 <= i < keys.len() && path == "connection"@ + "."@ + #[trigger] keys[i]
}

/// What is wrong with a connection, in words that hold no secret.
pub open spec fn discreet(issues: Seq<IssueV>, keys: Seq<Seq<char>>) -> Seq<IssueV> {
    issues.map_values(
        |i: IssueV|
            if leads_to_secret(i.path, keys) {
                IssueV { message: "secret 不符合 schema"@, ..i }
            } else {
                i
            },
    )
}

/// What is wrong with the connection of an endpoint, its secrets put in where something stands for
/// them; or why they cannot be put in.
pub open spec fn change_issues(
    s: StoreV,
    endpoint: Seq<char>,
    o: Seq<(Seq<char>, JsonV)>,
    fields: Seq<FieldDescriptor>,
) -> Result<Seq<IssueV>, StoreFault> {
    let keys = secret_keys(fields);
    match filled(s, endpoint, o, keys, keys.len() as int) {
        Ok(e) => Ok(discreet(instance_issues(fields, "connection"@, JsonV::Object(e)), keys)),
        Err(f) => Err(f),
    }
}

/// The text of a connection with its secrets put in. A text that says nothing is an empty one.
pub open spec fn materialized(
    s: StoreV,
    endpoint: Seq<char>,
    text: Seq<char>,
    keys: Seq<Seq<char>>,
) -> Result<Seq<char>, StoreFault> {
    match json_parsed(text) {
        Ok(JsonV::Object(o)) => match filled(s, endpoint, o, keys, keys.len() as int) {
            Ok(e) => Ok(json_text(JsonV::Object(e))),
            Err(f) => Err(f),
        },
        Ok(v) => Ok(json_text(v)),
        Err(e) => match filled(s, endpoint, Seq::empty(), keys, keys.len() as int) {
            Ok(e) => Ok(json_text(JsonV::Object(e))),
            Err(f) => Err(f),
        },
    }
}

proof fn lemma_filled_fails(
    s: StoreV,
    endpoint: Seq<char>,
    o: Seq<(Seq<char>, JsonV)>,
    keys: Seq<Seq<char>>,
    n: int,
    m: int,
)
    requires
        n <= m,
        filled(s, endpoint, o, keys, n) is Err,
    ensures
        filled(s, endpoint, o, keys, m) == filled(s, endpoint, o, keys, n),
    decreases m,
{
    if n < m && m > 0 {
        lemma_filled_fails(s, endpoint, o, keys, n, m - 1);
    }
}

fn fill(
    entries: Vec<(String, Json)>,
    endpoint_id: &str,
    store: &ConfigStore,
    secret_keys: &Vec<String>,
) -> (r: Result<Vec<(String, Json)>, StoreError>)
    requires
        store_ok(store@),
    ensures
        match r {
            Ok(e) => filled(
                store@,
                endpoint_id@,
                entries_view(entries@),
                texts_view(secret_keys@),
                secret_keys@.len() as int,
            ) == Ok::<Seq<(Seq<char>, JsonV)>, StoreFault>(entries_view(e@)),
            Err(f) => filled(
                store@,
                endpoint_id@,
                entries_view(entries@),
                texts_view(secret_keys@),
                secret_keys@.len() as int,
            ) == Err::<Seq<(Seq<char>, JsonV)>, StoreFault>(f@),
        },
{
    broadcast use lemma_json_view;

    let ghost o = entries_view(entries@);
    let ghost keys = texts_view(secret_keys@);
    let mut out: Vec<(String, Json)> = entries;
    let mut i: usize = 0;
    while i < secret_keys.len()
        invariant
            i <= secret_keys.len(),
            store_ok(store@),
            keys == texts_view(secret_keys@),
            filled(store@, endpoint_id@, o, keys, i as int) == Ok::<
                Seq<(Seq<char>, JsonV)>,
                StoreFault,
            >(entries_view(out@)),
            o == entries_view(entries@),
        decreases secret_keys.len() - i,
    {
        let key: &str = secret_keys[i].as_str();
        assert(keys[i as int] == key@);
        if has_marker(&out, key) {
            match store.get_secret(endpoint_id, key) {
                Ok(Some(t)) => {
                    set_entry(&mut out, key, Json::String(t));
                },
                Ok(None) => {
                    proof {
                        lemma_filled_fails(
                            store@,
                            endpoint_id@,
                            o,
                            keys,
                            i + 1,
                            secret_keys@.len() as int,
                        );
                    }
                    return Err(
                        StoreError::Validation(
                            cat5(
                                "secret `",
                                key,
                                "` marker 存在但 SecretStore 无记录 (endpoint `",
                                endpoint_id,
                                "`)",
                            ),
                        ),
                    );
                },
                Err(f) => {
                    proof {
                        lemma_filled_fails(
                            store@,
                            endpoint_id@,
                            o,
                            keys,
                            i + 1,
                            secret_keys@.len() as int,
                        );
                    }
                    return Err(f);
                },
            }
        }
        i = i + 1;
    }
    Ok(out)
}

/// What is wrong with the connection of an endpoint, its secrets put in where something stands for
/// them. What is said of a secret does not tell it.
pub fn changed_connection_issues(
    entries: Vec<(String, Json)>,
    schema: &SchemaDescriptor,
    store: &ConfigStore,
    endpoint_id: &str,
) -> (r: Result<Vec<ValidationIssue>, StoreError>)
    requires
        store_ok(store@),
    ensures
        match r {
            Ok(x) => change_issues(
                store@,
                endpoint_id@,
                entries_view(entries@),
                schema.fields@,
            ) == Ok::<Seq<IssueV>, StoreFault>(issues_view(x@)),
            Err(f) => change_issues(
                store@,
                endpoint_id@,
                entries_view(entries@),
                schema.fields@,
            ) == Err::<Seq<IssueV>, StoreFault>(f@),
        },
{
    broadcast use lemma_json_view;

    let keys: Vec<String> = secret_field_keys(schema);
    let whole: Vec<(String, Json)> = match fill(entries, endpoint_id, store, &keys) {
        Ok(e) => e,
        Err(f) => {
            return Err(f);
        },
    };
    let found: Vec<ValidationIssue> = validate_connection_against_schema(
        schema,
        &Json::Object(whole),
    );
    let mut out: Vec<ValidationIssue> = Vec::new();
    let mut i: usize = 0;
    while i < found.len()
        invariant
            i <= found.len(),
            out@.len() == i,
            forall|j: int|
                0 <= j < i ==> (#[trigger] out@[j])@ == discreet(
                    issues_view(found@),
                    texts_view(keys@),
                )[j],
        decreases found.len() - i,
    {
        let message: String = if is_of_secret(found[i].path.as_str(), &keys) {
            "secret 不符合 schema".to_owned()
        } else {
            found[i].message.clone()
        };
        out.push(issue(found[i].path.as_str(), found[i].code.as_str(), message));
        i = i + 1;
    }
    assert(issues_view(out@) =~= discreet(issues_view(found@), texts_view(keys@)));
    Ok(out)
}

fn is_of_secret(path: &str, keys: &Vec<String>) -> (r: bool)
    ensures
        r == leads_to_secret(path@, texts_view(keys@)),
{
    let ghost ks = texts_view(keys@);
    let mut i: usize = 0;
    while i < keys.len()
        invariant
            i <= keys.len(),
            ks == texts_view(keys@),
            forall|j: int| 0 <= j < i ==> path@ != "connection"@ + "."@ + #[trigger] ks[j],
        decreases keys.len() - i,
    {
        assert(ks[i as int] == keys@[i as int]@);
        let p: String = cat3("connection", ".", keys[i].as_str());
        if same_text(path, p.as_str()) {
            return true;
        }
        i = i + 1;
    }
    false
}

pub fn materialize_connection(
    conn_str: &str,
    endpoint_id: &str,
    store: &ConfigStore,
    secret_keys: &Vec<String>,
) -> (r: Result<String, StoreError>)
    requires
        store_ok(store@),
    ensures
        match r {
            Ok(t) => materialized(
                store@,
                endpoint_id@,
                conn_str@,
                texts_view(secret_keys@),
            ) == Ok::<Seq<char>, StoreFault>(t@),
            Err(f) => materialized(
                store@,
                endpoint_id@,
                conn_str@,
                texts_view(secret_keys@),
            ) == Err::<Seq<char>, StoreFault>(f@),
        },
        forall|o: Seq<(Seq<char>, JsonV)>|
            plain(JsonV::Object(o), 127) && #[trigger] json_text(JsonV::Object(o)) == conn_str@
                ==> materialized(store@, endpoint_id@, conn_str@, texts_view(secret_keys@)) == (
            match filled(
                store@,
                endpoint_id@,
                o,
                texts_view(secret_keys@),
                secret_keys@.len() as int,
            ) {
                Ok(e) => Ok(json_text(JsonV::Object(e))),
                Err(f) => Err(f),
            }),
{
    broadcast use lemma_json_view;

    let entries: Vec<(String, Json)> = match Json::parse(conn_str) {
        Ok(Json::Object(e)) => e,
        Ok(v) => {
            return Ok(v.to_text());
        },
        Err(_) => {
            let none: Vec<(String, Json)> = Vec::new();
            assert(entries_view(none@) =~= Seq::<(Seq<char>, JsonV)>::empty());
            none
        },
    };
    match fill(entries, endpoint_id, store, secret_keys) {
        Ok(e) => Ok(Json::Object(e).to_text()),
        Err(f) => Err(f),
    }
}

// ---------------------------------------------------------------------------
// Keeping a connection
// ---------------------------------------------------------------------------

/// A connection whose secrets have been taken out, and the secrets.
pub struct SplitV {
    pub entries: Seq<(Seq<char>, JsonV)>,
    pub secrets: Seq<(Seq<char>, Seq<char>)>,
}

/// The complaint that a new connection stands on a secret that there is not.
pub open spec fn plaintext_wanted(key: Seq<char>) -> ReplyV {
    error_reply(
        400,
        "VALIDATION_ERROR"@,
        "field `"@ + key + "`: create 时需提供明文，marker 仅更新时可用"@,
    )
}

/// A new connection with the first `n` of its secrets taken out.
pub open spec fn split_new(o: Seq<(Seq<char>, JsonV)>, keys: Seq<Seq<char>>, n: int) -> Result<
    SplitV,
    ReplyV,
>
    decreases n,
{
    if n <= 0 {
        Ok(SplitV { entries: o, secrets: Seq::empty() })
    } else {
        match split_new(o, keys, n - 1) {
            Err(e) => Err(e),
            Ok(before) => match text_under(before.entries, keys[n - 1]) {
                Some(t) => Ok(
                    SplitV {
                        entries: object_set(before.entries, keys[n - 1], marker()),
                        secrets: before.secrets.push((keys[n - 1], t)),
                    },
                ),
                None => if marker_under(before.entries, keys[n - 1]) {
                    Err(plaintext_wanted(keys[n - 1]))
                } else {
                    Ok(before)
                },
            },
        }
    }
}

proof fn lemma_split_new_fails(o: Seq<(Seq<char>, JsonV)>, keys: Seq<Seq<char>>, n: int, m: int)
    requires
        n <= m,
        split_new(o, keys, n) is Err,
    ensures
        split_new(o, keys, m) == split_new(o, keys, n),
    decreases m,
{
    if n < m && m > 0 {
        lemma_split_new_fails(o, keys, n, m - 1);
    }
}

/// Takes the secrets out of a new connection.
pub fn split_new_secrets(entries: Vec<(String, Json)>, secret_keys: &Vec<String>) -> (r: Result<
    (Vec<(String, Json)>, Vec<(String, String)>),
    ApiResponse,
>)
    ensures
        match r {
            Ok(x) => split_new(
                entries_view(entries@),
                texts_view(secret_keys@),
                secret_keys@.len() as int,
            ) == Ok::<SplitV, ReplyV>(
                (SplitV { entries: entries_view(x.0@), secrets: pairs_view(x.1@) }),
            ),
            Err(e) => split_new(
                entries_view(entries@),
                texts_view(secret_keys@),
                secret_keys@.len() as int,
            ) == Err::<SplitV, ReplyV>(e@),
        },
{
    let ghost o = entries_view(entries@);
    let ghost keys = texts_view(secret_keys@);
    let mut out: Vec<(String, Json)> = entries;
    let mut secrets: Vec<(String, String)> = Vec::new();
    assert(pairs_view(secrets@) =~= Seq::<(Seq<char>, Seq<char>)>::empty());
    let mut i: usize = 0;
    while i < secret_keys.len()
        invariant
            i <= secret_keys.len(),
            keys == texts_view(secret_keys@),
            split_new(o, keys, i as int) == Ok::<SplitV, ReplyV>(
                (SplitV { entries: entries_view(out@), secrets: pairs_view(secrets@) }),
            ),
            o == entries_view(entries@),
        decreases secret_keys.len() - i,
    {
        let key: &str = secret_keys[i].as_str();
        assert(keys[i as int] == key@);
        let ghost before = pairs_view(secrets@);
        let found: Option<String> = match text_of(&out, key) {
            Some(t) => Some(t.clone()),
            None => None,
        };
        match found {
            Some(t) => {
                let ghost text = t@;
                secrets.push((key.to_owned(), t));
                assert(pairs_view(secrets@) =~= before.push((key@, text)));
                set_entry(&mut out, key, secret_marker());
            },
            None => {
                if has_marker(&out, key) {
                    proof {
                        lemma_split_new_fails(o, keys, i + 1, secret_keys@.len() as int);
                    }
                    return Err(
                        complain(
                            400,
                            "VALIDATION_ERROR",
                            cat3(
                                "field `",
                                key,
                                "`: create 时需提供明文，marker 仅更新时可用",
                            ).as_str(),
                        ),
                    );
                }
            },
        }
        i = i + 1;
    }
    Ok((out, secrets))
}

proof fn lemma_split_new(
    o: Seq<(Seq<char>, JsonV)>,
    keys: Seq<Seq<char>>,
    n: int,
    k: Seq<char>,
)
    requires
        0 <= n <= keys.len(),
        split_new(o, keys, n) is Ok,
    ensures
        keys.subrange(0, n).contains(k) ==> text_under(split_new(o, keys, n)->Ok_0.entries, k)
            is None,
        !keys.subrange(0, n).contains(k) ==> object_get(split_new(o, keys, n)->Ok_0.entries, k)
            == object_get(o, k),
    decreases n,
{
    if n > 0 {
        let before = split_new(o, keys, n - 1)->Ok_0;
        lemma_split_new(o, keys, n - 1, k);
        crate::json::object_get_after_set(before.entries, keys[n - 1], marker(), k);
        let a = keys.subrange(0, n - 1);
        let b = keys.subrange(0, n);
        assert(b =~= a.push(keys[n - 1]));
        if b.contains(k) && k != keys[n - 1] {
            let i = choose|i: int| 0 <= i < b.len() && b[i] == k;
            assert(a[i] == k);
        }
        if a.contains(k) {
            let i = choose|i: int| 0 <= i < a.len() && a[i] == k;
            assert(b[i] == k);
        }
        if k == keys[n - 1] {
            assert(b[n - 1] == k);
        }
    }
}

/// No secret stays in a new connection: under none of the keys of secrets a text is left, and
/// nothing else changes.
pub proof fn no_secret_stays_in_a_new_connection(
    o: Seq<(Seq<char>, JsonV)>,
    keys: Seq<Seq<char>>,
    k: Seq<char>,
)
    requires
        split_new(o, keys, keys.len() as int) is Ok,
    ensures
        keys.contains(k) ==> text_under(split_new(o, keys, keys.len() as int)->Ok_0.entries, k)
            is None,
        !keys.contains(k) ==> object_get(split_new(o, keys, keys.len() as int)->Ok_0.entries, k)
            == object_get(o, k),
{
    lemma_split_new(o, keys, keys.len() as int, k);
    assert(keys.subrange(0, keys.len() as int) =~= keys);
}

/// Whether a key is one of the first `n`.
spec fn among(keys: Seq<Seq<char>>, n: int, key: Seq<char>) -> bool {
    exists|j: int| 0 <= j < n && #[trigger] keys[j] == key
}

proof fn lemma_among(keys: Seq<Seq<char>>, n: int, key: Seq<char>)
    requires
        0 < n <= keys.len(),
    ensures
        among(keys, n, key) <==> among(keys, n - 1, key) || key == keys[n - 1],
{
    if key == keys[n - 1] {
        assert(keys[n - 1] == key);
    }
}

/// Whether an entry holds a text under one of the first `n` keys.
spec fn taken(o: Seq<(Seq<char>, JsonV)>, keys: Seq<Seq<char>>, n: int, i: int) -> bool {
    o[i].1 is String && among(keys, n, o[i].0)
}

/// Whether such an entry stands under a key.
spec fn taken_under(
    o: Seq<(Seq<char>, JsonV)>,
    keys: Seq<Seq<char>>,
    n: int,
    key: Seq<char>,
) -> bool {
    exists|i: int| 0 <= i < o.len() && #[trigger] taken(o, keys, n, i) && o[i].0 == key
}

proof fn lemma_split_entries(o: Seq<(Seq<char>, JsonV)>, keys: Seq<Seq<char>>, n: int)
    requires
        ascending(entry_keys(o)),
        0 <= n <= keys.len(),
        split_new(o, keys, n) is Ok,
    ensures
        ({
            let split = split_new(o, keys, n)->Ok_0;
            &&& split.entries.len() == o.len()
            &&& forall|i: int|
                0 <= i < o.len() ==> (#[trigger] split.entries[i]) == (o[i].0, if taken(
                    o,
                    keys,
                    n,
                    i,
                ) {
                    marker()
                } else {
                    o[i].1
                })
            &&& forall|i: int|
                0 <= i < o.len() && #[trigger] taken(o, keys, n, i) ==> split.secrets.contains(
                    (o[i].0, o[i].1->String_0),
                )
            &&& forall|a: int|
                0 <= a < split.secrets.len() ==> taken_under(
                    o,
                    keys,
                    n,
                    (#[trigger] split.secrets[a]).0,
                )
            &&& forall|a: int, b: int|
                0 <= a < b < split.secrets.len() ==> (#[trigger] split.secrets[a]).0 != (
                #[trigger] split.secrets[b]).0
            &&& forall|i: int|
                0 <= i < o.len() && among(keys, n, #[trigger] o[i].0) ==> !is_marker(o[i].1)
        }),
    decreases n,
{
    if n > 0 {
        lemma_split_entries(o, keys, n - 1);
        let before = split_new(o, keys, n - 1)->Ok_0;
        let split = split_new(o, keys, n)->Ok_0;
        let key = keys[n - 1];
        assert(entry_keys(before.entries) =~= entry_keys(o));
        assert forall|i: int| 0 <= i < o.len() implies (among(keys, n, #[trigger] o[i].0) <==> among(
            keys,
            n - 1,
            o[i].0,
        ) || o[i].0 == key) by {
            lemma_among(keys, n, o[i].0);
        }
        assert forall|i: int| 0 <= i < o.len() implies (#[trigger] taken(o, keys, n, i) <==> taken(
            o,
            keys,
            n - 1,
            i,
        ) || (o[i].1 is String && o[i].0 == key)) by {
            lemma_taken_step(o, keys, n, i);
        }
        match text_under(before.entries, key) {
            Some(t) => {
                let p = object_get_found(before.entries, key);
                object_set_in_place(before.entries, p, marker());
                assert(before.entries[p].1 == JsonV::String(t));
                assert(!taken(o, keys, n - 1, p) && taken(o, keys, n, p));
                assert forall|i: int| 0 <= i < o.len() && i != p implies (#[trigger] o[i]).0
                    != key by {
                    lemma_keys_differ(o, i, p);
                }
                assert(split.secrets.last() == (key, t));
                assert forall|i: int|
                    0 <= i < o.len() && #[trigger] taken(o, keys, n, i) implies split.secrets.contains(
                    (o[i].0, o[i].1->String_0),
                ) by {
                    if i == p {
                        assert(split.secrets[split.secrets.len() - 1] == (o[i].0, o[i].1->String_0));
                    } else {
                        let x = (o[i].0, o[i].1->String_0);
                        let a = choose|a: int|
                            0 <= a < before.secrets.len() && before.secrets[a] == x;
                        assert(split.secrets[a] == x);
                    }
                }
                assert forall|a: int| 0 <= a < split.secrets.len() implies taken_under(
                    o,
                    keys,
                    n,
                    (#[trigger] split.secrets[a]).0,
                ) by {
                    if a < before.secrets.len() {
                        assert(split.secrets[a] == before.secrets[a]);
                        let i = choose|i: int|
                            0 <= i < o.len() && #[trigger] taken(o, keys, n - 1, i) && o[i].0
                                == before.secrets[a].0;
                        assert(taken(o, keys, n, i));
                    } else {
                        assert(taken(o, keys, n, p));
                    }
                }
                assert forall|a: int, b: int| 0 <= a < b < split.secrets.len() implies (
                #[trigger] split.secrets[a]).0 != (#[trigger] split.secrets[b]).0 by {
                    assert(split.secrets[a] == before.secrets[a]);
                    if b == before.secrets.len() {
                        let i = choose|i: int|
                            0 <= i < o.len() && #[trigger] taken(o, keys, n - 1, i) && o[i].0
                                == before.secrets[a].0;
                        assert(i != p);
                    } else {
                        assert(split.secrets[b] == before.secrets[b]);
                    }
                }
            },
            None => {
                assert forall|i: int|
                    0 <= i < o.len() && (#[trigger] o[i]).0 == key implies !(o[i].1 is String)
                    && !is_marker(o[i].1) by {
                    marker_is_a_marker();
                    object_set_in_place(before.entries, i, marker());
                    assert(before.entries[i].0 == key);
                }
                assert forall|a: int| 0 <= a < split.secrets.len() implies taken_under(
                    o,
                    keys,
                    n,
                    (#[trigger] split.secrets[a]).0,
                ) by {
                    let i = choose|i: int|
                        0 <= i < o.len() && #[trigger] taken(o, keys, n - 1, i) && o[i].0
                            == before.secrets[a].0;
                    assert(taken(o, keys, n, i));
                }
            },
        }
    }
}

proof fn lemma_taken_step(o: Seq<(Seq<char>, JsonV)>, keys: Seq<Seq<char>>, n: int, i: int)
    requires
        0 < n <= keys.len(),
    ensures
        taken(o, keys, n, i) <==> taken(o, keys, n - 1, i) || (o[i].1 is String && o[i].0
            == keys[n - 1]),
{
    lemma_among(keys, n, o[i].0);
}

proof fn lemma_keys_differ(o: Seq<(Seq<char>, JsonV)>, i: int, p: int)
    requires
        ascending(entry_keys(o)),
        0 <= i < o.len(),
        0 <= p < o.len(),
        i != p,
    ensures
        o[i].0 != o[p].0,
{
    broadcast use crate::text::lemma_text_before_irreflexive;

    let ks = entry_keys(o);
    assert(ks[i] == o[i].0 && ks[p] == o[p].0);
    if i < p {
        assert(text_before(ks[i], ks[p]));
    } else {
        assert(text_before(ks[p], ks[i]));
    }
}

proof fn lemma_filled_entries(
    s: StoreV,
    endpoint: Seq<char>,
    o: Seq<(Seq<char>, JsonV)>,
    keys: Seq<Seq<char>>,
    n: int,
)
    requires
        ascending(entry_keys(o)),
        0 <= n <= keys.len(),
        forall|i: int|
            0 <= i < o.len() && among(keys, n, #[trigger] o[i].0) && is_marker(o[i].1) ==> (
            secret_read(s, endpoint, o[i].0) matches Ok(Some(_))),
    ensures
        ({
            let r = filled(s, endpoint, o, keys, n);
            &&& r is Ok
            &&& r->Ok_0.len() == o.len()
            &&& forall|i: int|
                0 <= i < o.len() ==> (#[trigger] r->Ok_0[i]) == (o[i].0, if among(
                    keys,
                    n,
                    o[i].0,
                ) && is_marker(o[i].1) {
                    JsonV::String(secret_read(s, endpoint, o[i].0)->Ok_0->Some_0)
                } else {
                    o[i].1
                })
        }),
    decreases n,
{
    if n > 0 {
        let key = keys[n - 1];
        assert forall|i: int| 0 <= i < o.len() implies (among(keys, n, #[trigger] o[i].0) <==> among(
            keys,
            n - 1,
            o[i].0,
        ) || o[i].0 == key) by {
            lemma_among(keys, n, o[i].0);
        }
        lemma_filled_entries(s, endpoint, o, keys, n - 1);
        let before = filled(s, endpoint, o, keys, n - 1)->Ok_0;
        assert(entry_keys(before) =~= entry_keys(o));
        if marker_under(before, key) {
            let p = object_get_found(before, key);
            assert(o[p].0 == key && is_marker(before[p].1));
            let t = secret_read(s, endpoint, key)->Ok_0->Some_0;
            object_set_in_place(before, p, JsonV::String(t));
            assert forall|i: int| 0 <= i < o.len() && i != p implies (#[trigger] o[i]).0
                != key by {
                lemma_keys_differ(o, i, p);
            }
        } else {
            assert forall|i: int| 0 <= i < o.len() && (#[trigger] o[i]).0 == key implies !is_marker(
                before[i].1,
            ) by {
                object_set_in_place(before, i, marker());
                assert(before[i].0 == key);
            }
        }
    }
}

/// Whether each of some secrets of an endpoint can be read as the text that goes with it.
pub open spec fn secrets_read(
    s: StoreV,
    endpoint: Seq<char>,
    secrets: Seq<(Seq<char>, Seq<char>)>,
) -> bool {
    forall|x: (Seq<char>, Seq<char>)| #[trigger]
        secrets.contains(x) ==> secret_read(s, endpoint, x.0) == Ok::<
            Option<Seq<char>>,
            StoreFault,
        >(Some(x.1))
}

/// What is taken out of a new connection is put back: where its secrets can be read, the
/// connection with its secrets put in is the one that was given.
pub proof fn secrets_are_put_back(
    s: StoreV,
    endpoint: Seq<char>,
    o: Seq<(Seq<char>, JsonV)>,
    keys: Seq<Seq<char>>,
)
    requires
        ascending(entry_keys(o)),
        split_new(o, keys, keys.len() as int) is Ok,
        secrets_read(s, endpoint, split_new(o, keys, keys.len() as int)->Ok_0.secrets),
    ensures
        filled(
            s,
            endpoint,
            split_new(o, keys, keys.len() as int)->Ok_0.entries,
            keys,
            keys.len() as int,
        ) == Ok::<Seq<(Seq<char>, JsonV)>, StoreFault>(o),
{
    let n = keys.len() as int;
    let split = split_new(o, keys, n)->Ok_0;
    let e = split.entries;
    lemma_split_entries(o, keys, n);
    marker_is_a_marker();
    assert(entry_keys(e) =~= entry_keys(o));
    assert forall|i: int| 0 <= i < o.len() && taken(o, keys, n, i) implies secret_read(
        s,
        endpoint,
        (#[trigger] e[i]).0,
    ) == Ok::<Option<Seq<char>>, StoreFault>(Some(o[i].1->String_0)) by {
        assert(split.secrets.contains((o[i].0, o[i].1->String_0)));
    }
    lemma_filled_entries(s, endpoint, e, keys, n);
    assert(filled(s, endpoint, e, keys, n)->Ok_0 =~= o) by {
        assert forall|i: int| 0 <= i < o.len() implies filled(s, endpoint, e, keys, n)->Ok_0[i]
            == #[trigger] o[i] by {
            assert(e[i].0 == o[i].0);
        }
    }
}

/// Each secret that is taken out of a new connection is of another field.
pub proof fn secrets_are_of_different_fields(
    o: Seq<(Seq<char>, JsonV)>,
    keys: Seq<Seq<char>>,
    a: int,
    b: int,
)
    requires
        ascending(entry_keys(o)),
        split_new(o, keys, keys.len() as int) is Ok,
        0 <= a < b < split_new(o, keys, keys.len() as int)->Ok_0.secrets.len(),
    ensures
        split_new(o, keys, keys.len() as int)->Ok_0.secrets[a].0 != split_new(
            o,
            keys,
            keys.len() as int,
        )->Ok_0.secrets[b].0,
{
    lemma_split_entries(o, keys, keys.len() as int);
}

/// A plain connection stays plain when its secrets are taken out.
pub proof fn a_split_connection_is_plain(o: Seq<(Seq<char>, JsonV)>, keys: Seq<Seq<char>>, depth: nat)
    requires
        plain(JsonV::Object(o), depth),
        depth >= 2,
        split_new(o, keys, keys.len() as int) is Ok,
    ensures
        plain(JsonV::Object(split_new(o, keys, keys.len() as int)->Ok_0.entries), depth),
{
    let n = keys.len() as int;
    let e = split_new(o, keys, n)->Ok_0.entries;
    lemma_split_entries(o, keys, n);
    assert(entry_keys(e) =~= entry_keys(o));
    let d = (depth - 1) as nat;
    plain_entries_one_by_one(o, d);
    plain_entries_one_by_one(e, d);
    assert(plain(marker(), d)) by {
        let m = seq![("secret_set"@, JsonV::Bool(true))];
        reveal_strlit("secret_set");
        other_keys_are_written_as_objects(m);
        plain_entries_one_by_one(m, (d - 1) as nat);
    }
}

/// A changed connection whose secrets have been taken out, the secrets, and the fields whose
/// secrets go.
pub struct ChangeV {
    pub entries: Seq<(Seq<char>, JsonV)>,
    pub secrets: Seq<(Seq<char>, Seq<char>)>,
    pub dropped: Seq<Seq<char>>,
}

/// A changed connection with the first `n` of its secrets taken out. What stands for a secret
/// needs one that is kept, and the same driver; a secret of which nothing is said goes.
pub open spec fn split_change(
    s: StoreV,
    endpoint: Seq<char>,
    o: Seq<(Seq<char>, JsonV)>,
    keys: Seq<Seq<char>>,
    n: int,
) -> Result<ChangeV, ReplyV>
    decreases n,
{
    if n <= 0 {
        Ok(ChangeV { entries: o, secrets: Seq::empty(), dropped: Seq::empty() })
    } else {
        let k = keys[n - 1];
        match split_change(s, endpoint, o, keys, n - 1) {
            Err(e) => Err(e),
            Ok(before) => match object_get(before.entries, k) {
                None => Ok(ChangeV { dropped: before.dropped.push(k), ..before }),
                Some(v) => match text_under(before.entries, k) {
                    Some(t) => Ok(
                        ChangeV {
                            entries: object_set(before.entries, k, marker()),
                            secrets: before.secrets.push((k, t)),
                            ..before
                        },
                    ),
                    None => if !is_marker(v) {
                        Ok(before)
                    } else {
                        match secret_read(s, endpoint, k) {
                            Ok(Some(t)) => Ok(before),
                            Ok(None) => Err(
                                error_reply(
                                    400,
                                    "SECRET_NOT_FOUND"@,
                                    "field `"@ + k + "` marker 存在但无对应 Secret"@,
                                ),
                            ),
                            Err(f) => Err(store_reply(f)),
                        }
                    },
                },
            },
        }
    }
}

/// The fields whose secrets go, with those of the first `n` kept ones that are no secrets any
/// more.
pub open spec fn with_leftovers(
    dropped: Seq<Seq<char>>,
    keys: Seq<Seq<char>>,
    kept: Seq<Seq<char>>,
    n: int,
) -> Seq<Seq<char>>
    decreases n,
{
    if n <= 0 {
        dropped
    } else {
        let before = with_leftovers(dropped, keys, kept, n - 1);
        if !keys.contains(kept[n - 1]) && !before.contains(kept[n - 1]) {
            before.push(kept[n - 1])
        } else {
            before
        }
    }
}

/// What a changed connection comes to.
pub open spec fn change_of(
    s: StoreV,
    endpoint: Seq<char>,
    o: Seq<(Seq<char>, JsonV)>,
    keys: Seq<Seq<char>>,
) -> Result<ChangeV, ReplyV> {
    match split_change(s, endpoint, o, keys, keys.len() as int) {
        Err(e) => Err(e),
        Ok(c) => {
            let kept = ordered_keys(rows_for(s.secrets, endpoint));
            Ok(
                ChangeV {
                    dropped: with_leftovers(c.dropped, keys, kept, kept.len() as int),
                    ..c
                },
            )
        },
    }
}

proof fn lemma_change_entries(
    s: StoreV,
    endpoint: Seq<char>,
    o: Seq<(Seq<char>, JsonV)>,
    keys: Seq<Seq<char>>,
    n: int,
)
    requires
        ascending(entry_keys(o)),
        0 <= n <= keys.len(),
        split_change(s, endpoint, o, keys, n) is Ok,
    ensures
        ({
            let split = split_change(s, endpoint, o, keys, n)->Ok_0;
            &&& split.entries.len() == o.len()
            &&& forall|i: int|
                0 <= i < o.len() ==> (#[trigger] split.entries[i]) == (o[i].0, if taken(
                    o,
                    keys,
                    n,
                    i,
                ) {
                    marker()
                } else {
                    o[i].1
                })
            &&& forall|i: int|
                0 <= i < o.len() && #[trigger] taken(o, keys, n, i) ==> split.secrets.contains(
                    (o[i].0, o[i].1->String_0),
                )
            &&& forall|a: int|
                0 <= a < split.secrets.len() ==> taken_under(
                    o,
                    keys,
                    n,
                    (#[trigger] split.secrets[a]).0,
                )
            &&& forall|a: int, b: int|
                0 <= a < b < split.secrets.len() ==> (#[trigger] split.secrets[a]).0 != (
                #[trigger] split.secrets[b]).0
            &&& forall|i: int|
                0 <= i < o.len() && among(keys, n, #[trigger] o[i].0) && is_marker(o[i].1) ==> (
                secret_read(s, endpoint, o[i].0) matches Ok(Some(_)))
            &&& forall|a: int, i: int|
                0 <= a < split.dropped.len() && 0 <= i < o.len() ==> #[trigger] split.dropped[a]
                    != (#[trigger] o[i]).0
        }),
    decreases n,
{
    if n > 0 {
        lemma_change_entries(s, endpoint, o, keys, n - 1);
        let before = split_change(s, endpoint, o, keys, n - 1)->Ok_0;
        let split = split_change(s, endpoint, o, keys, n)->Ok_0;
        let key = keys[n - 1];
        assert(entry_keys(before.entries) =~= entry_keys(o));
        assert forall|i: int| 0 <= i < o.len() implies (among(keys, n, #[trigger] o[i].0) <==> among(
            keys,
            n - 1,
            o[i].0,
        ) || o[i].0 == key) by {
            lemma_among(keys, n, o[i].0);
        }
        assert forall|i: int| 0 <= i < o.len() implies (#[trigger] taken(o, keys, n, i) <==> taken(
            o,
            keys,
            n - 1,
            i,
        ) || (o[i].1 is String && o[i].0 == key)) by {
            lemma_taken_step(o, keys, n, i);
        }
        match text_under(before.entries, key) {
            Some(t) => {
                let p = object_get_found(before.entries, key);
                object_set_in_place(before.entries, p, marker());
                assert(before.entries[p].1 == JsonV::String(t));
                assert(!taken(o, keys, n - 1, p) && taken(o, keys, n, p));
                assert forall|i: int| 0 <= i < o.len() && i != p implies (#[trigger] o[i]).0
                    != key by {
                    lemma_keys_differ(o, i, p);
                }
                assert(split.secrets.last() == (key, t));
                assert forall|i: int|
                    0 <= i < o.len() && #[trigger] taken(o, keys, n, i) implies split.secrets.contains(
                    (o[i].0, o[i].1->String_0),
                ) by {
                    if i == p {
                        assert(split.secrets[split.secrets.len() - 1] == (o[i].0, o[i].1->String_0));
                    } else {
                        let x = (o[i].0, o[i].1->String_0);
                        let a = choose|a: int|
                            0 <= a < before.secrets.len() && before.secrets[a] == x;
                        assert(split.secrets[a] == x);
                    }
                }
                assert forall|a: int| 0 <= a < split.secrets.len() implies taken_under(
                    o,
                    keys,
                    n,
                    (#[trigger] split.secrets[a]).0,
                ) by {
                    if a < before.secrets.len() {
                        assert(split.secrets[a] == before.secrets[a]);
                        let i = choose|i: int|
                            0 <= i < o.len() && #[trigger] taken(o, keys, n - 1, i) && o[i].0
                                == before.secrets[a].0;
                        assert(taken(o, keys, n, i));
                    } else {
                        assert(taken(o, keys, n, p));
                    }
                }
                assert forall|a: int, b: int| 0 <= a < b < split.secrets.len() implies (
                #[trigger] split.secrets[a]).0 != (#[trigger] split.secrets[b]).0 by {
                    assert(split.secrets[a] == before.secrets[a]);
                    if b == before.secrets.len() {
                        let i = choose|i: int|
                            0 <= i < o.len() && #[trigger] taken(o, keys, n - 1, i) && o[i].0
                                == before.secrets[a].0;
                        assert(i != p);
                    } else {
                        assert(split.secrets[b] == before.secrets[b]);
                    }
                }
            },
            None => {
                assert forall|i: int|
                    0 <= i < o.len() && (#[trigger] o[i]).0 == key implies taken(o, keys, n, i)
                    == taken(o, keys, n - 1, i) && (is_marker(o[i].1) ==> (secret_read(
                    s,
                    endpoint,
                    key,
                ) matches Ok(Some(_)))) && object_get(before.entries, key) is Some by {
                    marker_is_a_marker();
                    object_set_in_place(before.entries, i, marker());
                    assert(before.entries[i].0 == key);
                }
                assert forall|a: int| 0 <= a < split.secrets.len() implies taken_under(
                    o,
                    keys,
                    n,
                    (#[trigger] split.secrets[a]).0,
                ) by {
                    let i = choose|i: int|
                        0 <= i < o.len() && #[trigger] taken(o, keys, n - 1, i) && o[i].0
                            == before.secrets[a].0;
                    assert(taken(o, keys, n, i));
                }
            },
        }
    }
}

proof fn lemma_leftovers(
    dropped: Seq<Seq<char>>,
    keys: Seq<Seq<char>>,
    kept: Seq<Seq<char>>,
    n: int,
    key: Seq<char>,
)
    requires
        with_leftovers(dropped, keys, kept, n).contains(key),
    ensures
        dropped.contains(key) || !keys.contains(key),
    decreases n,
{
    if n > 0 {
        let before = with_leftovers(dropped, keys, kept, n - 1);
        let all = with_leftovers(dropped, keys, kept, n);
        let i = choose|i: int| 0 <= i < all.len() && all[i] == key;
        if i < before.len() {
            assert(before[i] == key);
            lemma_leftovers(dropped, keys, kept, n - 1, key);
        }
    }
}

/// Whether the secrets of an endpoint are those of another store but for some that were given and
/// some that went.
pub open spec fn secrets_changed(
    s: StoreV,
    after: StoreV,
    endpoint: Seq<char>,
    secrets: Seq<(Seq<char>, Seq<char>)>,
    dropped: Seq<Seq<char>>,
) -> bool {
    &&& forall|x: (Seq<char>, Seq<char>)| #[trigger]
        secrets.contains(x) && !dropped.contains(x.0) ==> secret_read(after, endpoint, x.0) == Ok::<
            Option<Seq<char>>,
            StoreFault,
        >(Some(x.1))
    &&& forall|k: Seq<char>|
        !dropped.contains(k) && (forall|a: int|
            0 <= a < secrets.len() ==> (#[trigger] secrets[a]).0 != k) ==> #[trigger] secret_read(
            after,
            endpoint,
            k,
        ) == secret_read(s, endpoint, k)
}

/// What is taken out of a changed connection is put back, and what stood for a secret still stands
/// for the one that was kept: with the secrets put in, the changed connection is the one that was
/// given with the secrets put in that were kept before.
pub proof fn changed_secrets_are_put_back(
    s: StoreV,
    after: StoreV,
    endpoint: Seq<char>,
    o: Seq<(Seq<char>, JsonV)>,
    keys: Seq<Seq<char>>,
    c: ChangeV,
)
    requires
        ascending(entry_keys(o)),
        change_of(s, endpoint, o, keys) == Ok::<ChangeV, ReplyV>(c),
        secrets_changed(s, after, endpoint, c.secrets, c.dropped),
    ensures
        filled(after, endpoint, c.entries, keys, keys.len() as int) == filled(
            s,
            endpoint,
            o,
            keys,
            keys.len() as int,
        ),
        filled(s, endpoint, o, keys, keys.len() as int) is Ok,
{
    let n = keys.len() as int;
    let split = split_change(s, endpoint, o, keys, n)->Ok_0;
    let e = c.entries;
    lemma_change_entries(s, endpoint, o, keys, n);
    marker_is_a_marker();
    assert(entry_keys(e) =~= entry_keys(o));
    assert forall|i: int| 0 <= i < o.len() && among(keys, n, (#[trigger] o[i]).0) implies !c.dropped.contains(
        o[i].0,
    ) by {
        if c.dropped.contains(o[i].0) {
            let kept = ordered_keys(rows_for(s.secrets, endpoint));
            lemma_leftovers(split.dropped, keys, kept, kept.len() as int, o[i].0);
            let j = choose|j: int| 0 <= j < n && #[trigger] keys[j] == o[i].0;
            assert(keys[j] == o[i].0);
            assert(split.dropped.contains(o[i].0));
        }
    }
    assert forall|i: int| 0 <= i < o.len() && taken(o, keys, n, i) implies secret_read(
        after,
        endpoint,
        (#[trigger] e[i]).0,
    ) == Ok::<Option<Seq<char>>, StoreFault>(Some(o[i].1->String_0)) by {
        assert(c.secrets.contains((o[i].0, o[i].1->String_0)));
        assert(among(keys, n, o[i].0));
    }
    assert forall|i: int|
        0 <= i < o.len() && among(keys, n, o[i].0) && is_marker(o[i].1) implies secret_read(
        after,
        endpoint,
        (#[trigger] e[i]).0,
    ) == secret_read(s, endpoint, o[i].0) by {
        assert forall|a: int| 0 <= a < c.secrets.len() implies (#[trigger] c.secrets[a]).0
            != o[i].0 by {
            assert(taken_under(o, keys, n, split.secrets[a].0));
            let q = choose|q: int|
                0 <= q < o.len() && #[trigger] taken(o, keys, n, q) && o[q].0 == c.secrets[a].0;
            if q != i {
                lemma_keys_differ(o, q, i);
            }
        }
    }
    lemma_filled_entries(s, endpoint, o, keys, n);
    lemma_filled_entries(after, endpoint, e, keys, n);
    let was = filled(s, endpoint, o, keys, n)->Ok_0;
    let now = filled(after, endpoint, e, keys, n)->Ok_0;
    assert(now =~= was) by {
        assert forall|i: int| 0 <= i < o.len() implies now[i] == #[trigger] was[i] by {
            assert(e[i].0 == o[i].0);
        }
    }
}

/// A plain connection stays plain when its secrets are taken out to change them.
pub proof fn a_changed_connection_is_plain(
    s: StoreV,
    endpoint: Seq<char>,
    o: Seq<(Seq<char>, JsonV)>,
    keys: Seq<Seq<char>>,
    depth: nat,
)
    requires
        plain(JsonV::Object(o), depth),
        depth >= 2,
        change_of(s, endpoint, o, keys) is Ok,
    ensures
        plain(JsonV::Object(change_of(s, endpoint, o, keys)->Ok_0.entries), depth),
{
    let n = keys.len() as int;
    let e = split_change(s, endpoint, o, keys, n)->Ok_0.entries;
    lemma_change_entries(s, endpoint, o, keys, n);
    assert(entry_keys(e) =~= entry_keys(o));
    let d = (depth - 1) as nat;
    plain_entries_one_by_one(o, d);
    plain_entries_one_by_one(e, d);
    assert(plain(marker(), d)) by {
        let m = seq![("secret_set"@, JsonV::Bool(true))];
        reveal_strlit("secret_set");
        other_keys_are_written_as_objects(m);
        plain_entries_one_by_one(m, (d - 1) as nat);
    }
}

/// Each secret that is taken out of a changed connection is of another field.
pub proof fn changed_secrets_are_of_different_fields(
    s: StoreV,
    endpoint: Seq<char>,
    o: Seq<(Seq<char>, JsonV)>,
    keys: Seq<Seq<char>>,
    a: int,
    b: int,
)
    requires
        ascending(entry_keys(o)),
        change_of(s, endpoint, o, keys) is Ok,
        0 <= a < b < change_of(s, endpoint, o, keys)->Ok_0.secrets.len(),
    ensures
        change_of(s, endpoint, o, keys)->Ok_0.secrets[a].0 != change_of(
            s,
            endpoint,
            o,
            keys,
        )->Ok_0.secrets[b].0,
{
    lemma_change_entries(s, endpoint, o, keys, keys.len() as int);
}

proof fn lemma_split_change_fails(
    s: StoreV,
    endpoint: Seq<char>,
    o: Seq<(Seq<char>, JsonV)>,
    keys: Seq<Seq<char>>,
    n: int,
    m: int,
)
    requires
        n <= m,
        split_change(s, endpoint, o, keys, n) is Err,
    ensures
        split_change(s, endpoint, o, keys, m) == split_change(
            s,
            endpoint,
            o,
            keys,
            n,
        ),
    decreases m,
{
    if n < m && m > 0 {
        lemma_split_change_fails(s, endpoint, o, keys, n, m - 1);
    }
}

/// A changed connection whose secrets have been taken out.
#[derive(Debug, PartialEq)]
pub struct ConnectionChange {
    pub entries: Vec<(String, Json)>,
    pub secrets: Vec<(String, String)>,
    pub dropped: Vec<String>,
}

impl View for ConnectionChange {
    type V = ChangeV;

    open spec fn view(&self) -> ChangeV {
        ChangeV {
            entries: entries_view(self.entries@),
            secrets: pairs_view(self.secrets@),
            dropped: texts_view(self.dropped@),
        }
    }
}

fn contains_key(list: &Vec<String>, s: &str) -> (r: bool)
    ensures
        r == texts_view(list@).contains(s@),
{
    let r: bool = texts_contain(list, s);
    proof {
        let all = texts_view(list@);
        if r {
            let i = choose|i: int| 0 <= i < list@.len() && (#[trigger] list@[i])@ == s@;
            assert(all[i] == s@);
        }
        if all.contains(s@) {
            let i = choose|i: int| 0 <= i < all.len() && all[i] == s@;
            assert(list@[i]@ == s@);
        }
    }
    r
}

enum Found {
    Nothing,
    Text(String),
    Marker,
    Other,
}

fn look(o: &Vec<(String, Json)>, key: &str) -> (r: Found)
    ensures
        match r {
            Found::Nothing => object_get(entries_view(o@), key@) is None,
            Found::Text(t) => text_under(entries_view(o@), key@) == Some(t@),
            Found::Marker => text_under(entries_view(o@), key@) is None && marker_under(
                entries_view(o@),
                key@,
            ),
            Found::Other => object_get(entries_view(o@), key@) is Some && text_under(
                entries_view(o@),
                key@,
            ) is None && !marker_under(entries_view(o@), key@),
        },
{
    match entry(o, key) {
        None => Found::Nothing,
        Some(v) => match text_of(o, key) {
            Some(t) => Found::Text(t.clone()),
            None => if is_secret_marker(v) {
                Found::Marker
            } else {
                Found::Other
            },
        },
    }
}

/// Takes the secrets out of a changed connection.
pub fn split_changed_secrets(
    entries: Vec<(String, Json)>,
    secret_keys: &Vec<String>,
    store: &ConfigStore,
    endpoint_id: &str,
) -> (r: Result<ConnectionChange, ApiResponse>)
    requires
        store_ok(store@),
    ensures
        match r {
            Ok(c) => change_of(
                store@,
                endpoint_id@,
                entries_view(entries@),
                texts_view(secret_keys@),
            ) == Ok::<ChangeV, ReplyV>(c@),
            Err(e) => change_of(
                store@,
                endpoint_id@,
                entries_view(entries@),
                texts_view(secret_keys@),
            ) == Err::<ChangeV, ReplyV>(e@),
        },
{
    let ghost o = entries_view(entries@);
    let ghost keys = texts_view(secret_keys@);
    let ghost s = store@;
    let ghost ep = endpoint_id@;
    let mut c: ConnectionChange = ConnectionChange {
        entries,
        secrets: Vec::new(),
        dropped: Vec::new(),
    };
    assert(pairs_view(c.secrets@) =~= Seq::<(Seq<char>, Seq<char>)>::empty());
    assert(texts_view(c.dropped@) =~= Seq::<Seq<char>>::empty());
    let mut i: usize = 0;
    while i < secret_keys.len()
        invariant
            i <= secret_keys.len(),
            store_ok(store@),
            s == store@,
            o == entries_view(entries@),
            ep == endpoint_id@,
            keys == texts_view(secret_keys@),
            split_change(s, ep, o, keys, i as int) == Ok::<ChangeV, ReplyV>(c@),
        decreases secret_keys.len() - i,
    {
        let key: &str = secret_keys[i].as_str();
        let ghost n = secret_keys@.len() as int;
        let ghost before = c@;
        assert(keys[i as int] == key@);
        match look(&c.entries, key) {
            Found::Nothing => {
                c.dropped.push(key.to_owned());
                assert(texts_view(c.dropped@) =~= before.dropped.push(key@));
                assert(c@ == (ChangeV { dropped: before.dropped.push(key@), ..before }));
            },
            Found::Text(t) => {
                let ghost text = t@;
                c.secrets.push((key.to_owned(), t));
                assert(pairs_view(c.secrets@) =~= before.secrets.push((key@, text)));
                set_entry(&mut c.entries, key, secret_marker());
            },
            Found::Marker => {
                match store.get_secret(endpoint_id, key) {
                    Ok(Some(_)) => {},
                    Ok(None) => {
                        proof {
                            lemma_split_change_fails(s, ep, o, keys, i + 1, n);
                        }
                        return Err(
                            complain(
                                400,
                                "SECRET_NOT_FOUND",
                                cat3("field `", key, "` marker 存在但无对应 Secret").as_str(),
                            ),
                        );
                    },
                    Err(f) => {
                        proof {
                            lemma_split_change_fails(s, ep, o, keys, i + 1, n);
                        }
                        return Err(store_err_to_response(f));
                    },
                }
            },
            Found::Other => {},
        }
        i = i + 1;
    }
    let ghost first = c@;
    let kept: Vec<String> = store.list_secret_fields(endpoint_id);
    let ghost kv = texts_view(kept@);
    let mut k: usize = 0;
    while k < kept.len()
        invariant
            k <= kept.len(),
            kv == texts_view(kept@),
            keys == texts_view(secret_keys@),
            c@ == (ChangeV {
                dropped: with_leftovers(first.dropped, keys, kv, k as int),
                ..first
            }),
        decreases kept.len() - k,
    {
        let ghost before = c@;
        if !contains_key(secret_keys, kept[k].as_str()) && !contains_key(
            &c.dropped,
            kept[k].as_str(),
        ) {
            c.dropped.push(kept[k].clone());
            assert(texts_view(c.dropped@) =~= before.dropped.push(kept@[k as int]@));
        }
        k = k + 1;
    }
    Ok(c)
}

// ---------------------------------------------------------------------------
// Taking secrets out one by one
// ---------------------------------------------------------------------------

/// A connection with the first `n` of its secrets taken out.
pub open spec fn marked(o: Seq<(Seq<char>, JsonV)>, keys: Seq<Seq<char>>, n: int) -> Seq<
    (Seq<char>, JsonV),
>
    decreases n,
{
    if n <= 0 {
        o
    } else {
        let before = marked(o, keys, n - 1);
        if text_under(before, keys[n - 1]) is Some {
            object_set(before, keys[n - 1], marker())
        } else {
            before
        }
    }
}

/// Whether a connection holds a text under one of some keys.
pub open spec fn holds_secret(
    o: Seq<(Seq<char>, JsonV)>,
    keys: Seq<Seq<char>>,
    field: Seq<char>,
) -> bool {
    keys.contains(field) && text_under(o, field) is Some
}

/// How many texts a connection holds under the first `n` of some keys.
pub open spec fn held(o: Seq<(Seq<char>, JsonV)>, keys: Seq<Seq<char>>, n: int) -> nat
    decreases n,
{
    if n <= 0 {
        0
    } else {
        held(o, keys, n - 1) + if text_under(marked(o, keys, n - 1), keys[n - 1]) is Some {
            1nat
        } else {
            0nat
        }
    }
}

/// The store with the texts kept that a connection holds under the first `n` of some keys, each
/// under the nonce that was drawn for it; or what is kept when one of them cannot be, under which
/// key it stands, and why it cannot.
pub open spec fn kept_one_by_one(
    s: StoreV,
    endpoint: Seq<char>,
    o: Seq<(Seq<char>, JsonV)>,
    keys: Seq<Seq<char>>,
    drawn: Seq<Result<Vec<u8>, String>>,
    now: i64,
    n: int,
) -> Result<StoreV, (StoreV, int, StoreFault)>
    decreases n,
{
    if n <= 0 {
        Ok(s)
    } else {
        match kept_one_by_one(s, endpoint, o, keys, drawn, now, n - 1) {
            Err(x) => Err(x),
            Ok(before) => match text_under(marked(o, keys, n - 1), keys[n - 1]) {
                None => Ok(before),
                Some(t) => match secret_put(
                    before,
                    endpoint,
                    (keys[n - 1], t),
                    "master"@,
                    drawn_view(drawn[held(o, keys, n - 1) as int]),
                    now,
                ) {
                    Ok(after) => Ok(after),
                    Err(f) => Err((before, n - 1, f)),
                },
            },
        }
    }
}

/// Whether the texts that a connection holds under the first `n` of some keys can be read as the
/// secrets of an endpoint.
pub open spec fn held_secrets_read(
    s: StoreV,
    endpoint: Seq<char>,
    o: Seq<(Seq<char>, JsonV)>,
    keys: Seq<Seq<char>>,
    n: int,
) -> bool {
    forall|j: int|
        0 <= j < n && text_under(o, #[trigger] keys[j]) is Some ==> secret_read(
            s,
            endpoint,
            keys[j],
        ) == Ok::<Option<Seq<char>>, StoreFault>(text_under(o, keys[j]))
}

proof fn lemma_kept_fails(
    s: StoreV,
    endpoint: Seq<char>,
    o: Seq<(Seq<char>, JsonV)>,
    keys: Seq<Seq<char>>,
    drawn: Seq<Result<Vec<u8>, String>>,
    now: i64,
    n: int,
    m: int,
)
    requires
        n <= m,
        kept_one_by_one(s, endpoint, o, keys, drawn, now, n) is Err,
    ensures
        kept_one_by_one(s, endpoint, o, keys, drawn, now, m) == kept_one_by_one(
            s,
            endpoint,
            o,
            keys,
            drawn,
            now,
            n,
        ),
    decreases m,
{
    if n < m && m > 0 {
        lemma_kept_fails(s, endpoint, o, keys, drawn, now, n, m - 1);
    }
}

proof fn lemma_held_grows(o: Seq<(Seq<char>, JsonV)>, keys: Seq<Seq<char>>, n: int, m: int)
    requires
        n <= m,
    ensures
        held(o, keys, n) <= held(o, keys, m),
    decreases m,
{
    if n < m && m > 0 {
        lemma_held_grows(o, keys, n, m - 1);
    }
}

proof fn lemma_kept(
    s: StoreV,
    endpoint: Seq<char>,
    o: Seq<(Seq<char>, JsonV)>,
    keys: Seq<Seq<char>>,
    drawn: Seq<Result<Vec<u8>, String>>,
    now: i64,
    n: int,
)
    requires
        kept_one_by_one(s, endpoint, o, keys, drawn, now, n) is Ok,
    ensures
        kept_one_by_one(s, endpoint, o, keys, drawn, now, n)->Ok_0 == (StoreV {
            secrets: kept_one_by_one(s, endpoint, o, keys, drawn, now, n)->Ok_0.secrets,
            ..s
        }),
        held(o, keys, n) == 0 ==> kept_one_by_one(s, endpoint, o, keys, drawn, now, n)->Ok_0 == s,
    decreases n,
{
    if n > 0 {
        lemma_kept(s, endpoint, o, keys, drawn, now, n - 1);
    }
}

/// All secrets of a connection are kept just where it holds none, or where there is the endpoint
/// and each of them is sealed under what was drawn for it.
pub proof fn all_secrets_are_kept(
    s: StoreV,
    endpoint: Seq<char>,
    o: Seq<(Seq<char>, JsonV)>,
    keys: Seq<Seq<char>>,
    drawn: Seq<Result<Vec<u8>, String>>,
    now: i64,
    n: int,
)
    requires
        0 <= n <= keys.len(),
    ensures
        kept_one_by_one(s, endpoint, o, keys, drawn, now, n) is Ok <==> held(o, keys, n) == 0 || (
        s.endpoints.contains_key(endpoint) && forall|j: int|
            0 <= j < n ==> (text_under(marked(o, keys, j), #[trigger] keys[j]) matches Some(t)
                ==> sealing(t, s.master_key, drawn_view(drawn[held(o, keys, j) as int])) is Ok)),
    decreases n,
{
    if n > 0 {
        all_secrets_are_kept(s, endpoint, o, keys, drawn, now, n - 1);
        if kept_one_by_one(s, endpoint, o, keys, drawn, now, n - 1) is Ok {
            lemma_kept(s, endpoint, o, keys, drawn, now, n - 1);
            if held(o, keys, n - 1) == 0 {
                lemma_none_held(o, keys, n - 1);
            }
        }
        if held(o, keys, n) == 0 {
            lemma_held_grows(o, keys, n - 1, n);
        }
    }
}

proof fn lemma_none_held(o: Seq<(Seq<char>, JsonV)>, keys: Seq<Seq<char>>, n: int)
    requires
        held(o, keys, n) == 0,
    ensures
        forall|j: int| 0 <= j < n ==> text_under(marked(o, keys, j), #[trigger] keys[j]) is None,
    decreases n,
{
    if n > 0 {
        lemma_none_held(o, keys, n - 1);
    }
}

/// Keeps the secrets of a connection one by one, each under the nonce that was drawn for it, and
/// puts in the connection what stands for them. Where one cannot be kept, those before it have
/// been, and the connection is as it was from there on. No other secret changes.
pub fn process_connection_drawn(
    conn: &mut Vec<(String, Json)>,
    endpoint_id: &str,
    store: &mut ConfigStore,
    secret_keys: &Vec<String>,
    drawn: Vec<Result<Vec<u8>, String>>,
    now: i64,
) -> (r: Result<(), StoreError>)
    requires
        store_ok(old(store)@),
        drawn@.len() == held(
            entries_view(old(conn)@),
            texts_view(secret_keys@),
            secret_keys@.len() as int,
        ),
        forall|i: int| 0 <= i < drawn@.len() ==> draws_nonce(#[trigger] drawn@[i]),
    ensures
        store_ok(final(store)@),
        match kept_one_by_one(
            old(store)@,
            endpoint_id@,
            entries_view(old(conn)@),
            texts_view(secret_keys@),
            drawn@,
            now,
            secret_keys@.len() as int,
        ) {
            Ok(s) => {
                &&& r is Ok
                &&& final(store)@ == s
                &&& entries_view(final(conn)@) == marked(
                    entries_view(old(conn)@),
                    texts_view(secret_keys@),
                    secret_keys@.len() as int,
                )
                &&& held_secrets_read(
                    s,
                    endpoint_id@,
                    entries_view(old(conn)@),
                    texts_view(secret_keys@),
                    secret_keys@.len() as int,
                )
            },
            Err(x) => {
                &&& r is Err
                &&& r->Err_0@ == x.2
                &&& final(store)@ == x.0
                &&& entries_view(final(conn)@) == marked(
                    entries_view(old(conn)@),
                    texts_view(secret_keys@),
                    x.1,
                )
                &&& 0 <= x.1 < secret_keys@.len()
                &&& text_under(
                    marked(entries_view(old(conn)@), texts_view(secret_keys@), x.1),
                    texts_view(secret_keys@)[x.1],
                ) is Some
                &&& held_secrets_read(
                    x.0,
                    endpoint_id@,
                    entries_view(old(conn)@),
                    texts_view(secret_keys@),
                    x.1,
                )
            },
        },
        forall|e: Seq<char>, f: Seq<char>|
            e != endpoint_id@ || !holds_secret(
                entries_view(old(conn)@),
                texts_view(secret_keys@),
                f,
            ) ==> #[trigger] secret_read(final(store)@, e, f) == secret_read(old(store)@, e, f),
        final(store)@ == (StoreV { secrets: final(store)@.secrets, ..old(store)@ }),
{
    let ghost o = entries_view(conn@);
    let ghost keys = texts_view(secret_keys@);
    let ghost ep = endpoint_id@;
    let ghost first = store@;
    let ghost len = secret_keys@.len() as int;
    let mut k: usize = 0;
    let mut i: usize = 0;
    while i < secret_keys.len()
        invariant
            i <= secret_keys.len(),
            len == secret_keys@.len(),
            store_ok(store@),
            o == entries_view(old(conn)@),
            keys == texts_view(secret_keys@),
            ep == endpoint_id@,
            first == old(store)@,
            drawn@.len() == held(o, keys, len),
            forall|j: int| 0 <= j < drawn@.len() ==> draws_nonce(#[trigger] drawn@[j]),
            k == held(o, keys, i as int),
            kept_one_by_one(first, ep, o, keys, drawn@, now, i as int) == Ok::<
                StoreV,
                (StoreV, int, StoreFault),
            >(store@),
            forall|e: Seq<char>, f: Seq<char>|
                e != ep || !holds_secret(o, keys, f) ==> #[trigger] secret_read(store@, e, f)
                    == secret_read(first, e, f),
            store@ == (StoreV { secrets: store@.secrets, ..first }),
            entries_view(conn@) == marked(o, keys, i as int),
            held_secrets_read(store@, ep, o, keys, i as int),
        decreases secret_keys.len() - i,
    {
        let key: &str = secret_keys[i].as_str();
        assert(keys[i as int] == key@);
        let found: Option<String> = match text_of(conn, key) {
            Some(t) => Some(t.clone()),
            None => None,
        };
        proof {
            lemma_marked(o, keys, i as int, key@);
            lemma_held_grows(o, keys, i + 1, len);
        }
        match found {
            Some(t) => {
                let ghost was = store@;
                let ghost text = t@;
                assert(holds_secret(o, keys, key@)) by {
                    assert(keys.contains(keys[i as int]));
                }
                let nonce: Result<Vec<u8>, String> = match &drawn[k] {
                    Ok(n) => Ok(n.clone()),
                    Err(e) => Err(e.clone()),
                };
                assert(drawn_view(nonce) == drawn_view(drawn@[k as int])) by {
                    assert(draws_nonce(drawn@[k as int]));
                    if nonce is Ok {
                        assert(nonce->Ok_0@ =~= drawn@[k as int]->Ok_0@);
                    }
                }
                assert(draws_nonce(nonce)) by {
                    assert(draws_nonce(drawn@[k as int]));
                }
                match store.put_secret_drawn(endpoint_id, key, t.as_str(), "master", nonce, now) {
                    Ok(()) => {},
                    Err(f) => {
                        proof {
                            lemma_kept_fails(first, ep, o, keys, drawn@, now, i + 1, len);
                        }
                        return Err(f);
                    },
                }
                set_entry(conn, key, secret_marker());
                k = k + 1;
                proof {
                    let x = sealing(text, was.master_key, drawn_view(nonce))->Ok_0;
                    let v = SealedV { field: key@, ciphertext: x.0, nonce: x.1 };
                    assert(store@ == secret_kept(was, ep, v, "master"@, now));
                    assert forall|e: Seq<char>, f: Seq<char>|
                        e != ep || !holds_secret(o, keys, f) implies #[trigger] secret_read(
                        store@,
                        e,
                        f,
                    ) == secret_read(first, e, f) by {
                        assert(secret_read(was, e, f) == secret_read(first, e, f));
                        if e == ep {
                            assert(f != key@);
                        }
                    }
                    assert forall|j: int|
                        0 <= j < i + 1 && text_under(o, #[trigger] keys[j]) is Some implies secret_read(
                        store@,
                        ep,
                        keys[j],
                    ) == Ok::<Option<Seq<char>>, StoreFault>(text_under(o, keys[j])) by {
                        if keys[j] != key@ {
                            assert(rows_for(store@.secrets, ep)[keys[j]] == rows_for(
                                was.secrets,
                                ep,
                            )[keys[j]]);
                        }
                    }
                }
            },
            None => {
                proof {
                    assert forall|j: int|
                        0 <= j < i + 1 && text_under(o, #[trigger] keys[j]) is Some implies secret_read(
                        store@,
                        ep,
                        keys[j],
                    ) == Ok::<Option<Seq<char>>, StoreFault>(text_under(o, keys[j])) by {
                        if j == i {
                            let a = keys.subrange(0, i as int);
                            assert(a.contains(key@));
                            let m = choose|m: int| 0 <= m < a.len() && a[m] == key@;
                            assert(keys[m] == key@);
                        }
                    }
                }
            },
        }
        i = i + 1;
    }
    Ok(())
}

fn count_held(conn: &Vec<(String, Json)>, secret_keys: &Vec<String>) -> (r: usize)
    ensures
        r == held(entries_view(conn@), texts_view(secret_keys@), secret_keys@.len() as int),
{
    let ghost o = entries_view(conn@);
    let ghost keys = texts_view(secret_keys@);
    let mut before: Vec<String> = Vec::new();
    let mut count: usize = 0;
    let mut i: usize = 0;
    while i < secret_keys.len()
        invariant
            i <= secret_keys.len(),
            o == entries_view(conn@),
            keys == texts_view(secret_keys@),
            texts_view(before@) == keys.subrange(0, i as int),
            count == held(o, keys, i as int),
            count <= i,
        decreases secret_keys.len() - i,
    {
        let key: &str = secret_keys[i].as_str();
        assert(keys[i as int] == key@);
        proof {
            lemma_marked(o, keys, i as int, key@);
            let seen = texts_view(before@);
            if seen.contains(key@) {
                let j = choose|j: int| 0 <= j < seen.len() && seen[j] == key@;
                assert(before@[j]@ == key@);
            }
            if texts_hold(before@, key@) {
                let j = choose|j: int| 0 <= j < before@.len() && (#[trigger] before@[j])@ == key@;
                assert(seen[j] == key@);
            }
        }
        if !texts_contain(&before, key) && text_of(conn, key).is_some() {
            count = count + 1;
        }
        let ghost was = texts_view(before@);
        before.push(secret_keys[i].clone());
        assert(texts_view(before@) =~= was.push(key@));
        assert(keys.subrange(0, i + 1) =~= keys.subrange(0, i as int).push(key@));
        i = i + 1;
    }
    count
}

/// Keeps the secrets of a connection one by one, and puts in the connection what stands for them,
/// as [`process_connection_drawn`] does under nonces that are drawn for them.
pub fn process_connection_for_store(
    conn: &mut Vec<(String, Json)>,
    endpoint_id: &str,
    store: &mut ConfigStore,
    secret_keys: &Vec<String>,
) -> (r: Result<(), StoreError>)
    requires
        store_ok(old(store)@),
    ensures
        store_ok(final(store)@),
        exists|drawn: Seq<Result<Vec<u8>, String>>, now: i64|
            match #[trigger] kept_one_by_one(
                old(store)@,
                endpoint_id@,
                entries_view(old(conn)@),
                texts_view(secret_keys@),
                drawn,
                now,
                secret_keys@.len() as int,
            ) {
                Ok(s) => r is Ok && final(store)@ == s,
                Err(x) => r is Err && r->Err_0@ == x.2 && final(store)@ == x.0,
            },
        match r {
            Ok(()) => {
                &&& entries_view(final(conn)@) == marked(
                    entries_view(old(conn)@),
                    texts_view(secret_keys@),
                    secret_keys@.len() as int,
                )
                &&& held_secrets_read(
                    final(store)@,
                    endpoint_id@,
                    entries_view(old(conn)@),
                    texts_view(secret_keys@),
                    secret_keys@.len() as int,
                )
            },
            Err(e) => {
                &&& e@ is Validation || (e@ == broken_reference() && !old(
                    store,
                )@.endpoints.contains_key(endpoint_id@))
                &&& exists|n: int|
                    {
                        &&& 0 <= n < secret_keys@.len()
                        &&& text_under(
                            #[trigger] marked(
                                entries_view(old(conn)@),
                                texts_view(secret_keys@),
                                n,
                            ),
                            texts_view(secret_keys@)[n],
                        ) is Some
                        &&& entries_view(final(conn)@) == marked(
                            entries_view(old(conn)@),
                            texts_view(secret_keys@),
                            n,
                        )
                        &&& held_secrets_read(
                            final(store)@,
                            endpoint_id@,
                            entries_view(old(conn)@),
                            texts_view(secret_keys@),
                            n,
                        )
                    }
            },
        },
        held(entries_view(old(conn)@), texts_view(secret_keys@), secret_keys@.len() as int) == 0
            ==> r is Ok && final(store)@ == old(store)@,
        forall|e: Seq<char>, f: Seq<char>|
            e != endpoint_id@ || !holds_secret(
                entries_view(old(conn)@),
                texts_view(secret_keys@),
                f,
            ) ==> #[trigger] secret_read(final(store)@, e, f) == secret_read(old(store)@, e, f),
        final(store)@ == (StoreV { secrets: final(store)@.secrets, ..old(store)@ }),
{
    let n: usize = count_held(conn, secret_keys);
    let mut drawn: Vec<Result<Vec<u8>, String>> = Vec::new();
    let mut i: usize = 0;
    while i < n
        invariant
            i <= n,
            drawn@.len() == i,
            forall|j: int| 0 <= j < drawn@.len() ==> draws_nonce(#[trigger] drawn@[j]),
        decreases n - i,
    {
        drawn.push(draw_nonce());
        i = i + 1;
    }
    let now: i64 = now_unix_ns();
    let ghost draws = drawn@;
    let ghost o = entries_view(conn@);
    let ghost keys = texts_view(secret_keys@);
    let ghost len = secret_keys@.len() as int;
    let ghost out = kept_one_by_one(store@, endpoint_id@, o, keys, draws, now, len);
    proof {
        all_secrets_are_kept(store@, endpoint_id@, o, keys, draws, now, len);
        if out is Ok {
            lemma_kept(store@, endpoint_id@, o, keys, draws, now, len);
        } else {
            lemma_kept_fault(store@, endpoint_id@, o, keys, draws, now, len);
        }
    }
    let r: Result<(), StoreError> = process_connection_drawn(
        conn,
        endpoint_id,
        store,
        secret_keys,
        drawn,
        now,
    );
    proof {
        if r is Err {
            let m = out->Err_0.1;
            assert(entries_view(conn@) == marked(o, keys, m));
        }
    }
    r
}

proof fn lemma_kept_fault(
    s: StoreV,
    endpoint: Seq<char>,
    o: Seq<(Seq<char>, JsonV)>,
    keys: Seq<Seq<char>>,
    drawn: Seq<Result<Vec<u8>, String>>,
    now: i64,
    n: int,
)
    requires
        kept_one_by_one(s, endpoint, o, keys, drawn, now, n) is Err,
    ensures
        kept_one_by_one(s, endpoint, o, keys, drawn, now, n)->Err_0.2 is Validation || (
        kept_one_by_one(s, endpoint, o, keys, drawn, now, n)->Err_0.2 == broken_reference()
            && !s.endpoints.contains_key(endpoint)),
    decreases n,
{
    if n > 0 {
        if kept_one_by_one(s, endpoint, o, keys, drawn, now, n - 1) is Err {
            lemma_kept_fault(s, endpoint, o, keys, drawn, now, n - 1);
        } else {
            lemma_kept(s, endpoint, o, keys, drawn, now, n - 1);
        }
    }
}

proof fn lemma_marked(o: Seq<(Seq<char>, JsonV)>, keys: Seq<Seq<char>>, n: int, k: Seq<char>)
    requires
        0 <= n <= keys.len(),
    ensures
        keys.subrange(0, n).contains(k) ==> text_under(marked(o, keys, n), k) is None,
        !keys.subrange(0, n).contains(k) ==> object_get(marked(o, keys, n), k) == object_get(o, k),
    decreases n,
{
    if n > 0 {
        let before = marked(o, keys, n - 1);
        lemma_marked(o, keys, n - 1, k);
        crate::json::object_get_after_set(before, keys[n - 1], marker(), k);
        let a = keys.subrange(0, n - 1);
        let b = keys.subrange(0, n);
        assert(b =~= a.push(keys[n - 1]));
        if b.contains(k) && k != keys[n - 1] {
            let i = choose|i: int| 0 <= i < b.len() && b[i] == k;
            assert(a[i] == k);
        }
        if a.contains(k) {
            let i = choose|i: int| 0 <= i < a.len() && a[i] == k;
            assert(b[i] == k);
        }
        if k == keys[n - 1] {
            assert(b[n - 1] == k);
        }
    }
}

/// The keys of secrets are the keys of the fields that are secrets, and no others.
pub proof fn secrets_are_the_fields_that_are_secret(fields: Seq<FieldDescriptor>, k: Seq<char>)
    ensures
        secret_keys(fields).contains(k) <==> exists|i: int|
            0 <= i < fields.len() && (#[trigger] fields[i]).field_type is Secret && fields[i].key@
                == k,
    decreases fields.len(),
{
    if fields.len() > 0 {
        let front = fields.drop_last();
        secrets_are_the_fields_that_are_secret(front, k);
        let a = secret_keys(front);
        let b = secret_keys(fields);
        if a.contains(k) {
            let i = choose|i: int|
                0 <= i < front.len() && (#[trigger] front[i]).field_type is Secret && front[i].key@
                    == k;
            assert(fields[i] == front[i]);
            let j = choose|j: int| 0 <= j < a.len() && a[j] == k;
            assert(b[j] == k);
        }
        if fields.last().field_type is Secret && fields.last().key@ == k {
            assert(b[a.len() as int] == k);
            assert(fields[fields.len() - 1].key@ == k);
        }
        if b.contains(k) {
            let j = choose|j: int| 0 <= j < b.len() && b[j] == k;
            if j < a.len() {
                assert(a[j] == k);
            } else {
                assert(fields[fields.len() - 1].key@ == k);
            }
        }
        if exists|i: int|
            0 <= i < fields.len() && (#[trigger] fields[i]).field_type is Secret && fields[i].key@
                == k {
            let i = choose|i: int|
                0 <= i < fields.len() && (#[trigger] fields[i]).field_type is Secret
                    && fields[i].key@ == k;
            if i < front.len() {
                assert(front[i] == fields[i]);
            }
        }
    }
}

/// What stands for a secret is an object that says that the secret is set; nothing but an object
/// that says so is taken for it.
pub proof fn marks_say_that_a_secret_is_set(v: JsonV)
    ensures
        marker() == JsonV::Object(seq![("secret_set"@, JsonV::Bool(true))]),
        is_marker(v) <==> (v is Object && object_get(v->Object_0, "secret_set"@) == Some(
            JsonV::Bool(true),
        )),
{
}

/// Whether a key is one of the first `n`.
pub open spec fn is_among(keys: Seq<Seq<char>>, n: int, key: Seq<char>) -> bool {
    exists|j: int| 0 <= j < n && #[trigger] keys[j] == key
}

proof fn lemma_is_among(keys: Seq<Seq<char>>, n: int, key: Seq<char>)
    requires
        0 < n <= keys.len(),
    ensures
        is_among(keys, n, key) <==> is_among(keys, n - 1, key) || key == keys[n - 1],
{
    if key == keys[n - 1] {
        assert(keys[n - 1] == key);
    }
}

/// What is shown under a key: under that of a secret that is kept, and of one that is written out,
/// that it is set; under any other what is there.
pub proof fn secrets_are_shown_as_set(
    s: StoreV,
    endpoint: Seq<char>,
    o: Seq<(Seq<char>, JsonV)>,
    keys: Seq<Seq<char>>,
    n: int,
    k: Seq<char>,
)
    requires
        0 <= n <= keys.len(),
    ensures
        is_among(keys, n, k) && (secret_read(s, endpoint, k) matches Ok(x) && x is Some)
            ==> object_get(redacted(s, endpoint, o, keys, n), k) == Some(
            JsonV::Object(seq![("secret_set"@, JsonV::Bool(true))]),
        ),
        is_among(keys, n, k) && (object_get(o, k) matches Some(v) && v is String) ==> object_get(
            redacted(s, endpoint, o, keys, n),
            k,
        ) == Some(JsonV::Object(seq![("secret_set"@, JsonV::Bool(true))])),
        !is_among(keys, n, k) ==> object_get(redacted(s, endpoint, o, keys, n), k) == object_get(
            o,
            k,
        ),
        !(secret_read(s, endpoint, k) matches Ok(x) && x is Some) && !(object_get(o, k) matches Some(
            v,
        ) && v is String) ==> object_get(redacted(s, endpoint, o, keys, n), k) == object_get(o, k),
    decreases n,
{
    if n > 0 {
        let before = redacted(s, endpoint, o, keys, n - 1);
        secrets_are_shown_as_set(s, endpoint, o, keys, n - 1, k);
        lemma_is_among(keys, n, k);
        crate::json::object_get_after_set(before, keys[n - 1], marker(), k);
    }
}

/// What a driver gets under a key: the secret that is kept where something stands for it, and what
/// is there under any other; without a secret that is said to be kept nothing is handed out.
pub proof fn kept_secrets_are_handed_out(
    s: StoreV,
    endpoint: Seq<char>,
    o: Seq<(Seq<char>, JsonV)>,
    keys: Seq<Seq<char>>,
    n: int,
    k: Seq<char>,
)
    requires
        0 <= n <= keys.len(),
    ensures
        is_among(keys, n, k) && marker_under(o, k) && !(secret_read(s, endpoint, k) matches Ok(x)
            && x is Some) ==> filled(s, endpoint, o, keys, n) is Err,
        is_among(keys, n, k) && marker_under(o, k) ==> (filled(s, endpoint, o, keys, n) matches Ok(
            r,
        ) ==> object_get(r, k) == Some(JsonV::String(secret_read(s, endpoint, k)->Ok_0->Some_0))),
        !is_among(keys, n, k) || !marker_under(o, k) ==> (filled(
            s,
            endpoint,
            o,
            keys,
            n,
        ) matches Ok(r) ==> object_get(r, k) == object_get(o, k)),
    decreases n,
{
    if n > 0 {
        kept_secrets_are_handed_out(s, endpoint, o, keys, n - 1, k);
        lemma_is_among(keys, n, k);
        if filled(s, endpoint, o, keys, n - 1) is Ok {
            let before = filled(s, endpoint, o, keys, n - 1)->Ok_0;
            if secret_read(s, endpoint, keys[n - 1]) is Ok && secret_read(
                s,
                endpoint,
                keys[n - 1],
            )->Ok_0 is Some {
                let t = secret_read(s, endpoint, keys[n - 1])->Ok_0->Some_0;
                crate::json::object_get_after_set(before, keys[n - 1], JsonV::String(t), k);
            }
        }
    }
}

/// A connection is handed out where every secret that is said to be kept is.
pub proof fn connections_are_handed_out_when_their_secrets_are_kept(
    s: StoreV,
    endpoint: Seq<char>,
    o: Seq<(Seq<char>, JsonV)>,
    keys: Seq<Seq<char>>,
    n: int,
)
    requires
        0 <= n <= keys.len(),
        forall|j: int|
            0 <= j < n && marker_under(o, #[trigger] keys[j]) ==> (secret_read(
                s,
                endpoint,
                keys[j],
            ) matches Ok(x) && x is Some),
    ensures
        filled(s, endpoint, o, keys, n) is Ok,
    decreases n,
{
    if n > 0 {
        connections_are_handed_out_when_their_secrets_are_kept(s, endpoint, o, keys, n - 1);
        kept_secrets_are_handed_out(s, endpoint, o, keys, n - 1, keys[n - 1]);
        let before = filled(s, endpoint, o, keys, n - 1)->Ok_0;
        if is_among(keys, n - 1, keys[n - 1]) && marker_under(o, keys[n - 1]) {
            assert(object_get(before, keys[n - 1]) matches Some(v) && v is String);
        }
    }
}

/// What a new connection keeps under a key, and which secrets are taken out of it: each text under
/// the key of a secret, and nothing else. A mark is no secret, and is refused.
pub proof fn new_secrets_are_taken_out(
    o: Seq<(Seq<char>, JsonV)>,
    keys: Seq<Seq<char>>,
    n: int,
    k: Seq<char>,
    t: Seq<char>,
)
    requires
        0 <= n <= keys.len(),
    ensures
        split_new(o, keys, n) matches Ok(r) ==> {
            &&& object_get(r.entries, k) == (if is_among(keys, n, k) && text_under(o, k) is Some {
                Some(JsonV::Object(seq![("secret_set"@, JsonV::Bool(true))]))
            } else {
                object_get(o, k)
            })
            &&& r.secrets.contains((k, t)) ==> is_among(keys, n, k) && object_get(o, k) == Some(
                JsonV::String(t),
            )
            &&& is_among(keys, n, k) && object_get(o, k) == Some(JsonV::String(t))
                ==> r.secrets.contains((k, t))
            &&& is_among(keys, n, k) ==> !marker_under(o, k)
        },
    decreases n,
{
    if n > 0 {
        new_secrets_are_taken_out(o, keys, n - 1, k, t);
        lemma_is_among(keys, n, k);
        if split_new(o, keys, n) is Ok {
            let before = split_new(o, keys, n - 1)->Ok_0;
            let after = split_new(o, keys, n)->Ok_0;
            crate::json::object_get_after_set(before.entries, keys[n - 1], marker(), k);
            let x = (k, t);
            match text_under(before.entries, keys[n - 1]) {
                Some(u) => {
                    let y = (keys[n - 1], u);
                    if before.secrets.contains(x) {
                        let i = choose|i: int|
                            0 <= i < before.secrets.len() && before.secrets[i] == x;
                        assert(after.secrets[i] == x);
                    }
                    assert(after.secrets[before.secrets.len() as int] == y);
                    if after.secrets.contains(x) {
                        let i = choose|i: int|
                            0 <= i < after.secrets.len() && after.secrets[i] == x;
                        if i < before.secrets.len() {
                            assert(before.secrets[i] == x);
                        }
                    }
                },
                None => {},
            }
        }
    }
}

/// What is wrong with the value of a secret is told without the value.
pub proof fn values_of_secrets_are_not_told(
    issues: Seq<IssueV>,
    keys: Seq<Seq<char>>,
    i: int,
)
    requires
        0 <= i < issues.len(),
    ensures
        discreet(issues, keys).len() == issues.len(),
        discreet(issues, keys)[i].path == issues[i].path,
        discreet(issues, keys)[i].code == issues[i].code,
        (exists|j: int| 0 <= j < keys.len() && issues[i].path == "connection"@ + "."@ + #[trigger] keys[j])
            ==> discreet(issues, keys)[i].message == "secret 不符合 schema"@,
        !(exists|j: int| 0 <= j < keys.len() && issues[i].path == "connection"@ + "."@ + #[trigger] keys[j])
            ==> discreet(issues, keys)[i].message == issues[i].message,
{
}

/// What a changed connection keeps under a key: a mark where a new text is given, and what is given
/// else; the new texts are the secrets, and the keys that are not given are dropped. A mark is
/// taken where the secret is kept.
pub proof fn changed_secrets_are_taken_out(
    s: StoreV,
    endpoint: Seq<char>,
    o: Seq<(Seq<char>, JsonV)>,
    keys: Seq<Seq<char>>,
    n: int,
    k: Seq<char>,
    t: Seq<char>,
)
    requires
        0 <= n <= keys.len(),
        keys.no_duplicates(),
    ensures
        split_change(s, endpoint, o, keys, n) matches Ok(r) ==> {
            &&& object_get(r.entries, k) == (if is_among(keys, n, k) && text_under(o, k) is Some {
                Some(JsonV::Object(seq![("secret_set"@, JsonV::Bool(true))]))
            } else {
                object_get(o, k)
            })
            &&& r.secrets.contains((k, t)) <==> is_among(keys, n, k) && object_get(o, k) == Some(
                JsonV::String(t),
            )
            &&& r.dropped.contains(k) <==> is_among(keys, n, k) && object_get(o, k) is None
            &&& is_among(keys, n, k) && marker_under(o, k) ==> (secret_read(
                s,
                endpoint,
                k,
            ) matches Ok(x) && x is Some)
        },
    decreases n,
{
    if n > 0 {
        changed_secrets_are_taken_out(s, endpoint, o, keys, n - 1, k, t);
        lemma_is_among(keys, n, k);
        let key = keys[n - 1];
        assert(!is_among(keys, n - 1, key)) by {
            if is_among(keys, n - 1, key) {
                let j = choose|j: int| 0 <= j < n - 1 && #[trigger] keys[j] == key;
                assert(keys[j] != keys[n - 1]);
            }
        }
        if split_change(s, endpoint, o, keys, n) is Ok {
            let before = split_change(s, endpoint, o, keys, n - 1)->Ok_0;
            let after = split_change(s, endpoint, o, keys, n)->Ok_0;
            crate::json::object_get_after_set(before.entries, key, marker(), k);
            changed_secrets_are_taken_out(s, endpoint, o, keys, n - 1, key, t);
            let x = (k, t);
            assert(after.secrets.contains(x) <==> before.secrets.contains(x) || (k == key
                && object_get(o, k) == Some(JsonV::String(t)))) by {
                if before.secrets.contains(x) {
                    let i = choose|i: int| 0 <= i < before.secrets.len() && before.secrets[i] == x;
                    assert(after.secrets[i] == x);
                }
                if after.secrets.contains(x) {
                    let i = choose|i: int| 0 <= i < after.secrets.len() && after.secrets[i] == x;
                    if i < before.secrets.len() {
                        assert(before.secrets[i] == x);
                    }
                }
                if k == key && object_get(o, k) == Some(JsonV::String(t)) {
                    assert(after.secrets[before.secrets.len() as int] == x);
                }
            }
            assert(after.dropped.contains(k) <==> before.dropped.contains(k) || (k == key
                && object_get(o, k) is None)) by {
                if before.dropped.contains(k) {
                    let i = choose|i: int| 0 <= i < before.dropped.len() && before.dropped[i] == k;
                    assert(after.dropped[i] == k);
                }
                if after.dropped.contains(k) {
                    let i = choose|i: int| 0 <= i < after.dropped.len() && after.dropped[i] == k;
                    if i < before.dropped.len() {
                        assert(before.dropped[i] == k);
                    }
                }
                if k == key && object_get(o, k) is None {
                    assert(after.dropped[before.dropped.len() as int] == k);
                }
            }
        }
    }
}

/// The secrets that are kept and that no field asks for any more are dropped too.
pub proof fn secrets_without_a_field_are_dropped(
    dropped: Seq<Seq<char>>,
    keys: Seq<Seq<char>>,
    kept: Seq<Seq<char>>,
    n: int,
    k: Seq<char>,
)
    requires
        0 <= n <= kept.len(),
    ensures
        with_leftovers(dropped, keys, kept, n).contains(k) <==> dropped.contains(k) || (
        !keys.contains(k) && exists|j: int| 0 <= j < n && #[trigger] kept[j] == k),
    decreases n,
{
    if n > 0 {
        secrets_without_a_field_are_dropped(dropped, keys, kept, n - 1, k);
        let before = with_leftovers(dropped, keys, kept, n - 1);
        let after = with_leftovers(dropped, keys, kept, n);
        if before.contains(k) {
            let i = choose|i: int| 0 <= i < before.len() && before[i] == k;
            assert(after[i] == k);
        }
        if after.contains(k) {
            let i = choose|i: int| 0 <= i < after.len() && after[i] == k;
            if i < before.len() {
                assert(before[i] == k);
            } else {
                assert(kept[n - 1] == k);
            }
        }
        if k == kept[n - 1] && !keys.contains(k) && !before.contains(k) {
            assert(after[before.len() as int] == k);
        }
    }
}

/// The connection that is handed out of a text: with the secrets put in where it is an object, as
/// it is where it is another value, and an empty one where it is no JSON.
pub proof fn connections_are_handed_out_as_text(
    s: StoreV,
    endpoint: Seq<char>,
    text: Seq<char>,
    keys: Seq<Seq<char>>,
)
    ensures
        json_parsed(text) matches Ok(v) && !(v is Object) ==> materialized(
            s,
            endpoint,
            text,
            keys,
        ) == Ok::<Seq<char>, StoreFault>(json_text(json_parsed(text)->Ok_0)),
        (json_parsed(text) matches Ok(v) && v is Object) && keys.len() == 0 ==> materialized(
            s,
            endpoint,
            text,
            keys,
        ) == Ok::<Seq<char>, StoreFault>(json_text(json_parsed(text)->Ok_0)),
        (json_parsed(text) matches Ok(v) && v is Object) ==> (materialized(
            s,
            endpoint,
            text,
            keys,
        ) is Ok <==> filled(
            s,
            endpoint,
            json_parsed(text)->Ok_0->Object_0,
            keys,
            keys.len() as int,
        ) is Ok),
        (json_parsed(text) matches Ok(v) && v is Object) ==> (materialized(
            s,
            endpoint,
            text,
            keys,
        ) matches Ok(t) ==> t == json_text(
            JsonV::Object(
                filled(
                    s,
                    endpoint,
                    json_parsed(text)->Ok_0->Object_0,
                    keys,
                    keys.len() as int,
                )->Ok_0,
            ),
        )),
{
}

/// A new connection is taken where nothing stands for a secret in it.
pub proof fn new_connections_are_taken_when_nothing_is_marked(
    o: Seq<(Seq<char>, JsonV)>,
    keys: Seq<Seq<char>>,
    n: int,
)
    requires
        0 <= n <= keys.len(),
        keys.no_duplicates(),
        forall|j: int| 0 <= j < n ==> !marker_under(o, #[trigger] keys[j]),
    ensures
        split_new(o, keys, n) is Ok,
    decreases n,
{
    if n > 0 {
        new_connections_are_taken_when_nothing_is_marked(o, keys, n - 1);
        let key = keys[n - 1];
        if is_among(keys, n - 1, key) {
            let j = choose|j: int| 0 <= j < n - 1 && #[trigger] keys[j] == key;
            assert(keys[j] != keys[n - 1]);
        }
        new_secrets_are_taken_out(o, keys, n - 1, key, Seq::empty());
    }
}

/// A changed connection is taken where every secret that is said to be kept is.
pub proof fn changed_connections_are_taken_when_their_secrets_are_kept(
    s: StoreV,
    endpoint: Seq<char>,
    o: Seq<(Seq<char>, JsonV)>,
    keys: Seq<Seq<char>>,
    n: int,
)
    requires
        0 <= n <= keys.len(),
        keys.no_duplicates(),
        forall|j: int|
            0 <= j < n && marker_under(o, #[trigger] keys[j]) ==> (secret_read(
                s,
                endpoint,
                keys[j],
            ) matches Ok(x) && x is Some),
    ensures
        split_change(s, endpoint, o, keys, n) is Ok,
    decreases n,
{
    if n > 0 {
        changed_connections_are_taken_when_their_secrets_are_kept(s, endpoint, o, keys, n - 1);
        let key = keys[n - 1];
        if is_among(keys, n - 1, key) {
            let j = choose|j: int| 0 <= j < n - 1 && #[trigger] keys[j] == key;
            assert(keys[j] != keys[n - 1]);
        }
        changed_secrets_are_taken_out(s, endpoint, o, keys, n - 1, key, Seq::empty());
    }
}

/// A connection is marked where a text stands under the key of a secret, and stays as it is
/// everywhere else.
pub proof fn texts_of_secrets_are_marked(
    o: Seq<(Seq<char>, JsonV)>,
    keys: Seq<Seq<char>>,
    n: int,
    k: Seq<char>,
)
    requires
        0 <= n <= keys.len(),
    ensures
        is_among(keys, n, k) && text_under(o, k) is Some ==> object_get(marked(o, keys, n), k)
            == Some(JsonV::Object(seq![("secret_set"@, JsonV::Bool(true))])),
        !is_among(keys, n, k) || text_under(o, k) is None ==> object_get(marked(o, keys, n), k)
            == object_get(o, k),
        text_under(o, k) is Some <==> (object_get(o, k) matches Some(v) && v is String),
    decreases n,
{
    if n > 0 {
        texts_of_secrets_are_marked(o, keys, n - 1, k);
        lemma_is_among(keys, n, k);
        crate::json::object_get_after_set(marked(o, keys, n - 1), keys[n - 1], marker(), k);
    }
}

} // verus!
