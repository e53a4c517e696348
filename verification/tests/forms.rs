use ssr_proxy::form::{
    boundary_or_reject, form_boundary, handle_form, handle_user_init, handle_user_login,
    hash_secret, hash_secrets, join, judge, lookup, reply, seal, validate, verdict, wants_value,
    Entry,
    FieldKind, FieldRule, FormPart, FormReply, FormState, FormUse, StorageCommand, Validated,
    Verdict,
};
use ssr_proxy::response::FixedResponse;

fn rule(name: &str, required: bool, pattern: &str, kind: FieldKind) -> FieldRule {
    FieldRule { name: name.to_string(), required, pattern: pattern.to_string(), kind }
}

fn schema() -> Vec<FieldRule> {
    vec![
        rule("username", true, "^[a-z]{3,8}$", FieldKind::Text),
        rule("email", true, "^[^@ ]+@[^@ ]+$", FieldKind::Email),
        rule("password", true, "^.{8,}$", FieldKind::Password),
        rule("nickname", false, "^never$", FieldKind::Text),
    ]
}

fn part(name: &str, value: &str) -> FormPart {
    FormPart { name: name.to_string(), value: Some(value.to_string()) }
}

fn unread(name: &str) -> FormPart {
    FormPart { name: name.to_string(), value: None }
}

fn entry(name: &str, value: &str, secret: bool) -> Entry {
    Entry { name: name.to_string(), value: value.to_string(), secret }
}

fn pair(name: &str, value: &str) -> (String, String) {
    (name.to_string(), value.to_string())
}

fn bad_request(body: &str) -> FixedResponse {
    FixedResponse { status: 400, body: body.to_string() }
}

fn accepted() -> FixedResponse {
    FixedResponse { status: 200, body: "Hello, World!".to_string() }
}

#[test]
fn boundary_is_read_from_a_multipart_content_type() {
    assert_eq!(
        form_boundary(Some("multipart/form-data; boundary=ABCDEFG")),
        Ok("ABCDEFG".to_string())
    );
    assert_eq!(
        form_boundary(Some("multipart/form-data; boundary=------ABCDEFG")),
        Ok("------ABCDEFG".to_string())
    );
}

#[test]
fn request_without_a_boundary_is_turned_down() {
    let rejected = Err(bad_request("Invalid boundary"));
    assert_eq!(form_boundary(None), rejected);
    assert_eq!(form_boundary(Some("text/plain")), rejected);
    assert_eq!(form_boundary(Some("text/plain; boundary=------ABCDEFG")), rejected);
    assert_eq!(form_boundary(Some("boundary=------ABCDEFG")), rejected);
    assert_eq!(form_boundary(Some("multipart/form-data")), rejected);
    assert_eq!(form_boundary(Some("")), rejected);
}

#[test]
fn boundary_or_reject_maps_both_cases() {
    assert_eq!(boundary_or_reject(Some("xyz".to_string())), Ok("xyz".to_string()));
    assert_eq!(boundary_or_reject(None), Err(bad_request("Invalid boundary")));
}

#[test]
fn lookup_finds_the_first_rule_of_a_name() {
    let mut rules = schema();
    rules.push(rule("email", false, "x", FieldKind::Text));
    assert_eq!(lookup(&rules, "email"), Some(&rules[1]));
    assert_eq!(lookup(&rules, "username"), Some(&rules[0]));
    assert_eq!(lookup(&rules, "nickname"), Some(&rules[3]));
    assert_eq!(lookup(&rules, "Email"), None);
    assert_eq!(lookup(&rules, ""), None);
    assert_eq!(lookup(&Vec::new(), "email"), None);
}

#[test]
fn only_required_fields_of_the_schema_want_their_text() {
    let rules = schema();
    assert!(wants_value(&rules, "username"));
    assert!(wants_value(&rules, "password"));
    assert!(!wants_value(&rules, "nickname"));
    assert!(!wants_value(&rules, "unknown"));
}

#[test]
fn verdict_follows_the_rule_the_text_and_the_match() {
    let rules = schema();
    let text = &rules[0];
    let secret = &rules[2];
    let optional = &rules[3];
    assert_eq!(verdict(None, Some("abc"), Some(true)), Verdict::Unknown);
    assert_eq!(verdict(None, None, None), Verdict::Unknown);
    assert_eq!(verdict(Some(optional), Some("abc"), Some(true)), Verdict::Ignored);
    assert_eq!(verdict(Some(optional), None, None), Verdict::Ignored);
    assert_eq!(verdict(Some(text), None, Some(true)), Verdict::Missing);
    assert_eq!(verdict(Some(text), Some(""), Some(true)), Verdict::Missing);
    assert_eq!(verdict(Some(text), Some("abc"), None), Verdict::BadPattern);
    assert_eq!(verdict(Some(text), Some("abc"), Some(false)), Verdict::Mismatch);
    assert_eq!(verdict(Some(text), Some("abc"), Some(true)), Verdict::Keep { secret: false });
    assert_eq!(verdict(Some(&rules[1]), Some("a@b"), Some(true)), Verdict::Keep { secret: false });
    assert_eq!(verdict(Some(secret), Some("abc"), Some(true)), Verdict::Keep { secret: true });
}

#[test]
fn judge_matches_the_text_against_the_pattern() {
    let rules = schema();
    assert_eq!(judge(&rules, "username", Some("alice")), Verdict::Keep { secret: false });
    assert_eq!(judge(&rules, "username", Some("Alice")), Verdict::Mismatch);
    assert_eq!(judge(&rules, "username", Some("al")), Verdict::Mismatch);
    assert_eq!(judge(&rules, "username", Some("alicealice")), Verdict::Mismatch);
    assert_eq!(judge(&rules, "email", Some("a@b.c")), Verdict::Keep { secret: false });
    assert_eq!(judge(&rules, "email", Some("a b@c")), Verdict::Mismatch);
    assert_eq!(judge(&rules, "password", Some("12345678")), Verdict::Keep { secret: true });
    assert_eq!(judge(&rules, "password", Some("1234567")), Verdict::Mismatch);
    assert_eq!(judge(&rules, "username", Some("")), Verdict::Missing);
    assert_eq!(judge(&rules, "username", None), Verdict::Missing);
    assert_eq!(judge(&rules, "nickname", Some("anything")), Verdict::Ignored);
    assert_eq!(judge(&rules, "colour", Some("red")), Verdict::Unknown);
}

#[test]
fn pattern_matches_anywhere_unless_anchored() {
    let rules = vec![rule("code", true, "[0-9]+", FieldKind::Text)];
    assert_eq!(judge(&rules, "code", Some("abc123def")), Verdict::Keep { secret: false });
    assert_eq!(judge(&rules, "code", Some("abcdef")), Verdict::Mismatch);
}

#[test]
fn pattern_that_cannot_be_compiled_is_a_fault() {
    let rules = vec![
        rule("broken", true, "foo(bar", FieldKind::Text),
        rule("huge", true, "\\w{1000}", FieldKind::Text),
    ];
    assert_eq!(judge(&rules, "broken", Some("foo(bar")), Verdict::BadPattern);
    assert_eq!(judge(&rules, "huge", Some("x")), Verdict::BadPattern);
    assert_eq!(judge(&rules, "broken", Some("")), Verdict::Missing);
}

#[test]
fn new_form_is_empty() {
    let form = FormState::new();
    assert!(form.errors().is_empty());
    assert!(form.entries().is_empty());
    assert!(!form.is_faulty());
    assert_eq!(form.finish(), Validated::Accepted(vec![]));
}

#[test]
fn apply_adds_the_complaint_of_the_verdict() {
    let mut form = FormState::new();
    form.apply("colour", "red", Verdict::Unknown);
    form.apply("email", "", Verdict::Missing);
    form.apply("username", "Bob", Verdict::Mismatch);
    form.apply("nickname", "x", Verdict::Ignored);
    assert_eq!(
        form.errors(),
        &vec![
            "colour is not a valid field".to_string(),
            "email is required".to_string(),
            "username is not valid".to_string(),
        ]
    );
    assert!(form.entries().is_empty());
    assert!(!form.is_faulty());
}

#[test]
fn kept_text_replaces_the_earlier_one_of_its_name() {
    let mut form = FormState::new();
    form.apply("username", "alice", Verdict::Keep { secret: false });
    form.apply("email", "a@b", Verdict::Keep { secret: false });
    form.apply("username", "bob", Verdict::Keep { secret: false });
    form.apply("password", "12345678", Verdict::Keep { secret: true });
    form.apply("email", "c@d", Verdict::Keep { secret: false });
    assert_eq!(
        form.entries(),
        &vec![
            entry("username", "bob", false),
            entry("email", "c@d", false),
            entry("password", "12345678", true),
        ]
    );
    assert!(form.errors().is_empty());
}

#[test]
fn faulty_form_takes_no_further_part() {
    let mut form = FormState::new();
    form.apply("username", "alice", Verdict::Keep { secret: false });
    form.apply("broken", "x", Verdict::BadPattern);
    assert!(form.is_faulty());
    let frozen = form.clone();
    form.apply("email", "a@b", Verdict::Keep { secret: false });
    form.apply("colour", "red", Verdict::Unknown);
    form.record(&schema(), "username", Some("carol"));
    assert_eq!(form, frozen);
    assert_eq!(form.finish(), Validated::Fault);
}

#[test]
fn record_judges_and_applies() {
    let rules = schema();
    let mut form = FormState::new();
    form.record(&rules, "username", Some("alice"));
    form.record(&rules, "colour", None);
    form.record(&rules, "nickname", None);
    form.record(&rules, "email", Some("not an email"));
    form.record(&rules, "password", None);
    assert_eq!(form.entries(), &vec![entry("username", "alice", false)]);
    assert_eq!(
        form.errors(),
        &vec![
            "colour is not a valid field".to_string(),
            "email is not valid".to_string(),
            "password is required".to_string(),
        ]
    );
}

#[test]
fn join_puts_a_line_feed_between_lines() {
    assert_eq!(join(&vec![]), "");
    assert_eq!(join(&vec!["one".to_string()]), "one");
    assert_eq!(join(&vec!["one".to_string(), "two".to_string()]), "one\ntwo");
    assert_eq!(
        join(&vec!["a".to_string(), "".to_string(), "c".to_string()]),
        "a\n\nc"
    );
    assert_eq!(join(&vec!["".to_string()]), "");
}

#[test]
fn rejected_form_lists_every_complaint() {
    let rules = schema();
    let parts = vec![
        part("username", "Alice"),
        part("email", ""),
        part("shoe", "42"),
        part("password", "12345678"),
    ];
    let validated = validate(&rules, &parts).finish();
    assert_eq!(
        validated,
        Validated::Rejected(bad_request(
            "username is not valid\nemail is required\nshoe is not a valid field"
        ))
    );
}

#[test]
fn accepted_form_keeps_its_texts_in_order_of_first_arrival() {
    let rules = schema();
    let parts = vec![
        part("email", "a@b"),
        part("nickname", "skipped"),
        part("username", "alice"),
        part("email", "c@d"),
    ];
    let validated = validate(&rules, &parts).finish();
    assert_eq!(
        validated,
        Validated::Accepted(vec![entry("email", "c@d", false), entry("username", "alice", false)])
    );
}

#[test]
fn seal_puts_hashes_in_the_place_of_secrets() {
    let entries = vec![
        entry("username", "alice", false),
        entry("password", "12345678", true),
        entry("email", "a@b", false),
    ];
    let hashes = vec![None, Some("HASH".to_string()), Some("unused".to_string())];
    assert_eq!(
        seal(entries.clone(), hashes),
        Some(vec![pair("username", "alice"), pair("password", "HASH"), pair("email", "a@b")])
    );
    assert_eq!(seal(entries.clone(), vec![None, None, None]), None);
    assert_eq!(seal(entries.clone(), vec![None]), None);
    assert_eq!(seal(entries, vec![]), None);
    assert_eq!(seal(vec![], vec![]), Some(vec![]));
    assert_eq!(
        seal(vec![entry("a", "b", false)], vec![]),
        Some(vec![pair("a", "b")])
    );
}

#[test]
fn secrets_are_hashed_and_nothing_else() {
    let entries = vec![
        entry("username", "alice", false),
        entry("password", "correct horse", true),
    ];
    let hashes = hash_secrets(&entries);
    assert_eq!(hashes.len(), 2);
    assert_eq!(hashes[0], None);
    let hash = hashes[1].clone().expect("the password is hashed");
    assert!(hash.starts_with("$argon2id$v=19$m=19456,t=2,p=1$"));
    assert_ne!(hash, "correct horse");
    assert!(!hash.contains("correct horse"));
    let again = hash_secrets(&entries);
    assert_ne!(again[1], hashes[1]);
}

#[test]
fn secret_is_hashed_under_the_salt_it_is_given() {
    let salt = "c29tZXNhbHQ".to_string();
    let hash = hash_secret("correct horse", Some(salt.clone())).expect("a hash");
    assert_eq!(
        hash,
        "$argon2id$v=19$m=19456,t=2,p=1$c29tZXNhbHQ$YcJRdAHXGYvVS9oxrmGE2PWNls1pxO2wCxHyCPxEXAY"
    );
    assert_eq!(hash_secret("correct horse", Some(salt.clone())), Some(hash.clone()));
    assert_ne!(hash_secret("correct horse!", Some(salt)), Some(hash.clone()));
    assert_ne!(hash_secret("correct horse", Some("b3RoZXJzYWx0".to_string())), Some(hash));
}

#[test]
fn secret_without_a_salt_is_not_hashed() {
    assert_eq!(hash_secret("correct horse", None), None);
    assert_eq!(hash_secret("correct horse", Some("!".to_string())), None);
    assert_eq!(hash_secret("correct horse", Some("abc".to_string())), None);
    assert_eq!(hash_secret("correct horse", Some(String::new())), None);
}

#[test]
fn reply_of_a_login_looks_the_fields_up() {
    let validated = Validated::Accepted(vec![entry("username", "alice", false)]);
    assert_eq!(
        reply(FormUse::Login, validated, vec![None]),
        FormReply {
            response: accepted(),
            commands: vec![StorageCommand::Query(vec![pair("username", "alice")])],
        }
    );
}

#[test]
fn reply_of_a_login_without_fields_asks_nothing() {
    assert_eq!(
        reply(FormUse::Login, Validated::Accepted(vec![]), vec![]),
        FormReply { response: accepted(), commands: vec![] }
    );
}

#[test]
fn reply_of_a_set_up_creates_the_table_and_stores() {
    let validated = Validated::Accepted(vec![entry("password", "12345678", true)]);
    assert_eq!(
        reply(FormUse::Init, validated, vec![Some("H".to_string())]),
        FormReply {
            response: accepted(),
            commands: vec![
                StorageCommand::CreateTable,
                StorageCommand::Insert(vec![pair("password", "H")]),
            ],
        }
    );
    assert_eq!(
        reply(FormUse::Init, Validated::Accepted(vec![]), vec![]),
        FormReply {
            response: accepted(),
            commands: vec![StorageCommand::CreateTable, StorageCommand::Insert(vec![])],
        }
    );
}

#[test]
fn reply_of_a_failed_form_touches_no_storage() {
    for form_use in [FormUse::Login, FormUse::Init] {
        assert_eq!(
            reply(form_use, Validated::Fault, vec![]),
            FormReply {
                response: FixedResponse { status: 500, body: "Failed to parse field regex".to_string() },
                commands: vec![],
            }
        );
        assert_eq!(
            reply(form_use, Validated::Rejected(bad_request("x is required")), vec![]),
            FormReply { response: bad_request("x is required"), commands: vec![] }
        );
        assert_eq!(
            reply(form_use, Validated::Accepted(vec![entry("p", "q", true)]), vec![None]),
            FormReply {
                response: FixedResponse {
                    status: 500,
                    body: "Failed to hash password".to_string(),
                },
                commands: vec![],
            }
        );
    }
}

#[test]
fn login_form_is_validated_hashed_and_looked_up() {
    let parts = vec![part("username", "alice"), part("password", "12345678")];
    let answer = handle_user_login(&schema(), &parts);
    assert_eq!(answer.response, accepted());
    assert_eq!(answer.commands.len(), 1);
    match &answer.commands[0] {
        StorageCommand::Query(pairs) => {
            assert_eq!(pairs.len(), 2);
            assert_eq!(pairs[0], pair("username", "alice"));
            assert_eq!(pairs[1].0, "password");
            assert!(pairs[1].1.starts_with("$argon2id$v=19$m=19456,t=2,p=1$"));
            assert_ne!(pairs[1].1, "12345678");
        }
        other => panic!("expected a query, got {:?}", other),
    }
}

#[test]
fn login_form_with_complaints_is_a_client_error() {
    let parts = vec![part("username", "x"), unread("bogus")];
    assert_eq!(
        handle_user_login(&schema(), &parts),
        FormReply {
            response: bad_request("username is not valid\nbogus is not a valid field"),
            commands: vec![],
        }
    );
}

#[test]
fn empty_login_form_is_accepted_and_asks_nothing() {
    assert_eq!(
        handle_user_login(&schema(), &vec![]),
        FormReply { response: accepted(), commands: vec![] }
    );
    assert_eq!(
        handle_user_login(&schema(), &vec![part("nickname", "n")]),
        FormReply { response: accepted(), commands: vec![] }
    );
}

#[test]
fn set_up_form_creates_the_table_and_stores_the_fields() {
    let parts = vec![part("email", "a@b"), part("username", "alice")];
    assert_eq!(
        handle_user_init(&schema(), &parts),
        FormReply {
            response: accepted(),
            commands: vec![
                StorageCommand::CreateTable,
                StorageCommand::Insert(vec![pair("email", "a@b"), pair("username", "alice")]),
            ],
        }
    );
    assert_eq!(
        handle_user_init(&schema(), &vec![]),
        FormReply {
            response: accepted(),
            commands: vec![StorageCommand::CreateTable, StorageCommand::Insert(vec![])],
        }
    );
}

#[test]
fn set_up_form_with_complaints_stores_nothing() {
    let parts = vec![part("email", "nope"), part("username", "alice")];
    assert_eq!(
        handle_user_init(&schema(), &parts),
        FormReply { response: bad_request("email is not valid"), commands: vec![] }
    );
}

#[test]
fn form_under_a_faulty_schema_is_a_server_error() {
    let rules = vec![rule("username", true, "(", FieldKind::Text)];
    for form_use in [FormUse::Login, FormUse::Init] {
        assert_eq!(
            handle_form(form_use, &rules, &vec![part("other", "x"), part("username", "alice")]),
            FormReply {
                response: FixedResponse { status: 500, body: "Failed to parse field regex".to_string() },
                commands: vec![],
            }
        );
    }
}
