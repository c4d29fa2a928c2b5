use ozendb::commands::masking::{apply_rules, fnv1a64, hex16, partial_mask, MaskRule};
use ozendb::commands::quotes::normalize_smart_quotes;
use ozendb::commands::reschema::{build_pipeline, field_ref, ReschemaOp};
use ozendb::value::{Document, Value};

fn doc(fields: Vec<(&str, Value)>) -> Document {
    fields.into_iter().map(|(k, v)| (k.to_string(), v)).collect()
}

fn text(s: &str) -> Value {
    Value::Text(s.to_string())
}

fn get<'a>(d: &'a Document, key: &str) -> Option<&'a Value> {
    d.iter().find(|(k, _)| k == key).map(|(_, v)| v)
}

fn get_str<'a>(d: &'a Document, key: &str) -> &'a str {
    match get(d, key) {
        Some(Value::Text(s)) => s.as_str(),
        _ => panic!("expected a string under {key}"),
    }
}

fn rule(field: &str, strategy: &str) -> MaskRule {
    MaskRule {
        field: field.to_string(),
        strategy: strategy.to_string(),
        keep_start: None,
        keep_end: None,
        mask_char: None,
        replacement: None,
    }
}

#[test]
fn redact_replaces_with_token() {
    let mut d = doc(vec![("name", text("Alice")), ("keep", text("me"))]);
    apply_rules(&mut d, &[rule("name", "redact")]).unwrap();
    assert_eq!(get_str(&d, "name"), "***");
    assert_eq!(get_str(&d, "keep"), "me");
}

#[test]
fn redact_custom_replacement() {
    let mut d = doc(vec![("name", text("Alice"))]);
    let mut r = rule("name", "redact");
    r.replacement = Some("[hidden]".to_string());
    apply_rules(&mut d, &[r]).unwrap();
    assert_eq!(get_str(&d, "name"), "[hidden]");
}

#[test]
fn hash_is_deterministic_and_hides_value() {
    let mut a = doc(vec![("email", text("a@x.com"))]);
    let mut b = doc(vec![("email", text("a@x.com"))]);
    let mut c = doc(vec![("email", text("different@x.com"))]);
    apply_rules(&mut a, &[rule("email", "hash")]).unwrap();
    apply_rules(&mut b, &[rule("email", "hash")]).unwrap();
    apply_rules(&mut c, &[rule("email", "hash")]).unwrap();
    let ha = get_str(&a, "email").to_string();
    let hb = get_str(&b, "email").to_string();
    let hc = get_str(&c, "email").to_string();
    assert_ne!(ha, "a@x.com");
    assert_eq!(ha, hb);
    assert_ne!(ha, hc);
    assert_eq!(ha.len(), 16);
}

#[test]
fn partial_keeps_start_and_end() {
    let mut d = doc(vec![("card", text("4111111111111234"))]);
    let mut r = rule("card", "partial");
    r.keep_start = Some(0);
    r.keep_end = Some(4);
    apply_rules(&mut d, &[r]).unwrap();
    assert_eq!(get_str(&d, "card"), "************1234");
}

#[test]
fn partial_keeps_both_ends() {
    let mut d = doc(vec![("email", text("john@example.com"))]);
    let mut r = rule("email", "partial");
    r.keep_start = Some(2);
    r.keep_end = Some(4);
    apply_rules(&mut d, &[r]).unwrap();
    assert_eq!(get_str(&d, "email"), "jo**********.com");
}

#[test]
fn partial_short_string_fully_masked() {
    let mut d = doc(vec![("pin", text("12"))]);
    let mut r = rule("pin", "partial");
    r.keep_start = Some(2);
    r.keep_end = Some(2);
    apply_rules(&mut d, &[r]).unwrap();
    assert_eq!(get_str(&d, "pin"), "**");
}

#[test]
fn partial_custom_mask_char() {
    let mut d = doc(vec![("x", text("abcdef"))]);
    let mut r = rule("x", "partial");
    r.keep_start = Some(1);
    r.keep_end = Some(1);
    r.mask_char = Some("#".to_string());
    apply_rules(&mut d, &[r]).unwrap();
    assert_eq!(get_str(&d, "x"), "a####f");
}

#[test]
fn nullify_sets_null() {
    let mut d = doc(vec![("ssn", text("123-45-6789"))]);
    apply_rules(&mut d, &[rule("ssn", "nullify")]).unwrap();
    assert_eq!(get(&d, "ssn"), Some(&Value::Null));
}

#[test]
fn remove_drops_field() {
    let mut d = doc(vec![("secret", text("x")), ("keep", Value::Int32(1))]);
    apply_rules(&mut d, &[rule("secret", "remove")]).unwrap();
    assert!(get(&d, "secret").is_none());
    assert!(get(&d, "keep").is_some());
}

#[test]
fn nested_dotted_path() {
    let mut d = doc(vec![("contact", Value::Document(doc(vec![("email", text("a@x.com")), ("phone", text("555"))])))]);
    apply_rules(&mut d, &[rule("contact.email", "redact")]).unwrap();
    match get(&d, "contact") {
        Some(Value::Document(contact)) => {
            assert_eq!(get_str(contact, "email"), "***");
            assert_eq!(get_str(contact, "phone"), "555");
        }
        _ => panic!("expected a sub-document"),
    }
}

#[test]
fn absent_field_is_a_noop() {
    let mut d = doc(vec![("a", Value::Int32(1))]);
    apply_rules(&mut d, &[rule("missing", "redact"), rule("also.missing", "remove")]).unwrap();
    assert_eq!(get(&d, "a"), Some(&Value::Int32(1)));
    assert_eq!(d.len(), 1);
}

#[test]
fn hash_works_on_non_string_values() {
    let mut d = doc(vec![("n", Value::Int64(42))]);
    apply_rules(&mut d, &[rule("n", "hash")]).unwrap();
    assert_eq!(get_str(&d, "n").len(), 16);
    // "42" hashed with FNV-1a.
    assert_eq!(get_str(&d, "n"), format!("{:016x}", fnv1a64(b"42")));
}

#[test]
fn unknown_strategy_errors() {
    let mut d = doc(vec![("a", Value::Int32(1))]);
    assert_eq!(apply_rules(&mut d, &[rule("a", "bogus")]), Err("Unknown masking strategy: bogus".to_string()));
}

#[test]
fn multiple_rules_apply_in_order() {
    let mut d = doc(vec![("name", text("Alice")), ("email", text("a@x.com")), ("age", Value::Int32(30))]);
    apply_rules(&mut d, &[rule("name", "redact"), rule("email", "hash"), rule("age", "remove")]).unwrap();
    assert_eq!(get_str(&d, "name"), "***");
    assert_eq!(get_str(&d, "email").len(), 16);
    assert!(get(&d, "age").is_none());
}

#[test]
fn a_failing_rule_keeps_the_changes_before_it() {
    let mut d = doc(vec![("a", text("x")), ("b", text("y"))]);
    let result = apply_rules(&mut d, &[rule("a", "redact"), rule("b", "bogus"), rule("b", "remove")]);
    assert!(result.is_err());
    assert_eq!(get_str(&d, "a"), "***");
    assert_eq!(get_str(&d, "b"), "y");
}

#[test]
fn a_path_through_a_non_document_is_a_noop() {
    let mut d = doc(vec![("a", text("plain"))]);
    apply_rules(&mut d, &[rule("a.b", "remove")]).unwrap();
    assert_eq!(get_str(&d, "a"), "plain");
}

#[test]
fn fnv_matches_the_published_vectors() {
    assert_eq!(fnv1a64(b""), 0xcbf29ce484222325);
    assert_eq!(fnv1a64(b"a"), 0xaf63dc4c8601ec8c);
    assert_eq!(fnv1a64(b"foobar"), 0x85944171f73967e8);
    assert_eq!(hex16(0xab), "00000000000000ab");
    assert_eq!(hex16(u64::MAX), "ffffffffffffffff");
}

#[test]
fn partial_mask_counts_characters_not_bytes() {
    assert_eq!(partial_mask("héllo", 1, 1, '*'), "h***o");
    assert_eq!(partial_mask("abc", usize::MAX, usize::MAX, '-'), "---");
    assert_eq!(partial_mask("", 0, 0, '*'), "");
}

#[test]
fn smart_quotes_are_straightened() {
    assert_eq!(normalize_smart_quotes("{\u{201C}name\u{201D}:\u{2018}J\u{2019}}"), "{\"name\":'J'}");
    assert_eq!(normalize_smart_quotes("plain \"text\""), "plain \"text\"");
}

fn set_stage(key: &str, value: Value) -> Document {
    doc(vec![("$set", Value::Document(doc(vec![(key, value)])))])
}

fn unset_stage(field: &str) -> Document {
    doc(vec![("$unset", text(field))])
}

#[test]
fn rename_sets_then_unsets() {
    let ops = vec![ReschemaOp::Rename { from: "a".to_string(), to: "b".to_string() }];
    let pipeline = build_pipeline(&ops);
    assert_eq!(pipeline, vec![set_stage("b", text("$a")), unset_stage("a")]);
}

#[test]
fn move_uses_dotted_paths_like_rename() {
    let ops = vec![ReschemaOp::Move { from: "a.b".to_string(), to: "c.d".to_string() }];
    let pipeline = build_pipeline(&ops);
    assert_eq!(pipeline, vec![set_stage("c.d", text("$a.b")), unset_stage("a.b")]);
}

#[test]
fn remove_unsets_the_field() {
    let ops = vec![ReschemaOp::Remove { field: "legacy".to_string() }];
    let pipeline = build_pipeline(&ops);
    assert_eq!(pipeline, vec![unset_stage("legacy")]);
}

fn convert_stage(field: &str, to: &str) -> Document {
    let reference = format!("${field}");
    let convert = doc(vec![
        ("input", text(&reference)),
        ("to", text(to)),
        ("onError", text(&reference)),
        ("onNull", text(&reference)),
    ]);
    set_stage(field, Value::Document(doc(vec![("$convert", Value::Document(convert))])))
}

#[test]
fn change_type_converts_and_keeps_original_on_error() {
    let ops = vec![ReschemaOp::ChangeType { field: "age".to_string(), to_type: "int".to_string() }];
    assert_eq!(build_pipeline(&ops), vec![convert_stage("age", "int")]);
}

#[test]
fn change_type_supports_dotted_paths() {
    let ops = vec![ReschemaOp::ChangeType { field: "meta.count".to_string(), to_type: "long".to_string() }];
    assert_eq!(build_pipeline(&ops), vec![convert_stage("meta.count", "long")]);
}

#[test]
fn ops_apply_in_order() {
    let ops = vec![
        ReschemaOp::Rename { from: "a".to_string(), to: "b".to_string() },
        ReschemaOp::Remove { field: "c".to_string() },
    ];
    let pipeline = build_pipeline(&ops);
    assert_eq!(pipeline, vec![set_stage("b", text("$a")), unset_stage("a"), unset_stage("c")]);
    assert_eq!(field_ref("x.y"), "$x.y");
}
