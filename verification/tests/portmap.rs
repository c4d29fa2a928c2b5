use ozendb::commands::portmap::{map_fields, FieldMap};
use ozendb::value::Value;

fn map(source: &str, target: &str, kind: &str) -> FieldMap {
    FieldMap { source: source.to_string(), target: target.to_string(), kind: kind.to_string() }
}

fn planned(fields: &[ozendb::commands::portmap::MappedField]) -> Vec<(String, usize, String)> {
    fields.iter().map(|f| (f.target.clone(), f.source_index, f.kind.clone())).collect()
}

#[test]
fn mapped_fields_are_renamed_selected_and_ordered_by_the_mapping() {
    let doc = vec![
        ("name".to_string(), Value::Text("Ann".to_string())),
        ("age".to_string(), Value::Text("30".to_string())),
        ("extra".to_string(), Value::Text("drop me".to_string())),
    ];
    let mapping = vec![map("age", "age", "int"), map("name", "fullName", "string"), map("extra", "  ", "auto")];
    assert_eq!(
        planned(&map_fields(&doc, &mapping)),
        vec![("age".to_string(), 1, "int".to_string()), ("fullName".to_string(), 0, "string".to_string())]
    );
}

#[test]
fn missing_sources_are_skipped() {
    let doc = vec![("a".to_string(), Value::Int32(1))];
    assert!(map_fields(&doc, &[map("missing", "x", "string")]).is_empty());
    assert!(map_fields(&doc, &[]).is_empty());
}

#[test]
fn a_target_mapped_twice_keeps_its_place_and_takes_the_last_source() {
    let doc = vec![("a".to_string(), Value::Int32(1)), ("b".to_string(), Value::Int32(2))];
    let mapping = vec![map("a", "x", "int"), map("b", "y", "auto"), map("b", "x", "long")];
    assert_eq!(
        planned(&map_fields(&doc, &mapping)),
        vec![("x".to_string(), 1, "long".to_string()), ("y".to_string(), 1, "auto".to_string())]
    );
}
