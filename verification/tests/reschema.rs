use ozendb::commands::reschema::{apply_plan, preview_pipeline, preview_sample, ReschemaOp, ReschemaTarget};
use ozendb::error::AppError;
use ozendb::value::Value;

fn remove(field: &str) -> ReschemaOp {
    ReschemaOp::Remove { field: field.to_string() }
}

fn target(mode: &str, name: Option<&str>) -> ReschemaTarget {
    ReschemaTarget { mode: mode.to_string(), new_name: name.map(|n| n.to_string()) }
}

fn validation(r: Result<ozendb::commands::reschema::ApplyPlan, AppError>) -> String {
    match r {
        Err(AppError::Validation(m)) => m,
        _ => panic!("expected a validation error"),
    }
}

#[test]
fn previews_sample_twenty_unless_a_positive_limit_is_given() {
    assert_eq!(preview_sample(0), 20);
    assert_eq!(preview_sample(-5), 20);
    assert_eq!(preview_sample(7), 7);
    let stages = preview_pipeline(&[remove("legacy")], 0);
    assert_eq!(stages.len(), 2);
    assert_eq!(stages[0], vec![("$limit".to_string(), Value::Int64(20))]);
    assert_eq!(stages[1], vec![("$unset".to_string(), Value::Text("legacy".to_string()))]);
}

#[test]
fn new_collection_applies_end_with_out_and_count_the_new_collection() {
    let plan = apply_plan("people", &[remove("legacy")], &target("new_collection", Some("  people_v2 "))).unwrap();
    assert_eq!(plan.counted, "people_v2");
    assert_eq!(plan.stages.len(), 2);
    assert_eq!(plan.stages[1], vec![("$out".to_string(), Value::Text("people_v2".to_string()))]);
}

#[test]
fn in_place_applies_merge_back_into_the_source() {
    let plan = apply_plan("people", &[], &target("in_place", None)).unwrap();
    assert_eq!(plan.counted, "people");
    assert_eq!(plan.stages.len(), 1);
    let merge = Value::Document(vec![
        ("into".to_string(), Value::Text("people".to_string())),
        ("whenMatched".to_string(), Value::Text("replace".to_string())),
        ("whenNotMatched".to_string(), Value::Text("insert".to_string())),
    ]);
    assert_eq!(plan.stages[0], vec![("$merge".to_string(), merge)]);
}

#[test]
fn refused_applies_say_why() {
    assert_eq!(validation(apply_plan("people", &[], &target("new_collection", None))), "Enter a name for the new collection");
    assert_eq!(validation(apply_plan("people", &[], &target("new_collection", Some("   ")))), "Enter a name for the new collection");
    assert_eq!(
        validation(apply_plan("people", &[], &target("new_collection", Some(" people ")))),
        "New collection name must differ from the source"
    );
    assert_eq!(validation(apply_plan("people", &[], &target("upsert", None))), "Unknown apply mode: upsert");
}
