use ozendb::commands::functions::{code_to_string, stored_function};
use ozendb::value::{OtherText, Value};

fn code(kind: &str, text: &str) -> Value {
    Value::Other(OtherText { kind: kind.to_string(), display: text.to_string(), json: String::new() })
}

#[test]
fn function_bodies_come_from_code_or_strings() {
    assert_eq!(code_to_string(Some(&code("javascript", "function(){return 1}"))), "function(){return 1}");
    assert_eq!(code_to_string(Some(&code("javascriptWithScope", "function(x){}"))), "function(x){}");
    assert_eq!(code_to_string(Some(&Value::Text("x => x".to_string()))), "x => x");
    assert_eq!(code_to_string(Some(&Value::Int32(4))), "");
    assert_eq!(code_to_string(Some(&code("regex", "/a/"))), "");
    assert_eq!(code_to_string(None), "");
}

#[test]
fn stored_functions_are_named_by_their_id() {
    let doc = vec![
        ("_id".to_string(), Value::Text("double".to_string())),
        ("value".to_string(), code("javascript", "function(x){return 2*x}")),
    ];
    let f = stored_function(&doc).unwrap();
    assert_eq!(f.name, "double");
    assert_eq!(f.body, "function(x){return 2*x}");
    let numbered = stored_function(&vec![("_id".to_string(), Value::Int32(7))]).unwrap();
    assert_eq!(numbered.name, "7");
    assert_eq!(numbered.body, "");
    assert!(stored_function(&vec![("value".to_string(), Value::Null)]).is_none());
}

use ozendb::commands::functions::{javascript_code, map_reduce_command, save_function_update};

fn js(text: &str, json: &str) -> Value {
    Value::Other(OtherText { kind: "javascript".to_string(), display: text.to_string(), json: json.to_string() })
}

#[test]
fn code_values_carry_their_extended_json() {
    assert_eq!(javascript_code("function(){return \"a\"}".to_string()), js("function(){return \"a\"}", "{\"$code\":\"function(){return \\\"a\\\"}\"}"));
    assert_eq!(
        save_function_update("f".to_string()),
        vec![("$set".to_string(), Value::Document(vec![("value".to_string(), js("f", "{\"$code\":\"f\"}"))]))]
    );
}

#[test]
fn map_reduce_runs_inline_unless_given_an_output_collection() {
    let inline = map_reduce_command("orders", "m".to_string(), "r".to_string(), "  ".to_string(), " ");
    assert_eq!(
        inline,
        vec![
            ("mapReduce".to_string(), Value::Text("orders".to_string())),
            ("map".to_string(), js("m", "{\"$code\":\"m\"}")),
            ("reduce".to_string(), js("r", "{\"$code\":\"r\"}")),
            ("out".to_string(), Value::Document(vec![("inline".to_string(), Value::Int32(1))])),
        ]
    );
    let stored = map_reduce_command("orders", "m".to_string(), "r".to_string(), "f".to_string(), " totals ");
    assert_eq!(stored.len(), 5);
    assert_eq!(stored[3], ("out".to_string(), Value::Text("totals".to_string())));
    assert_eq!(stored[4], ("finalize".to_string(), js("f", "{\"$code\":\"f\"}")));
}
