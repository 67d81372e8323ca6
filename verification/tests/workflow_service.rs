use sapphillon::permission::PermissionKind;
use sapphillon::runtime::{WorkflowResult, WorkflowResultType};
use sapphillon::workflows::{
    apply_update_mask, build_core_permissions, create_all_permissions, decode_page_token,
    derive_display_name, encode_page_token, merge_workflow, merge_workflow_results,
    sanitize_generated_code, Timestamp, Workflow, WorkflowCode,
};

fn record(id: &str, revision: u64) -> WorkflowResult {
    WorkflowResult {
        id: id.to_string(),
        result: format!("output {revision}"),
        ran_at: 0,
        result_type: WorkflowResultType::Success,
        exit_code: 0,
        revision,
    }
}

#[test]
fn merged_results_are_ordered_by_revision() {
    let old = vec![record("r1", 1), record("r3", 3)];
    let new = vec![record("r2", 2), record("r4", 4)];
    let merged = merge_workflow_results(&old, &new);
    let revisions: Vec<u64> = merged.iter().map(|r| r.revision).collect();
    assert_eq!(revisions, vec![1, 2, 3, 4]);
}

#[test]
fn merged_results_collapse_adjacent_records_of_one_id() {
    let old = vec![record("r1", 1), record("r2", 2)];
    let new = vec![record("r2", 2), record("r3", 3)];
    let merged = merge_workflow_results(&old, &new);
    let ids: Vec<String> = merged.iter().map(|r| r.id.clone()).collect();
    assert_eq!(ids, vec!["r1".to_string(), "r2".to_string(), "r3".to_string()]);
}

fn base_timestamp() -> Timestamp {
    Timestamp { seconds: 1, nanos: 0 }
}

fn base_workflow() -> Workflow {
    Workflow {
        id: "wf-1".to_string(),
        display_name: "Base Workflow".to_string(),
        description: "base description".to_string(),
        workflow_language: 2,
        workflow_code: vec![],
        workflow_results: vec![],
        created_at: Some(base_timestamp()),
        updated_at: None,
    }
}

#[test]
fn sanitize_generated_code_appends_workflow_call() {
    let raw = "function workflow() {\n  return 42;\n}";
    let sanitized = sanitize_generated_code(raw);
    assert!(sanitized.ends_with("workflow();"));
}

#[test]
fn sanitize_generated_code_preserves_existing_call() {
    let raw = "function workflow() {}\nworkflow();";
    let sanitized = sanitize_generated_code(raw);
    assert_eq!(sanitized, "function workflow() {}\nworkflow();");
}

#[test]
fn derive_display_name_truncates_long_input() {
    let long = "a".repeat(200);
    let derived = derive_display_name(&long);
    assert!(!derived.is_empty());
    assert!(derived.len() <= 64);
}

#[test]
fn derive_display_name_takes_the_first_line() {
    assert_eq!(derive_display_name("  Send a report\nevery morning"), "Send a report");
    assert_eq!(derive_display_name("   \n  \n"), "Generated Workflow");
}

#[test]
fn encode_decode_page_token_round_trip() {
    let offset = 12345_u64;
    let token = encode_page_token(offset);
    assert_eq!(decode_page_token(&token), offset);
}

#[test]
fn decode_page_token_defaults_to_zero() {
    assert_eq!(decode_page_token(""), 0);
    assert_eq!(decode_page_token("  42  "), 42);
    assert_eq!(decode_page_token("+7"), 7);
    assert_eq!(decode_page_token("nonsense"), 0);
    assert_eq!(decode_page_token("99999999999999999999999999"), 0);
}

#[test]
fn apply_update_mask_overrides_listed_fields() {
    let existing = base_workflow();
    let mut incoming = existing.duplicate();
    incoming.display_name = "Updated Workflow".to_string();
    incoming.description = "new description".to_string();
    incoming.workflow_language = 0;
    incoming.updated_at = Some(base_timestamp());

    let mask = vec!["display_name".to_string(), "description".to_string()];
    let result = apply_update_mask(&existing, &incoming, &mask).unwrap();

    assert_eq!(result.display_name, "Updated Workflow");
    assert_eq!(result.description, "new description");
    assert_eq!(result.workflow_language, existing.workflow_language);
}

#[test]
fn apply_update_mask_rejects_unknown_field() {
    let existing = base_workflow();
    let incoming = existing.duplicate();
    let mask = vec!["unsupported".to_string()];
    let err = apply_update_mask(&existing, &incoming, &mask).unwrap_err();
    assert_eq!(err, "unsupported");
}

#[test]
fn merge_without_overwrite_keeps_empty_incoming_fields() {
    let existing = base_workflow();
    let mut incoming = base_workflow();
    incoming.display_name = "".to_string();
    incoming.description = "fresh".to_string();
    incoming.workflow_language = 0;

    let merged = merge_workflow(&existing, &incoming, false);
    assert_eq!(merged.display_name, "Base Workflow");
    assert_eq!(merged.description, "fresh");
    assert_eq!(merged.workflow_language, 2);
    assert_eq!(merged.created_at, existing.created_at);
}

#[test]
fn merge_with_overwrite_takes_incoming_fields() {
    let existing = base_workflow();
    let mut incoming = base_workflow();
    incoming.display_name = "".to_string();
    incoming.updated_at = Some(Timestamp { seconds: 9, nanos: 1 });
    incoming.created_at = None;

    let merged = merge_workflow(&existing, &incoming, true);
    assert_eq!(merged.display_name, "");
    assert_eq!(merged.updated_at, Some(Timestamp { seconds: 9, nanos: 1 }));
    // A missing incoming creation time never clears the recorded one.
    assert_eq!(merged.created_at, existing.created_at);
}

#[test]
fn test_create_all_permissions() {
    let permissions = create_all_permissions();
    assert_eq!(permissions.len(), 1);
    assert_eq!(permissions[0].function_id, "*");
    assert!(!permissions[0].granted.permissions.is_empty());
    assert!(matches!(
        permissions[0].granted.permissions[0].kind,
        PermissionKind::Unspecified
    ));
    assert_eq!(permissions[0].granted.permissions[0].resource, vec!["*".to_string()]);
}

fn bare_code(grants: Vec<sapphillon::permission::FunctionPermissionGrant>) -> WorkflowCode {
    WorkflowCode {
        id: "code-1".to_string(),
        code: "workflow();".to_string(),
        code_revision: 1,
        plugin_function_ids: vec!["app.sapphillon.core.exec.exec".to_string()],
        allowed_permissions: grants,
        results: vec![],
    }
}

#[test]
fn core_permissions_fall_back_to_the_first_plugin_id() {
    let code = bare_code(vec![]);
    let (required, allowed) = build_core_permissions(&code);
    let required = required.unwrap();
    let allowed = allowed.unwrap();
    assert_eq!(required.function_id, "app.sapphillon.core.exec.exec");
    assert!(required.granted.permissions.is_empty());
    assert_eq!(allowed.function_id, "app.sapphillon.core.exec.exec");
}

#[test]
fn core_permissions_aggregate_into_a_wildcard_grant() {
    let grants = create_all_permissions();
    let code = bare_code(grants);
    let (required, allowed) = build_core_permissions(&code);
    let required = required.unwrap();
    let allowed = allowed.unwrap();
    assert_eq!(required.function_id, "*");
    assert_eq!(required.granted.permissions.len(), 1);
    assert_eq!(allowed.function_id, "*");
    assert_eq!(allowed.granted.permissions.len(), 1);
}
