use sapphillon::bridge::{classify_bridge_outcome, locate_bridge_function, BridgeCall, BridgeOutcome};
use sapphillon::capability::{find_duplicate_function_id, Invocation};
use sapphillon::catalog::{exec_plugin_package, finder_plugin_package};
use sapphillon::errors::WorkflowError;
use sapphillon::loader::load_external_plugins;
use sapphillon::permission::{
    FunctionPermissionGrant, Permission, PermissionKind, PermissionLevel, PermissionSet,
};
use sapphillon::runtime::{prepare_code, RunState, WorkflowResultType, WorkflowRun};
use sapphillon::store::ExtPluginStore;

fn execute_grant(function_id: &str) -> FunctionPermissionGrant {
    FunctionPermissionGrant {
        function_id: function_id.to_string(),
        granted: PermissionSet {
            permissions: vec![Permission {
                display_name: "Execute".to_string(),
                description: "".to_string(),
                kind: PermissionKind::Execute,
                level: PermissionLevel::Unspecified,
                resource: vec![],
            }],
        },
    }
}

/// Install a bundle exposing `ping`, grant its function the Execute
/// permission, run a script that calls it: the run completes with the
/// bundle's payload.
#[test]
fn scenario_external_call_with_grant_completes() {
    let mut store = ExtPluginStore::new("/plugins".to_string());
    store
        .install_ext_plugin(
            "acme",
            "tools",
            "1.0.0",
            "const Package = { functions: { ping: { handler: async () => 'pong' } } };",
            None,
        )
        .unwrap();
    let packages = load_external_plugins(&store);
    assert_eq!(packages.len(), 1);
    assert_eq!(packages[0].package_id, "acme.tools");

    let mut run = WorkflowRun::new(
        "wf-1".to_string(),
        "code-1".to_string(),
        "acme.tools.ping();".to_string(),
        1,
        vec![execute_grant("acme-tools-1.0.0-ping")],
        packages,
        vec![],
    );
    run.prime();
    run.begin_execution();

    // One host call, checked and dispatched.
    let dispatch = run.gate_host_call("acme-tools-1.0.0-ping");
    let func_name = match dispatch {
        Ok(f) => match &f.invocation {
            Invocation::External { func_name } => func_name.clone(),
            Invocation::Native => panic!("expected an external dispatch"),
        },
        Err(e) => panic!("gate refused the call: {:?}", e),
    };
    assert_eq!(func_name, "ping");
    let call = BridgeCall {
        func_name,
        named_args: vec![("who".to_string(), "\"demo\"".to_string())],
    };
    locate_bridge_function(&run.packages[0], &call).unwrap();

    // The bundle's context returns; the engine's outcome flows back.
    let payload = classify_bridge_outcome(BridgeOutcome::Returned("pong".to_string())).unwrap();
    run.complete_run("res-1".to_string(), payload, 1700000000);

    assert!(matches!(run.state, RunState::Completed));
    assert_eq!(run.results.len(), 1);
    assert_eq!(run.results[0].result, "pong");
    assert!(matches!(run.results[0].result_type, WorkflowResultType::Success));
    assert_eq!(run.results[0].revision, 1);
}

/// The same run with an empty granted set: the call is refused with a
/// permission denial naming the Execute requirement, and the run fails.
#[test]
fn scenario_external_call_without_grant_fails() {
    let mut store = ExtPluginStore::new("/plugins".to_string());
    store
        .install_ext_plugin(
            "acme",
            "tools",
            "1.0.0",
            "const Package = { functions: { ping: { handler: async () => 'pong' } } };",
            None,
        )
        .unwrap();
    let packages = load_external_plugins(&store);

    let mut run = WorkflowRun::new(
        "wf-1".to_string(),
        "code-1".to_string(),
        "acme.tools.ping();".to_string(),
        1,
        vec![],
        packages,
        vec![],
    );
    run.prime();
    run.begin_execution();

    let denied = run.gate_host_call("acme-tools-1.0.0-ping");
    match denied {
        Err(WorkflowError::PermissionDenied(p)) => {
            assert!(matches!(p.kind, PermissionKind::Execute));
            assert_eq!(p.display_name, "Execute");
        }
        other => panic!("expected a permission denial, got {:?}", other),
    }

    run.fail_run(
        "res-1".to_string(),
        "PermissionDenied: Execute".to_string(),
        1700000000,
        1,
    );
    assert!(matches!(run.state, RunState::Failed));
    assert_eq!(run.results.len(), 1);
    assert!(matches!(run.results[0].result_type, WorkflowResultType::Failure));
}

#[test]
fn unknown_function_id_is_capability_not_found() {
    let mut run = WorkflowRun::new(
        "wf".to_string(),
        "code".to_string(),
        "nothing();".to_string(),
        1,
        vec![],
        vec![],
        vec![],
    );
    run.prime();
    run.begin_execution();
    match run.gate_host_call("no.such.function") {
        Err(WorkflowError::CapabilityNotFound(id)) => assert_eq!(id, "no.such.function"),
        other => panic!("expected CapabilityNotFound, got {:?}", other),
    }
}

#[test]
fn unknown_bundle_function_is_distinct_from_thrown_failure() {
    let mut store = ExtPluginStore::new("/plugins".to_string());
    store
        .install_ext_plugin(
            "acme",
            "tools",
            "1.0.0",
            "functions: { ping: { handler: 1 } }",
            None,
        )
        .unwrap();
    let packages = load_external_plugins(&store);

    let call = BridgeCall {
        func_name: "pong".to_string(),
        named_args: vec![],
    };
    let missing = locate_bridge_function(&packages[0], &call);
    assert!(matches!(missing, Err(WorkflowError::CapabilityNotFound(_))));

    let thrown = classify_bridge_outcome(BridgeOutcome::Threw("This is an immediate error".to_string()));
    match thrown {
        Err(WorkflowError::BridgeInvocationFailed(msg)) => {
            assert_eq!(msg, "This is an immediate error");
        }
        other => panic!("expected BridgeInvocationFailed, got {:?}", other),
    }
}

/// Repeated runs of the same workflow code never reuse or decrease a
/// result revision.
#[test]
fn revision_monotonicity_across_runs() {
    let mut run = WorkflowRun::new(
        "wf".to_string(),
        "code".to_string(),
        "1 + 1;".to_string(),
        1,
        vec![],
        vec![],
        vec![],
    );
    run.prime();
    run.begin_execution();
    run.complete_run("r1".to_string(), "2".to_string(), 100);
    assert_eq!(run.results[0].revision, 1);

    let mut second = WorkflowRun::new(
        "wf".to_string(),
        "code".to_string(),
        "1 + 1;".to_string(),
        1,
        vec![],
        vec![],
        run.results,
    );
    second.prime();
    second.begin_execution();
    second.complete_run("r2".to_string(), "2".to_string(), 200);
    assert_eq!(second.results.len(), 2);
    assert_eq!(second.results[1].revision, 2);
    assert!(second.results[1].revision > second.results[0].revision);

    let mut third = WorkflowRun::new(
        "wf".to_string(),
        "code".to_string(),
        "boom();".to_string(),
        1,
        vec![],
        vec![],
        second.results,
    );
    third.prime();
    third.begin_execution();
    third.fail_run("r3".to_string(), "Uncaught".to_string(), 300, 1);
    assert_eq!(third.results[2].revision, 3);
}

#[test]
fn loader_synthesizes_default_function_when_extraction_finds_none() {
    let mut store = ExtPluginStore::new("/plugins".to_string());
    store
        .install_ext_plugin("a", "p", "2.0.0", "console.log('no entries');", None)
        .unwrap();
    let packages = load_external_plugins(&store);
    assert_eq!(packages.len(), 1);
    assert_eq!(packages[0].package_id, "a.p");
    assert_eq!(packages[0].functions.len(), 1);
    assert_eq!(packages[0].functions[0].function_id, "a-p-2.0.0-default");
}

#[test]
fn loader_skips_missing_rows() {
    let mut store = ExtPluginStore::new("/plugins".to_string());
    store
        .install_ext_plugin("a", "p", "1.0.0", "functions: { go: {} }", None)
        .unwrap();
    store.rows[0].missing = true;
    let packages = load_external_plugins(&store);
    assert!(packages.is_empty());
}

#[test]
fn loader_builds_one_function_per_extracted_name() {
    let mut store = ExtPluginStore::new("/plugins".to_string());
    store
        .install_ext_plugin(
            "acme",
            "math",
            "0.3.1",
            "functions: { add: { h: 1 }, sub: { h: 2 } }",
            None,
        )
        .unwrap();
    let packages = load_external_plugins(&store);
    assert_eq!(packages[0].functions.len(), 2);
    assert_eq!(packages[0].functions[0].function_id, "acme-math-0.3.1-add");
    assert_eq!(packages[0].functions[1].function_id, "acme-math-0.3.1-sub");
    assert!(packages[0]
        .functions
        .iter()
        .all(|f| matches!(f.invocation, Invocation::External { .. })));
    assert!(packages[0]
        .functions
        .iter()
        .all(|f| f.required.permissions.len() == 1
            && matches!(f.required.permissions[0].kind, PermissionKind::Execute)));
}

#[test]
fn duplicate_function_ids_are_detected_at_build_time() {
    let distinct = vec![exec_plugin_package(), finder_plugin_package()];
    assert!(find_duplicate_function_id(&distinct).is_none());

    let clashing = vec![exec_plugin_package(), exec_plugin_package()];
    assert_eq!(
        find_duplicate_function_id(&clashing),
        Some("app.sapphillon.core.exec.exec".to_string())
    );
}

#[test]
fn prepare_code_unescapes_written_out_sequences() {
    assert_eq!(prepare_code("line1\\nline2"), "line1\nline2");
    assert_eq!(prepare_code("plain code();"), "plain code();");
    assert_eq!(prepare_code("tab\\there"), "tab\there");
}
