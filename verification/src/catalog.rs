//! The compiled-in capability catalog: the pure-data entries the internal
//! providers contribute to the registry.  The callbacks behind their
//! `Native` invocations perform I/O and live with the surrounding process;
//! each of them re-runs the permission check itself through
//! [`crate::runtime::permission_check`] before its privileged effect.

use crate::capability::{CapabilityFunction, CapabilityPackage, Invocation, Provenance};
use crate::permission::{Permission, PermissionKind, PermissionLevel, PermissionSet};
use vstd::prelude::*;

verus! {

/// The permission set the shell-execution capability requires.
pub fn exec_plugin_permissions() -> (r: PermissionSet)
    ensures
        r@.len() == 1,
        r@[0].display_name == "Command Access"@,
        r@[0].kind == PermissionKind::Execute,
        r@[0].level == PermissionLevel::Unspecified,
        r@[0].resource == Seq::<Seq<char>>::empty(),
{
    let p = Permission {
        display_name: String::from_str("Command Access"),
        description: String::from_str("Allows the plugin to execute shell commands."),
        kind: PermissionKind::Execute,
        level: PermissionLevel::Unspecified,
        resource: Vec::new(),
    };
    proof {
        assert(p.resource.deep_view() =~= Seq::<Seq<char>>::empty());
    }
    let mut permissions: Vec<Permission> = Vec::new();
    permissions.push(p);
    PermissionSet { permissions }
}

/// The shell-execution capability function.
pub fn exec_plugin_function() -> (r: CapabilityFunction)
    ensures
        r@.function_id == "app.sapphillon.core.exec.exec"@,
        r@.display_name == "Exec"@,
        r@.required.len() == 1,
        r@.required[0].kind == PermissionKind::Execute,
        r@.invocation is Native,
{
    CapabilityFunction {
        function_id: String::from_str("app.sapphillon.core.exec.exec"),
        display_name: String::from_str("Exec"),
        description: String::from_str(
            "Executes a command in the default shell and returns its output.",
        ),
        required: exec_plugin_permissions(),
        argument_doc: String::from_str("String: command"),
        return_doc: String::from_str("String: output"),
        invocation: Invocation::Native,
    }
}

/// The shell-execution capability package.
pub fn exec_plugin_package() -> (r: CapabilityPackage)
    ensures
        r@.package_id == "app.sapphillon.core.exec"@,
        r@.display_name == "Exec"@,
        r@.functions.len() == 1,
        r@.functions[0].function_id == "app.sapphillon.core.exec.exec"@,
        r@.functions[0].invocation is Native,
        r@.provenance is Internal,
{
    let mut functions: Vec<CapabilityFunction> = Vec::new();
    functions.push(exec_plugin_function());
    CapabilityPackage {
        package_id: String::from_str("app.sapphillon.core.exec"),
        display_name: String::from_str("Exec"),
        functions,
        provenance: Provenance::Internal,
    }
}

/// The permission set the file-search capability requires.
pub fn search_plugin_permissions() -> (r: PermissionSet)
    ensures
        r@.len() == 1,
        r@[0].display_name == "Execute"@,
        r@[0].kind == PermissionKind::Execute,
        r@[0].level == PermissionLevel::Unspecified,
        r@[0].resource == Seq::<Seq<char>>::empty(),
{
    let p = Permission {
        display_name: String::from_str("Execute"),
        description: String::from_str("Allows the plugin to execute commands."),
        kind: PermissionKind::Execute,
        level: PermissionLevel::Unspecified,
        resource: Vec::new(),
    };
    proof {
        assert(p.resource.deep_view() =~= Seq::<Seq<char>>::empty());
    }
    let mut permissions: Vec<Permission> = Vec::new();
    permissions.push(p);
    PermissionSet { permissions }
}

/// The file-search capability function.
pub fn search_plugin_function() -> (r: CapabilityFunction)
    ensures
        r@.function_id == "app.sapphillon.core.search.file"@,
        r@.display_name == "search.file"@,
        r@.required.len() == 1,
        r@.required[0].kind == PermissionKind::Execute,
        r@.invocation is Native,
{
    CapabilityFunction {
        function_id: String::from_str("app.sapphillon.core.search.file"),
        display_name: String::from_str("search.file"),
        description: String::from_str("Searches for files on the local filesystem."),
        required: search_plugin_permissions(),
        argument_doc: String::from_str("String: root_path, String: query"),
        return_doc: String::from_str("String: (JSON) list of file paths"),
        invocation: Invocation::Native,
    }
}

/// The file-search capability package.
pub fn search_plugin_package() -> (r: CapabilityPackage)
    ensures
        r@.package_id == "app.sapphillon.core.search"@,
        r@.display_name == "Search"@,
        r@.functions.len() == 1,
        r@.functions[0].function_id == "app.sapphillon.core.search.file"@,
        r@.provenance is Internal,
{
    let mut functions: Vec<CapabilityFunction> = Vec::new();
    functions.push(search_plugin_function());
    CapabilityPackage {
        package_id: String::from_str("app.sapphillon.core.search"),
        display_name: String::from_str("Search"),
        functions,
        provenance: Provenance::Internal,
    }
}

/// The finder helper's no-op capability function: it requires nothing and
/// exists so the package registers.
pub fn finder_noop_plugin_function() -> (r: CapabilityFunction)
    ensures
        r@.function_id == "app.sapphillon.core.finder.noop"@,
        r@.display_name == "Finder Noop"@,
        r@.required.len() == 0,
        r@.invocation is Native,
{
    let r = CapabilityFunction {
        function_id: String::from_str("app.sapphillon.core.finder.noop"),
        display_name: String::from_str("Finder Noop"),
        description: String::from_str("Simple noop for Finder plugin registration"),
        required: PermissionSet { permissions: Vec::new() },
        argument_doc: String::new(),
        return_doc: String::new(),
        invocation: Invocation::Native,
    };
    proof {
        assert(r@.required =~= Seq::<crate::permission::SpecPermission>::empty());
    }
    r
}

/// The finder helper capability package.
pub fn finder_plugin_package() -> (r: CapabilityPackage)
    ensures
        r@.package_id == "app.sapphillon.core.finder"@,
        r@.display_name == "Finder"@,
        r@.functions.len() == 1,
        r@.functions[0].function_id == "app.sapphillon.core.finder.noop"@,
        r@.provenance is Internal,
{
    let mut functions: Vec<CapabilityFunction> = Vec::new();
    functions.push(finder_noop_plugin_function());
    CapabilityPackage {
        package_id: String::from_str("app.sapphillon.core.finder"),
        display_name: String::from_str("Finder"),
        functions,
        provenance: Provenance::Internal,
    }
}

} // verus!
