//! Building capability packages out of installed external bundles.
//!
//! For every registered, non-missing plugin row whose `package.js` is
//! present, the bundle text is read, the callable function names are
//! extracted (or a single `default` function is synthesized when the
//! heuristic finds none), and one external capability package is built:
//! the package is exposed under `"{author_id}.{package_id}"` and each
//! function under `"{author_id}-{package_id}-{version}-{name}"`.  External
//! functions never get a native callback; invoking one requires the
//! `Execute` capability.

use crate::capability::{
    CapabilityFunction, CapabilityPackage, Invocation, Provenance, SpecCapabilityFunction,
    SpecCapabilityPackage, SpecInvocation, SpecProvenance,
};
use crate::extract::spec_extract_function_names;
use crate::paths::{package_js_path, split_slash};
use crate::permission::{
    Permission, PermissionKind, PermissionLevel, PermissionSet, SpecPermission,
};
use crate::store::{ExtPluginStore, SpecPluginRow, SpecStoredFile};
use vstd::prelude::*;

verus! {

/// The separator inside external function ids.
pub open spec fn dash() -> Seq<char> {
    seq!['-']
}

/// The separator inside external package ids.
pub open spec fn dot() -> Seq<char> {
    seq!['.']
}

/// The display name of the permission external invocations require.
pub open spec fn execute_word() -> Seq<char> {
    seq!['E', 'x', 'e', 'c', 'u', 't', 'e']
}

/// The function name synthesized when extraction finds none.
pub open spec fn default_word() -> Seq<char> {
    seq!['d', 'e', 'f', 'a', 'u', 'l', 't']
}

/// The permission set required to invoke an external bundle function.
pub open spec fn spec_external_required() -> Seq<SpecPermission> {
    seq![
        SpecPermission {
            display_name: execute_word(),
            description: Seq::empty(),
            kind: PermissionKind::Execute,
            level: PermissionLevel::Unspecified,
            resource: Seq::empty(),
        },
    ]
}

/// `"{author_id}-{package_id}-{version}-{name}"`.
pub open spec fn ext_function_id(
    a: Seq<char>,
    p: Seq<char>,
    v: Seq<char>,
    name: Seq<char>,
) -> Seq<char> {
    a + dash() + p + dash() + v + dash() + name
}

/// The capability function an external bundle exposes under one name.
pub open spec fn spec_external_function(
    a: Seq<char>,
    p: Seq<char>,
    v: Seq<char>,
    name: Seq<char>,
) -> SpecCapabilityFunction {
    SpecCapabilityFunction {
        function_id: ext_function_id(a, p, v, name),
        display_name: name,
        description: p + dot() + name,
        required: spec_external_required(),
        argument_doc: Seq::empty(),
        return_doc: Seq::empty(),
        invocation: SpecInvocation::External { func_name: name },
    }
}

/// The function names a bundle exposes: the extracted ones, or `default`.
pub open spec fn spec_bundle_names(content: Seq<char>) -> Seq<Seq<char>> {
    let names = spec_extract_function_names(content);
    if names.len() == 0 {
        seq![default_word()]
    } else {
        names
    }
}

/// The capability package one installed bundle builds.
pub open spec fn spec_load_package(
    a: Seq<char>,
    p: Seq<char>,
    v: Seq<char>,
    dir: Seq<char>,
    content: Seq<char>,
) -> SpecCapabilityPackage {
    let names = spec_bundle_names(content);
    SpecCapabilityPackage {
        package_id: a + dot() + p,
        display_name: p,
        functions: Seq::new(names.len(), |i: int| spec_external_function(a, p, v, names[i])),
        provenance: SpecProvenance::External {
            install_path: dir,
            author_id: a,
            version: v,
            bundle_text: content,
        },
    }
}

/// The content of the first file carrying the given path, if any.
pub open spec fn file_content(files: Seq<SpecStoredFile>, path: Seq<char>) -> Option<Seq<char>>
    decreases files.len(),
{
    if files.len() == 0 {
        None
    } else if files[0].path == path {
        Some(files[0].content)
    } else {
        file_content(files.drop_first(), path)
    }
}

/// The packages that loading builds, in row order: one per registered,
/// non-missing row whose `package.js` is present and whose id has at least
/// the three layout segments.
pub open spec fn spec_load(
    files: Seq<SpecStoredFile>,
    rows: Seq<SpecPluginRow>,
) -> Seq<SpecCapabilityPackage>
    decreases rows.len(),
{
    if rows.len() == 0 {
        Seq::empty()
    } else {
        let rest = spec_load(files, rows.drop_first());
        let row = rows[0];
        if row.missing {
            rest
        } else {
            match file_content(files, package_js_path(row.install_dir)) {
                None => rest,
                Some(content) => {
                    let segs = split_slash(row.plugin_package_id);
                    if segs.len() < 3 {
                        rest
                    } else {
                        seq![
                            spec_load_package(segs[0], segs[1], segs[2], row.install_dir, content),
                        ] + rest
                    }
                },
            }
        }
    }
}

/// The permission set required to invoke an external bundle function.
fn external_required() -> (r: PermissionSet)
    ensures
        r@ == spec_external_required(),
{
    proof {
        reveal_strlit("Execute");
        assert("Execute"@ =~= execute_word());
    }
    let p = Permission {
        display_name: String::from_str("Execute"),
        description: String::new(),
        kind: PermissionKind::Execute,
        level: PermissionLevel::Unspecified,
        resource: Vec::new(),
    };
    proof {
        assert(p.resource.deep_view() =~= Seq::<Seq<char>>::empty());
        assert(p@ == spec_external_required()[0]);
    }
    let mut permissions: Vec<Permission> = Vec::new();
    permissions.push(p);
    let r = PermissionSet { permissions };
    proof {
        assert(r@ =~= spec_external_required());
    }
    r
}

/// One external capability function of an installed bundle.
fn make_external_function(a: &str, p: &str, v: &str, name: &str) -> (r: CapabilityFunction)
    ensures
        r@ == spec_external_function(a@, p@, v@, name@),
{
    proof {
        reveal_strlit("-");
        assert("-"@ =~= dash());
        reveal_strlit(".");
        assert("."@ =~= dot());
    }
    let mut function_id = String::from_str(a);
    function_id.append("-");
    function_id.append(p);
    function_id.append("-");
    function_id.append(v);
    function_id.append("-");
    function_id.append(name);
    let mut description = String::from_str(p);
    description.append(".");
    description.append(name);
    let r = CapabilityFunction {
        function_id,
        display_name: String::from_str(name),
        description,
        required: external_required(),
        argument_doc: String::new(),
        return_doc: String::new(),
        invocation: Invocation::External { func_name: String::from_str(name) },
    };
    r
}

/// The content of the first file carrying the given path, if any.
fn find_file_content(files: &Vec<crate::store::StoredFile>, path: &str) -> (r: Option<String>)
    ensures
        match r {
            Some(c) => file_content(files.deep_view(), path@) == Some(c@),
            None => file_content(files.deep_view(), path@) is None,
        },
{
    let ghost fs = files.deep_view();
    proof {
        assert(fs.skip(0) =~= fs);
    }
    let mut i: usize = 0;
    while i < files.len()
        invariant
            i <= files@.len(),
            fs == files.deep_view(),
            file_content(fs, path@) == file_content(fs.skip(i as int), path@),
        decreases files@.len() - i,
    {
        proof {
            assert(fs.skip(i as int)[0] == fs[i as int]);
            assert(fs[i as int] == files@[i as int]@);
        }
        if crate::text::str_eq(files[i].path.as_str(), path) {
            return Some(files[i].content.clone());
        }
        proof {
            assert(fs.skip(i as int).drop_first() =~= fs.skip(i as int + 1));
        }
        i = i + 1;
    }
    proof {
        assert(fs.skip(i as int).len() == 0);
    }
    None
}

/// Builds one capability package out of one installed bundle.
fn load_one_package(a: &str, p: &str, v: &str, dir: &str, content: &str) -> (r: CapabilityPackage)
    ensures
        r@ == spec_load_package(a@, p@, v@, dir@, content@),
{
    proof {
        reveal_strlit(".");
        assert("."@ =~= dot());
        reveal_strlit("default");
        assert("default"@ =~= default_word());
    }
    let mut names = crate::extract::extract_function_names(content);
    if names.len() == 0 {
        names.push(String::from_str("default"));
        proof {
            assert(names.deep_view() =~= spec_bundle_names(content@));
        }
    }
    let ghost nms = spec_bundle_names(content@);
    proof {
        assert(names.deep_view() == nms);
    }
    let mut functions: Vec<CapabilityFunction> = Vec::new();
    let mut i: usize = 0;
    while i < names.len()
        invariant
            i <= names@.len(),
            names.deep_view() == nms,
            functions.deep_view().len() == i,
            forall|j: int| 0 <= j < i ==> functions.deep_view()[j] == spec_external_function(
                a@,
                p@,
                v@,
                nms[j],
            ),
        decreases names@.len() - i,
    {
        proof {
            assert(names.deep_view()[i as int] == names@[i as int]@);
        }
        let ghost f0 = functions.deep_view();
        let f = make_external_function(a, p, v, names[i].as_str());
        functions.push(f);
        proof {
            assert(functions.deep_view() =~= f0.push(spec_external_function(a@, p@, v@, nms[i as int])));
        }
        i = i + 1;
    }
    let mut package_id = String::from_str(a);
    package_id.append(".");
    package_id.append(p);
    let r = CapabilityPackage {
        package_id,
        display_name: String::from_str(p),
        functions,
        provenance: Provenance::External {
            install_path: String::from_str(dir),
            author_id: String::from_str(a),
            version: String::from_str(v),
            bundle_text: String::from_str(content),
        },
    };
    proof {
        assert(r@.functions =~= spec_load_package(a@, p@, v@, dir@, content@).functions);
        assert(r@ =~= spec_load_package(a@, p@, v@, dir@, content@));
    }
    r
}

/// Builds the capability packages of every loadable installed plugin, in
/// row order.  A row marked missing, a row whose `package.js` is gone, and
/// a row whose id lacks the three layout segments are skipped.
pub fn load_external_plugins(store: &ExtPluginStore) -> (r: Vec<CapabilityPackage>)
    ensures
        r.deep_view() == spec_load(store@.files, store@.rows),
{
    let ghost fs = store@.files;
    let ghost rs = store@.rows;
    let n = store.rows.len();
    let mut acc: Vec<CapabilityPackage> = Vec::new();
    let mut i: usize = n;
    proof {
        assert(acc.deep_view() =~= Seq::<SpecCapabilityPackage>::empty());
        assert(rs.skip(n as int).len() == 0);
    }
    while i > 0
        invariant
            i <= n,
            n == store.rows@.len(),
            fs == store@.files,
            rs == store@.rows,
            acc.deep_view() == spec_load(fs, rs.skip(i as int)),
        decreases i,
    {
        i = i - 1;
        proof {
            assert(rs.skip(i as int)[0] == rs[i as int]);
            assert(rs[i as int] == store.rows@[i as int]@);
            assert(rs.skip(i as int).drop_first() =~= rs.skip(i as int + 1));
        }
        let row = &store.rows[i];
        if !row.missing {
            let pjs = crate::paths::make_package_js_path(row.install_dir.as_str());
            match find_file_content(&store.files, pjs.as_str()) {
                Some(content) => {
                    let idcs = crate::text::chars_of(row.plugin_package_id.as_str());
                    let segs = crate::paths::split_slash_exec(&idcs, 0);
                    proof {
                        assert(idcs@.skip(0) =~= rs[i as int].plugin_package_id);
                    }
                    if segs.len() >= 3 {
                        proof {
                            assert(segs.deep_view()[0] == segs@[0]@);
                            assert(segs.deep_view()[1] == segs@[1]@);
                            assert(segs.deep_view()[2] == segs@[2]@);
                        }
                        let ghost acc0 = acc.deep_view();
                        let pkg = load_one_package(
                            segs[0].as_str(),
                            segs[1].as_str(),
                            segs[2].as_str(),
                            row.install_dir.as_str(),
                            content.as_str(),
                        );
                        acc.insert(0, pkg);
                        proof {
                            assert(acc.deep_view() =~= seq![
                                spec_load_package(
                                    split_slash(rs[i as int].plugin_package_id)[0],
                                    split_slash(rs[i as int].plugin_package_id)[1],
                                    split_slash(rs[i as int].plugin_package_id)[2],
                                    rs[i as int].install_dir,
                                    content@,
                                ),
                            ] + acc0);
                        }
                    }
                },
                None => {},
            }
        }
    }
    proof {
        assert(rs.skip(0) =~= rs);
    }
    acc
}

} // verus!
