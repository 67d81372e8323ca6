//! The capability registry: a uniform description of callable capability
//! functions and the packages that group them, spanning compiled-in
//! (internal) and dynamically installed (external) providers, together with
//! the resolver from a function id to its description.

use crate::permission::{PermissionSet, SpecPermission};
use vstd::prelude::*;

verus! {

/// How a capability function is actually invoked.
#[derive(Debug)]
pub enum Invocation {
    /// A compiled-in provider's callback performs the effect.
    Native,
    /// The named top-level binding inside the owning package's bundle is
    /// called through the bridge.
    External { func_name: String },
}

/// The mathematical value of an [`Invocation`].
pub ghost enum SpecInvocation {
    Native,
    External { func_name: Seq<char> },
}

impl View for Invocation {
    type V = SpecInvocation;

    open spec fn view(&self) -> SpecInvocation {
        match self {
            Invocation::Native => SpecInvocation::Native,
            Invocation::External { func_name } => SpecInvocation::External {
                func_name: func_name@,
            },
        }
    }
}

/// One named, permission-gated operation a workflow may invoke.
#[derive(Debug)]
pub struct CapabilityFunction {
    /// Globally unique, dotted or dash-joined id.
    pub function_id: String,
    pub display_name: String,
    pub description: String,
    /// The permission set a run must be granted before this function may be
    /// dispatched.
    pub required: PermissionSet,
    pub argument_doc: String,
    pub return_doc: String,
    pub invocation: Invocation,
}

/// The mathematical value of a [`CapabilityFunction`].
pub ghost struct SpecCapabilityFunction {
    pub function_id: Seq<char>,
    pub display_name: Seq<char>,
    pub description: Seq<char>,
    pub required: Seq<SpecPermission>,
    pub argument_doc: Seq<char>,
    pub return_doc: Seq<char>,
    pub invocation: SpecInvocation,
}

impl View for CapabilityFunction {
    type V = SpecCapabilityFunction;

    open spec fn view(&self) -> SpecCapabilityFunction {
        SpecCapabilityFunction {
            function_id: self.function_id@,
            display_name: self.display_name@,
            description: self.description@,
            required: self.required@,
            argument_doc: self.argument_doc@,
            return_doc: self.return_doc@,
            invocation: self.invocation@,
        }
    }
}

impl DeepView for CapabilityFunction {
    type V = SpecCapabilityFunction;

    open spec fn deep_view(&self) -> SpecCapabilityFunction {
        self@
    }
}

/// Where a capability package came from.
#[derive(Debug)]
pub enum Provenance {
    /// Compiled into the host process.
    Internal,
    /// Installed at runtime from an untrusted bundle.
    External { install_path: String, author_id: String, version: String, bundle_text: String },
}

/// The mathematical value of a [`Provenance`].
pub ghost enum SpecProvenance {
    Internal,
    External {
        install_path: Seq<char>,
        author_id: Seq<char>,
        version: Seq<char>,
        bundle_text: Seq<char>,
    },
}

impl View for Provenance {
    type V = SpecProvenance;

    open spec fn view(&self) -> SpecProvenance {
        match self {
            Provenance::Internal => SpecProvenance::Internal,
            Provenance::External { install_path, author_id, version, bundle_text } => {
                SpecProvenance::External {
                    install_path: install_path@,
                    author_id: author_id@,
                    version: version@,
                    bundle_text: bundle_text@,
                }
            },
        }
    }
}

/// A named, versioned group of capability functions.
#[derive(Debug)]
pub struct CapabilityPackage {
    pub package_id: String,
    pub display_name: String,
    /// Ordered function list; resolution consults it in order.
    pub functions: Vec<CapabilityFunction>,
    pub provenance: Provenance,
}

/// The mathematical value of a [`CapabilityPackage`].
pub ghost struct SpecCapabilityPackage {
    pub package_id: Seq<char>,
    pub display_name: Seq<char>,
    pub functions: Seq<SpecCapabilityFunction>,
    pub provenance: SpecProvenance,
}

impl View for CapabilityPackage {
    type V = SpecCapabilityPackage;

    open spec fn view(&self) -> SpecCapabilityPackage {
        SpecCapabilityPackage {
            package_id: self.package_id@,
            display_name: self.display_name@,
            functions: self.functions.deep_view(),
            provenance: self.provenance@,
        }
    }
}

impl DeepView for CapabilityPackage {
    type V = SpecCapabilityPackage;

    open spec fn deep_view(&self) -> SpecCapabilityPackage {
        self@
    }
}

/// The first function with the given id inside one package, if any.
pub open spec fn find_in_functions(
    functions: Seq<SpecCapabilityFunction>,
    id: Seq<char>,
) -> Option<SpecCapabilityFunction>
    decreases functions.len(),
{
    if functions.len() == 0 {
        None
    } else if functions[0].function_id == id {
        Some(functions[0])
    } else {
        find_in_functions(functions.drop_first(), id)
    }
}

/// The function a run's resolved capability set answers the given id with:
/// packages are consulted in registration order and inside each package the
/// function list is consulted in order, so with a duplicated id the
/// first-registered function wins.
pub open spec fn spec_resolve(packages: Seq<SpecCapabilityPackage>, id: Seq<char>) -> Option<
    SpecCapabilityFunction,
>
    decreases packages.len(),
{
    if packages.len() == 0 {
        None
    } else {
        match find_in_functions(packages[0].functions, id) {
            Some(f) => Some(f),
            None => spec_resolve(packages.drop_first(), id),
        }
    }
}

/// The function ids of one package's function list, in order.
pub open spec fn function_ids(functions: Seq<SpecCapabilityFunction>) -> Seq<Seq<char>>
    decreases functions.len(),
{
    if functions.len() == 0 {
        Seq::empty()
    } else {
        seq![functions[0].function_id] + function_ids(functions.drop_first())
    }
}

/// Every function id of a capability set, package by package, in order.
pub open spec fn all_function_ids(packages: Seq<SpecCapabilityPackage>) -> Seq<Seq<char>>
    decreases packages.len(),
{
    if packages.len() == 0 {
        Seq::empty()
    } else {
        function_ids(packages[0].functions) + all_function_ids(packages.drop_first())
    }
}

/// The id list of a function list is its ids, position by position.
pub proof fn lemma_function_ids(functions: Seq<SpecCapabilityFunction>)
    ensures
        function_ids(functions).len() == functions.len(),
        forall|m: int| 0 <= m < functions.len() ==> function_ids(functions)[m] == (
        #[trigger] functions[m]).function_id,
    decreases functions.len(),
{
    if functions.len() > 0 {
        lemma_function_ids(functions.drop_first());
        assert forall|m: int| 0 <= m < functions.len() implies function_ids(functions)[m] == (
        #[trigger] functions[m]).function_id by {
            if m > 0 {
                assert(functions.drop_first()[m - 1] == functions[m]);
                assert(function_ids(functions)[m] == function_ids(functions.drop_first())[m - 1]);
            }
        }
    }
}

/// Whether some function id occurs twice across the capability set.
pub open spec fn spec_has_duplicate_id(packages: Seq<SpecCapabilityPackage>) -> bool {
    exists|a: int, b: int|
        0 <= a < b < all_function_ids(packages).len() && all_function_ids(packages)[a]
            == all_function_ids(packages)[b]
}

/// Checks a capability set at build time for a duplicated function id:
/// registration order would silently decide such a conflict, so it is
/// surfaced here instead.  The first id that occurs twice is answered.
pub fn find_duplicate_function_id(packages: &Vec<CapabilityPackage>) -> (r: Option<String>)
    ensures
        r is Some <==> spec_has_duplicate_id(packages.deep_view()),
        r matches Some(id) ==> exists|a: int, b: int|
            0 <= a < b < all_function_ids(packages.deep_view()).len() && all_function_ids(
                packages.deep_view(),
            )[a] == id@ && all_function_ids(packages.deep_view())[b] == id@,
{
    let ghost ps = packages.deep_view();
    let ghost flat = all_function_ids(ps);
    proof {
        assert(ps.skip(0) =~= ps);
        assert(Seq::<Seq<char>>::empty() + all_function_ids(ps) =~= all_function_ids(ps));
    }
    let mut ids: Vec<String> = Vec::new();
    let mut i: usize = 0;
    while i < packages.len()
        invariant
            i <= packages@.len(),
            ps == packages.deep_view(),
            flat == all_function_ids(ps),
            flat == ids.deep_view() + all_function_ids(ps.skip(i as int)),
        decreases packages@.len() - i,
    {
        proof {
            assert(ps.skip(i as int)[0] == ps[i as int]);
            assert(ps[i as int] == packages@[i as int]@);
            assert(ps.skip(i as int).drop_first() =~= ps.skip(i as int + 1));
        }
        let fns = &packages[i].functions;
        let ghost fi = function_ids(ps[i as int].functions);
        let ghost ids0 = ids.deep_view();
        let mut j: usize = 0;
        proof {
            lemma_function_ids(ps[i as int].functions);
            assert(ps[i as int].functions == fns.deep_view());
            assert(fi.take(0) =~= Seq::<Seq<char>>::empty());
            assert(ids.deep_view() =~= ids0 + fi.take(0));
        }
        while j < fns.len()
            invariant
                j <= fns@.len(),
                fi == function_ids(ps[i as int].functions),
                i < packages@.len(),
                ps == packages.deep_view(),
                ps[i as int].functions == fns.deep_view(),
                fi.len() == fns@.len(),
                forall|m: int| 0 <= m < fi.len() ==> fi[m] == (
                #[trigger] fns.deep_view()[m]).function_id,
                ids.deep_view() == ids0 + fi.take(j as int),
            decreases fns@.len() - j,
        {
            proof {
                assert(fns.deep_view()[j as int] == fns@[j as int]@);
            }
            let ghost d0 = ids.deep_view();
            ids.push(fns[j].function_id.clone());
            proof {
                assert(ids.deep_view() =~= d0.push(fi[j as int]));
                assert(ids.deep_view() =~= ids0 + fi.take(j as int + 1));
            }
            j = j + 1;
        }
        proof {
            assert(fi.take(fns@.len() as int) =~= fi);
            assert(ids0 + (fi + all_function_ids(ps.skip(i as int + 1))) =~= (ids0 + fi)
                + all_function_ids(ps.skip(i as int + 1)));
        }
        i = i + 1;
    }
    proof {
        assert(all_function_ids(ps.skip(packages@.len() as int)) =~= Seq::<Seq<char>>::empty());
        assert(ids.deep_view() + Seq::<Seq<char>>::empty() =~= ids.deep_view());
        assert(ids.deep_view() == flat);
    }
    let mut b: usize = 1;
    while b < ids.len()
        invariant
            1 <= b,
            ids.deep_view() == flat,
            flat == all_function_ids(ps),
            ps == packages.deep_view(),
            forall|x: int, y: int| 0 <= x < y < b && y < flat.len() ==> flat[x] != flat[y],
        decreases ids@.len() - b,
    {
        let mut a: usize = 0;
        while a < b
            invariant
                a <= b,
                b < ids@.len(),
                ids.deep_view() == flat,
                flat == all_function_ids(ps),
                ps == packages.deep_view(),
                forall|x: int| 0 <= x < a ==> flat[x] != flat[b as int],
            decreases b - a,
        {
            proof {
                assert(flat[a as int] == ids@[a as int]@);
                assert(flat[b as int] == ids@[b as int]@);
            }
            if crate::text::str_eq(ids[a].as_str(), ids[b].as_str()) {
                proof {
                    assert(flat[a as int] == flat[b as int]);
                    assert(spec_has_duplicate_id(ps));
                }
                return Some(ids[b].clone());
            }
            a = a + 1;
        }
        b = b + 1;
    }
    proof {
        if spec_has_duplicate_id(ps) {
            let (x, y) = choose|x: int, y: int|
                0 <= x < y < flat.len() && all_function_ids(ps)[x] == all_function_ids(ps)[y];
            assert(flat[x] != flat[y]);
        }
    }
    None
}

/// The first function with the given id inside one package, if any.
fn find_function<'a>(functions: &'a Vec<CapabilityFunction>, id: &str) -> (r: Option<
    &'a CapabilityFunction,
>)
    ensures
        match r {
            Some(f) => find_in_functions(functions.deep_view(), id@) == Some(f@),
            None => find_in_functions(functions.deep_view(), id@) is None,
        },
{
    let ghost fs = functions.deep_view();
    proof {
        assert(fs.skip(0) =~= fs);
    }
    let mut i: usize = 0;
    while i < functions.len()
        invariant
            i <= functions@.len(),
            fs == functions.deep_view(),
            find_in_functions(fs, id@) == find_in_functions(fs.skip(i as int), id@),
        decreases functions@.len() - i,
    {
        proof {
            assert(fs.skip(i as int)[0] == fs[i as int]);
            assert(fs[i as int] == functions@[i as int]@);
        }
        if crate::text::str_eq(functions[i].function_id.as_str(), id) {
            return Some(&functions[i]);
        }
        proof {
            assert(fs.skip(i as int).drop_first() =~= fs.skip(i as int + 1));
        }
        i = i + 1;
    }
    proof {
        assert(fs.skip(i as int).len() == 0);
    }
    None
}

/// Resolves a capability function id against a run's capability set.
pub fn resolve_function<'a>(packages: &'a Vec<CapabilityPackage>, id: &str) -> (r: Option<
    &'a CapabilityFunction,
>)
    ensures
        match r {
            Some(f) => spec_resolve(packages.deep_view(), id@) == Some(f@),
            None => spec_resolve(packages.deep_view(), id@) is None,
        },
{
    let ghost ps = packages.deep_view();
    proof {
        assert(ps.skip(0) =~= ps);
    }
    let mut i: usize = 0;
    while i < packages.len()
        invariant
            i <= packages@.len(),
            ps == packages.deep_view(),
            spec_resolve(ps, id@) == spec_resolve(ps.skip(i as int), id@),
        decreases packages@.len() - i,
    {
        proof {
            assert(ps.skip(i as int)[0] == ps[i as int]);
            assert(ps[i as int] == packages@[i as int]@);
        }
        if let Some(f) = find_function(&packages[i].functions, id) {
            return Some(f);
        }
        proof {
            assert(ps.skip(i as int).drop_first() =~= ps.skip(i as int + 1));
        }
        i = i + 1;
    }
    proof {
        assert(ps.skip(i as int).len() == 0);
    }
    None
}

} // verus!
