//! The permission engine: the data model for permissions, permission sets
//! and per-function grants, and the pure matching algorithm that decides
//! whether a required permission set is satisfied by a granted one.
//!
//! A permission names a kind of privileged effect, a strength level and an
//! optional list of scoped resource strings.  A `PermissionSet` is the
//! conjunction of its entries.  The check walks the required entries in
//! order and reports the first entry the granted set does not cover.

use vstd::prelude::*;

verus! {

/// The kind of privileged effect a permission speaks about.
#[derive(Clone, Copy, PartialEq, Eq, Structural, Debug)]
pub enum PermissionKind {
    Unspecified,
    FilesystemRead,
    FilesystemWrite,
    Execute,
    NetAccess,
    NetworkAccess,
    WindowManagement,
}

/// The strength of a permission, on an ordinal scale.
///
/// `Unspecified` acts as "no constraint" on either side of the check.
#[derive(Clone, Copy, PartialEq, Eq, Structural, Debug)]
pub enum PermissionLevel {
    Unspecified,
    Medium,
    High,
}

/// One permission requirement or grant.
#[derive(Clone, Debug)]
pub struct Permission {
    pub display_name: String,
    pub description: String,
    pub kind: PermissionKind,
    pub level: PermissionLevel,
    /// Scoped resource strings; an empty list on the granted side allows
    /// every resource of this kind.
    pub resource: Vec<String>,
}

/// The mathematical value of a [`Permission`].
pub ghost struct SpecPermission {
    pub display_name: Seq<char>,
    pub description: Seq<char>,
    pub kind: PermissionKind,
    pub level: PermissionLevel,
    pub resource: Seq<Seq<char>>,
}

impl View for Permission {
    type V = SpecPermission;

    open spec fn view(&self) -> SpecPermission {
        SpecPermission {
            display_name: self.display_name@,
            description: self.description@,
            kind: self.kind,
            level: self.level,
            resource: self.resource.deep_view(),
        }
    }
}

/// An ordered list of permissions, read as the conjunction of its entries.
#[derive(Clone, Debug)]
pub struct PermissionSet {
    pub permissions: Vec<Permission>,
}

impl View for PermissionSet {
    type V = Seq<SpecPermission>;

    open spec fn view(&self) -> Seq<SpecPermission> {
        self.permissions@.map_values(|p: Permission| p@)
    }
}

/// The permissions granted to one capability function of a workflow run.
///
/// `function_id` is either a concrete capability function id or the literal
/// wildcard `"*"`, which acts as a fallback for every function that has no
/// exact-id grant.
#[derive(Clone, Debug)]
pub struct FunctionPermissionGrant {
    pub function_id: String,
    pub granted: PermissionSet,
}

/// The mathematical value of a [`FunctionPermissionGrant`].
pub ghost struct SpecGrant {
    pub function_id: Seq<char>,
    pub granted: Seq<SpecPermission>,
}

impl View for FunctionPermissionGrant {
    type V = SpecGrant;

    open spec fn view(&self) -> SpecGrant {
        SpecGrant { function_id: self.function_id@, granted: self.granted@ }
    }
}

impl DeepView for Permission {
    type V = SpecPermission;

    open spec fn deep_view(&self) -> SpecPermission {
        self@
    }
}

impl DeepView for FunctionPermissionGrant {
    type V = SpecGrant;

    open spec fn deep_view(&self) -> SpecGrant {
        self@
    }
}

/// The outcome of a permission check: either every required entry is
/// covered, or the first uncovered required entry is reported.
pub enum CheckPermissionResult {
    Satisfied,
    Missing(Permission),
}

/// Rank of a level on the ordinal scale `Unspecified < Medium < High`.
pub open spec fn level_rank(l: PermissionLevel) -> int {
    match l {
        PermissionLevel::Unspecified => 0,
        PermissionLevel::Medium => 1,
        PermissionLevel::High => 2,
    }
}

/// A granted level covers a required level when either side is
/// `Unspecified` or the granted level is at least as strong.
pub open spec fn level_allows(granted: PermissionLevel, required: PermissionLevel) -> bool {
    ||| granted == PermissionLevel::Unspecified
    ||| required == PermissionLevel::Unspecified
    ||| level_rank(granted) >= level_rank(required)
}

/// Granted resources cover the required ones when nothing is required,
/// when the grant is unscoped (empty list), or when every required token
/// appears among the granted tokens.
pub open spec fn resources_allow(granted: Seq<Seq<char>>, required: Seq<Seq<char>>) -> bool {
    ||| required.len() == 0
    ||| granted.len() == 0
    ||| forall|i: int| 0 <= i < required.len() ==> granted.contains(#[trigger] required[i])
}

/// The first granted entry of the given kind, if any.
pub open spec fn first_kind_match(granted: Seq<SpecPermission>, kind: PermissionKind) -> Option<
    SpecPermission,
>
    decreases granted.len(),
{
    if granted.len() == 0 {
        None
    } else if granted[0].kind == kind {
        Some(granted[0])
    } else {
        first_kind_match(granted.drop_first(), kind)
    }
}

/// One required entry is satisfied when the first granted entry of the same
/// kind exists and covers its level and resources.
pub open spec fn entry_satisfied(granted: Seq<SpecPermission>, required: SpecPermission) -> bool {
    match first_kind_match(granted, required.kind) {
        None => false,
        Some(g) => level_allows(g.level, required.level) && resources_allow(
            g.resource,
            required.resource,
        ),
    }
}

/// The first required entry the granted set does not cover, if any.
pub open spec fn spec_first_unmet(
    granted: Seq<SpecPermission>,
    required: Seq<SpecPermission>,
) -> Option<SpecPermission>
    decreases required.len(),
{
    if required.len() == 0 {
        None
    } else if !entry_satisfied(granted, required[0]) {
        Some(required[0])
    } else {
        spec_first_unmet(granted, required.drop_first())
    }
}

/// The whole required set is satisfied: every entry is covered.
pub open spec fn spec_satisfied(
    granted: Seq<SpecPermission>,
    required: Seq<SpecPermission>,
) -> bool {
    forall|i: int| 0 <= i < required.len() ==> entry_satisfied(granted, #[trigger] required[i])
}

/// There is no uncovered entry exactly when every entry is covered.
pub broadcast proof fn lemma_first_unmet_none_iff_satisfied(
    granted: Seq<SpecPermission>,
    required: Seq<SpecPermission>,
)
    ensures
        (#[trigger] spec_first_unmet(granted, required)) is None <==> spec_satisfied(
            granted,
            required,
        ),
    decreases required.len(),
{
    if required.len() == 0 {
    } else {
        lemma_first_unmet_none_iff_satisfied(granted, required.drop_first());
        if entry_satisfied(granted, required[0]) {
            assert(spec_satisfied(granted, required.drop_first()) ==> spec_satisfied(
                granted,
                required,
            )) by {
                if spec_satisfied(granted, required.drop_first()) {
                    assert forall|i: int| 0 <= i < required.len() implies entry_satisfied(
                        granted,
                        #[trigger] required[i],
                    ) by {
                        if i > 0 {
                            assert(required.drop_first()[i - 1] == required[i]);
                        }
                    }
                }
            }
            assert(spec_satisfied(granted, required) ==> spec_satisfied(
                granted,
                required.drop_first(),
            )) by {
                if spec_satisfied(granted, required) {
                    assert forall|i: int| 0 <= i < required.drop_first().len() implies
                        entry_satisfied(granted, #[trigger] required.drop_first()[i]) by {
                        assert(required.drop_first()[i] == required[i + 1]);
                    }
                }
            }
        }
    }
}

impl Permission {
    /// A field-for-field copy whose mathematical value is unchanged.
    pub fn duplicate(&self) -> (r: Permission)
        ensures
            r@ == self@,
    {
        let mut resource: Vec<String> = Vec::new();
        let mut i: usize = 0;
        while i < self.resource.len()
            invariant
                i <= self.resource@.len(),
                resource@ == self.resource@.subrange(0, i as int),
            decreases self.resource@.len() - i,
        {
            resource.push(self.resource[i].clone());
            i = i + 1;
            proof {
                assert(resource@ =~= self.resource@.subrange(0, i as int));
            }
        }
        proof {
            assert(resource@ =~= self.resource@);
        }
        Permission {
            display_name: self.display_name.clone(),
            description: self.description.clone(),
            kind: self.kind,
            level: self.level,
            resource,
        }
    }
}

impl PermissionSet {
    /// The empty permission set.
    pub fn empty() -> (r: PermissionSet)
        ensures
            r@ == Seq::<SpecPermission>::empty(),
    {
        let r = PermissionSet { permissions: Vec::new() };
        proof {
            assert(r@ =~= Seq::<SpecPermission>::empty());
        }
        r
    }

    /// An entry-for-entry copy whose mathematical value is unchanged.
    pub fn duplicate(&self) -> (r: PermissionSet)
        ensures
            r@ == self@,
    {
        let mut permissions: Vec<Permission> = Vec::new();
        let mut i: usize = 0;
        while i < self.permissions.len()
            invariant
                i <= self.permissions@.len(),
                permissions@.len() == i,
                forall|j: int| 0 <= j < i ==> permissions@.map_values(|p: Permission| p@)[j]
                    == self@[j],
            decreases self.permissions@.len() - i,
        {
            permissions.push(self.permissions[i].duplicate());
            i = i + 1;
        }
        let r = PermissionSet { permissions };
        proof {
            assert(r@ =~= self@);
        }
        r
    }
}

/// Whether a granted level covers a required level.
pub fn level_allows_exec(granted: PermissionLevel, required: PermissionLevel) -> (r: bool)
    ensures
        r == level_allows(granted, required),
{
    match (granted, required) {
        (PermissionLevel::Unspecified, _) => true,
        (_, PermissionLevel::Unspecified) => true,
        (PermissionLevel::High, _) => true,
        (PermissionLevel::Medium, PermissionLevel::Medium) => true,
        _ => false,
    }
}

/// Whether granted resource tokens cover the required ones.
pub fn resources_allow_exec(granted: &Vec<String>, required: &Vec<String>) -> (r: bool)
    ensures
        r == resources_allow(granted.deep_view(), required.deep_view()),
{
    if required.len() == 0 {
        return true;
    }
    if granted.len() == 0 {
        return true;
    }
    let mut i: usize = 0;
    while i < required.len()
        invariant
            i <= required@.len(),
            granted@.len() > 0,
            required@.len() > 0,
            forall|k: int| 0 <= k < i ==> granted.deep_view().contains(
                #[trigger] required.deep_view()[k],
            ),
        decreases required@.len() - i,
    {
        let mut found = false;
        let mut j: usize = 0;
        while j < granted.len()
            invariant
                j <= granted@.len(),
                i < required@.len(),
                found ==> granted.deep_view().contains(required.deep_view()[i as int]),
                !found ==> forall|k: int| 0 <= k < j ==> granted.deep_view()[k]
                    != required.deep_view()[i as int],
            decreases granted@.len() - j,
        {
            if crate::text::str_eq(granted[j].as_str(), required[i].as_str()) {
                found = true;
                proof {
                    assert(granted.deep_view()[j as int] == granted@[j as int]@);
                    assert(required.deep_view()[i as int] == required@[i as int]@);
                }
            }
            j = j + 1;
        }
        if !found {
            proof {
                assert(!granted.deep_view().contains(required.deep_view()[i as int]));
            }
            return false;
        }
        i = i + 1;
    }
    true
}

/// The first granted entry of the given kind, if any.
fn find_kind_match<'a>(granted: &'a Vec<Permission>, kind: PermissionKind) -> (r: Option<
    &'a Permission,
>)
    ensures
        match r {
            Some(g) => first_kind_match(granted@.map_values(|p: Permission| p@), kind) == Some(g@),
            None => first_kind_match(granted@.map_values(|p: Permission| p@), kind) is None,
        },
{
    let ghost gs = granted@.map_values(|p: Permission| p@);
    proof {
        assert(gs.skip(0) =~= gs);
    }
    let mut i: usize = 0;
    while i < granted.len()
        invariant
            i <= granted@.len(),
            gs == granted@.map_values(|p: Permission| p@),
            first_kind_match(gs, kind) == first_kind_match(gs.skip(i as int), kind),
        decreases granted@.len() - i,
    {
        if granted[i].kind == kind {
            proof {
                assert(gs.skip(i as int)[0] == gs[i as int]);
            }
            return Some(&granted[i]);
        }
        proof {
            assert(gs.skip(i as int).drop_first() =~= gs.skip(i as int + 1));
        }
        i = i + 1;
    }
    proof {
        assert(gs.skip(i as int).len() == 0);
    }
    None
}

/// Decides whether `granted` covers every entry of `required`.
///
/// Per required entry, in order: the first granted entry of the same kind
/// is consulted; it must exist, its level must cover the required level,
/// and its resource scope must cover the required resources.  The first
/// entry that fails is returned as `Missing`.
pub fn check_permission(granted: &PermissionSet, required: &PermissionSet) -> (r:
    CheckPermissionResult)
    ensures
        r is Satisfied <==> spec_satisfied(granted@, required@),
        r matches CheckPermissionResult::Missing(p) ==> spec_first_unmet(granted@, required@)
            == Some(p@),
{
    let ghost gs = granted@;
    let ghost rs = required@;
    proof {
        assert(rs.skip(0) =~= rs);
    }
    let mut i: usize = 0;
    while i < required.permissions.len()
        invariant
            i <= required.permissions@.len(),
            gs == granted@,
            rs == required@,
            rs.len() == required.permissions@.len(),
            spec_first_unmet(gs, rs) == spec_first_unmet(gs, rs.skip(i as int)),
            forall|k: int| 0 <= k < i ==> entry_satisfied(gs, #[trigger] rs[k]),
        decreases required.permissions@.len() - i,
    {
        let req = &required.permissions[i];
        proof {
            assert(rs[i as int] == req@);
            assert(rs.skip(i as int)[0] == rs[i as int]);
        }
        let ok = match find_kind_match(&granted.permissions, req.kind) {
            None => false,
            Some(g) => level_allows_exec(g.level, req.level) && resources_allow_exec(
                &g.resource,
                &req.resource,
            ),
        };
        if !ok {
            proof {
                assert(!entry_satisfied(gs, rs.skip(i as int)[0]));
                assert(spec_first_unmet(gs, rs.skip(i as int)) == Some(rs[i as int]));
                lemma_first_unmet_none_iff_satisfied(gs, rs);
            }
            return CheckPermissionResult::Missing(req.duplicate());
        }
        proof {
            assert(rs.skip(i as int).drop_first() =~= rs.skip(i as int + 1));
        }
        i = i + 1;
    }
    proof {
        assert(rs.skip(i as int).len() == 0);
        lemma_first_unmet_none_iff_satisfied(gs, rs);
    }
    CheckPermissionResult::Satisfied
}

/// The literal wildcard grant id, as a character sequence.
pub open spec fn wildcard() -> Seq<char> {
    seq!['*']
}

/// The granted set of the first grant stored under the given id, if any.
pub open spec fn first_grant_for(grants: Seq<SpecGrant>, id: Seq<char>) -> Option<
    Seq<SpecPermission>,
>
    decreases grants.len(),
{
    if grants.len() == 0 {
        None
    } else if grants[0].function_id == id {
        Some(grants[0].granted)
    } else {
        first_grant_for(grants.drop_first(), id)
    }
}

/// The permission set that effectively applies to a capability function:
/// the first grant under its exact id, else the first grant under the
/// wildcard id, else the empty set.
pub open spec fn spec_effective_grant(grants: Seq<SpecGrant>, id: Seq<char>) -> Seq<
    SpecPermission,
> {
    match first_grant_for(grants, id) {
        Some(g) => g,
        None => match first_grant_for(grants, wildcard()) {
            Some(g) => g,
            None => Seq::empty(),
        },
    }
}

/// When no grant is stored under an id, the lookup for it finds nothing.
pub proof fn lemma_no_grant_for_id(grants: Seq<SpecGrant>, id: Seq<char>)
    requires
        forall|i: int| 0 <= i < grants.len() ==> (#[trigger] grants[i]).function_id != id,
    ensures
        first_grant_for(grants, id) is None,
    decreases grants.len(),
{
    if grants.len() > 0 {
        lemma_no_grant_for_id(grants.drop_first(), id);
    }
}

/// The wildcard grant is a fallback: a lookup for a function id that has no
/// exact-id grant is answered by the first grant stored under `"*"`.
pub proof fn lemma_wildcard_fallback(grants: Seq<SpecGrant>, id: Seq<char>)
    requires
        forall|i: int| 0 <= i < grants.len() ==> (#[trigger] grants[i]).function_id != id,
    ensures
        spec_effective_grant(grants, id) == match first_grant_for(grants, wildcard()) {
            Some(g) => g,
            None => Seq::<SpecPermission>::empty(),
        },
{
    lemma_no_grant_for_id(grants, id);
}

/// An exact-id grant is never overridden: when one exists, the effective
/// granted set is the first one stored under that id, whatever wildcard
/// grants exist.
pub proof fn lemma_exact_grant_priority(grants: Seq<SpecGrant>, id: Seq<char>)
    requires
        exists|i: int| 0 <= i < grants.len() && (#[trigger] grants[i]).function_id == id,
    ensures
        spec_effective_grant(grants, id) == first_grant_for(grants, id)->Some_0,
        first_grant_for(grants, id) is Some,
    decreases grants.len(),
{
    if grants.len() > 0 && grants[0].function_id != id {
        let i = choose|i: int| 0 <= i < grants.len() && (#[trigger] grants[i]).function_id == id;
        assert(grants.drop_first()[i - 1] == grants[i]);
        lemma_exact_grant_priority(grants.drop_first(), id);
    }
}

/// The granted set of the first grant stored under the given id, if any.
fn find_grant<'a>(grants: &'a Vec<FunctionPermissionGrant>, id: &str) -> (r: Option<
    &'a PermissionSet,
>)
    ensures
        match r {
            Some(g) => first_grant_for(grants.deep_view(), id@) == Some(g@),
            None => first_grant_for(grants.deep_view(), id@) is None,
        },
{
    let ghost gs = grants.deep_view();
    proof {
        assert(gs.skip(0) =~= gs);
    }
    let mut i: usize = 0;
    while i < grants.len()
        invariant
            i <= grants@.len(),
            gs == grants.deep_view(),
            first_grant_for(gs, id@) == first_grant_for(gs.skip(i as int), id@),
        decreases grants@.len() - i,
    {
        proof {
            assert(gs.skip(i as int)[0] == gs[i as int]);
            assert(gs[i as int] == grants@[i as int]@);
        }
        if crate::text::str_eq(grants[i].function_id.as_str(), id) {
            return Some(&grants[i].granted);
        }
        proof {
            assert(gs.skip(i as int).drop_first() =~= gs.skip(i as int + 1));
        }
        i = i + 1;
    }
    proof {
        assert(gs.skip(i as int).len() == 0);
    }
    None
}

/// The permission set that effectively applies to the given capability
/// function id: the first grant under the exact id takes priority over the
/// first grant under the wildcard `"*"`; with neither, the effective set is
/// empty.
pub fn effective_grant(grants: &Vec<FunctionPermissionGrant>, function_id: &str) -> (r:
    PermissionSet)
    ensures
        r@ == spec_effective_grant(grants.deep_view(), function_id@),
{
    if let Some(g) = find_grant(grants, function_id) {
        return g.duplicate();
    }
    proof {
        reveal_strlit("*");
        assert("*"@ =~= wildcard());
    }
    if let Some(g) = find_grant(grants, "*") {
        return g.duplicate();
    }
    PermissionSet::empty()
}

} // verus!
