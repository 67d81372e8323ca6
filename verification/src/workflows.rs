//! The pure parts of the workflow management service: the workflow record
//! model, the field-merge rules of updates, display-name derivation,
//! generated-code sanitizing, list-pagination tokens, the permission sets
//! a stored code is run with, and the all-permission grant that debug
//! workflows receive.  The transport and storage around them live with
//! the surrounding process.

use crate::docscan::{digits_value, is_digit, lemma_digits_value_monotone};
use crate::jsdoc::{find_char, trim_ws, trim_ws_exec};
use crate::permission::{
    FunctionPermissionGrant, Permission, PermissionKind, PermissionLevel, PermissionSet,
    SpecGrant, SpecPermission,
};
use crate::runtime::{duplicate_results, SpecWorkflowResult, WorkflowResult};
use crate::sysconfig::dec_digits;
use vstd::prelude::*;

verus! {

/// A point in time, as the storage layer records it.
#[derive(Clone, Copy, PartialEq, Eq, Structural, Debug)]
pub struct Timestamp {
    pub seconds: i64,
    pub nanos: i32,
}

/// One stored revision of a workflow's code.
#[derive(Debug)]
pub struct WorkflowCode {
    pub id: String,
    pub code: String,
    pub code_revision: u64,
    pub plugin_function_ids: Vec<String>,
    pub allowed_permissions: Vec<FunctionPermissionGrant>,
    pub results: Vec<WorkflowResult>,
}

/// The mathematical value of a [`WorkflowCode`].
#[verifier::ext_equal]
pub ghost struct SpecWorkflowCode {
    pub id: Seq<char>,
    pub code: Seq<char>,
    pub code_revision: u64,
    pub plugin_function_ids: Seq<Seq<char>>,
    pub allowed_permissions: Seq<SpecGrant>,
    pub results: Seq<SpecWorkflowResult>,
}

impl View for WorkflowCode {
    type V = SpecWorkflowCode;

    open spec fn view(&self) -> SpecWorkflowCode {
        SpecWorkflowCode {
            id: self.id@,
            code: self.code@,
            code_revision: self.code_revision,
            plugin_function_ids: self.plugin_function_ids.deep_view(),
            allowed_permissions: self.allowed_permissions.deep_view(),
            results: self.results.deep_view(),
        }
    }
}

impl DeepView for WorkflowCode {
    type V = SpecWorkflowCode;

    open spec fn deep_view(&self) -> SpecWorkflowCode {
        self@
    }
}

/// One workflow record: its metadata, code revisions and results.
#[derive(Debug)]
pub struct Workflow {
    pub id: String,
    pub display_name: String,
    pub description: String,
    pub workflow_language: i32,
    pub workflow_code: Vec<WorkflowCode>,
    pub workflow_results: Vec<WorkflowResult>,
    pub created_at: Option<Timestamp>,
    pub updated_at: Option<Timestamp>,
}

/// The mathematical value of a [`Workflow`].
#[verifier::ext_equal]
pub ghost struct SpecWorkflow {
    pub id: Seq<char>,
    pub display_name: Seq<char>,
    pub description: Seq<char>,
    pub workflow_language: i32,
    pub workflow_code: Seq<SpecWorkflowCode>,
    pub workflow_results: Seq<SpecWorkflowResult>,
    pub created_at: Option<Timestamp>,
    pub updated_at: Option<Timestamp>,
}

impl View for Workflow {
    type V = SpecWorkflow;

    open spec fn view(&self) -> SpecWorkflow {
        SpecWorkflow {
            id: self.id@,
            display_name: self.display_name@,
            description: self.description@,
            workflow_language: self.workflow_language,
            workflow_code: self.workflow_code.deep_view(),
            workflow_results: self.workflow_results.deep_view(),
            created_at: self.created_at,
            updated_at: self.updated_at,
        }
    }
}

/// An element-for-element copy whose mathematical value is unchanged.
fn duplicate_string_vec(v: &Vec<String>) -> (r: Vec<String>)
    ensures
        r.deep_view() == v.deep_view(),
{
    let mut r: Vec<String> = Vec::new();
    let mut i: usize = 0;
    while i < v.len()
        invariant
            i <= v@.len(),
            r.deep_view().len() == i,
            forall|j: int| 0 <= j < i ==> r.deep_view()[j] == v.deep_view()[j],
        decreases v@.len() - i,
    {
        let ghost r0 = r.deep_view();
        r.push(v[i].clone());
        proof {
            assert(r.deep_view() =~= r0.push(v@[i as int]@));
        }
        i = i + 1;
    }
    proof {
        assert(r.deep_view() =~= v.deep_view());
    }
    r
}

/// An element-for-element copy whose mathematical value is unchanged.
fn duplicate_grants(v: &Vec<FunctionPermissionGrant>) -> (r: Vec<FunctionPermissionGrant>)
    ensures
        r.deep_view() == v.deep_view(),
{
    let mut r: Vec<FunctionPermissionGrant> = Vec::new();
    let mut i: usize = 0;
    while i < v.len()
        invariant
            i <= v@.len(),
            r.deep_view().len() == i,
            forall|j: int| 0 <= j < i ==> r.deep_view()[j] == v.deep_view()[j],
        decreases v@.len() - i,
    {
        let ghost r0 = r.deep_view();
        let g = FunctionPermissionGrant {
            function_id: v[i].function_id.clone(),
            granted: v[i].granted.duplicate(),
        };
        r.push(g);
        proof {
            assert(r.deep_view() =~= r0.push(v@[i as int]@));
        }
        i = i + 1;
    }
    proof {
        assert(r.deep_view() =~= v.deep_view());
    }
    r
}

impl WorkflowCode {
    /// A field-for-field copy whose mathematical value is unchanged.
    pub fn duplicate(&self) -> (r: WorkflowCode)
        ensures
            r@ == self@,
    {
        let r = WorkflowCode {
            id: self.id.clone(),
            code: self.code.clone(),
            code_revision: self.code_revision,
            plugin_function_ids: duplicate_string_vec(&self.plugin_function_ids),
            allowed_permissions: duplicate_grants(&self.allowed_permissions),
            results: duplicate_results(&self.results),
        };
        proof {
            assert(r@ =~= self@);
        }
        r
    }
}

/// An element-for-element copy whose mathematical value is unchanged.
fn duplicate_codes(v: &Vec<WorkflowCode>) -> (r: Vec<WorkflowCode>)
    ensures
        r.deep_view() == v.deep_view(),
{
    let mut r: Vec<WorkflowCode> = Vec::new();
    let mut i: usize = 0;
    while i < v.len()
        invariant
            i <= v@.len(),
            r.deep_view().len() == i,
            forall|j: int| 0 <= j < i ==> r.deep_view()[j] == v.deep_view()[j],
        decreases v@.len() - i,
    {
        let ghost r0 = r.deep_view();
        r.push(v[i].duplicate());
        proof {
            assert(r.deep_view() =~= r0.push(v@[i as int]@));
        }
        i = i + 1;
    }
    proof {
        assert(r.deep_view() =~= v.deep_view());
    }
    r
}

impl Workflow {
    /// A field-for-field copy whose mathematical value is unchanged.
    pub fn duplicate(&self) -> (r: Workflow)
        ensures
            r@ == self@,
    {
        let r = Workflow {
            id: self.id.clone(),
            display_name: self.display_name.clone(),
            description: self.description.clone(),
            workflow_language: self.workflow_language,
            workflow_code: duplicate_codes(&self.workflow_code),
            workflow_results: duplicate_results(&self.workflow_results),
            created_at: self.created_at,
            updated_at: self.updated_at,
        };
        proof {
            assert(r@ =~= self@);
        }
        r
    }
}

/// The record an update without a field mask produces: an incoming field
/// wins when the whole record is overwritten or the field is non-empty
/// (for the language: set); the timestamps move only on a whole-record
/// overwrite, and a missing incoming creation time never clears the
/// recorded one.
pub open spec fn spec_merge_workflow(
    e: SpecWorkflow,
    i: SpecWorkflow,
    overwrite_all: bool,
) -> SpecWorkflow {
    SpecWorkflow {
        id: e.id,
        display_name: if overwrite_all || i.display_name.len() > 0 {
            i.display_name
        } else {
            e.display_name
        },
        description: if overwrite_all || i.description.len() > 0 {
            i.description
        } else {
            e.description
        },
        workflow_language: if overwrite_all || i.workflow_language != 0 {
            i.workflow_language
        } else {
            e.workflow_language
        },
        workflow_code: if overwrite_all || i.workflow_code.len() > 0 {
            i.workflow_code
        } else {
            e.workflow_code
        },
        workflow_results: if overwrite_all || i.workflow_results.len() > 0 {
            i.workflow_results
        } else {
            e.workflow_results
        },
        created_at: if overwrite_all && i.created_at is Some {
            i.created_at
        } else {
            e.created_at
        },
        updated_at: if overwrite_all {
            i.updated_at
        } else {
            e.updated_at
        },
    }
}

/// Merges an incoming workflow record into an existing one.
pub fn merge_workflow(existing: &Workflow, incoming: &Workflow, overwrite_all: bool) -> (r:
    Workflow)
    ensures
        r@ == spec_merge_workflow(existing@, incoming@, overwrite_all),
{
    let mut desired = existing.duplicate();
    if overwrite_all || incoming.display_name.as_str().unicode_len() > 0 {
        desired.display_name = incoming.display_name.clone();
    }
    if overwrite_all || incoming.description.as_str().unicode_len() > 0 {
        desired.description = incoming.description.clone();
    }
    if overwrite_all || incoming.workflow_language != 0 {
        desired.workflow_language = incoming.workflow_language;
    }
    if overwrite_all || incoming.workflow_code.len() > 0 {
        desired.workflow_code = duplicate_codes(&incoming.workflow_code);
    }
    if overwrite_all || incoming.workflow_results.len() > 0 {
        desired.workflow_results = duplicate_results(&incoming.workflow_results);
    }
    if overwrite_all {
        if incoming.created_at.is_some() {
            desired.created_at = incoming.created_at;
        }
        desired.updated_at = incoming.updated_at;
    }
    proof {
        assert(desired@ =~= spec_merge_workflow(existing@, incoming@, overwrite_all));
    }
    desired
}

/// One field-mask path applied to the desired record: the incoming value
/// replaces the field the path names; an unknown path applies nothing.
pub open spec fn spec_apply_one(
    d: SpecWorkflow,
    e: SpecWorkflow,
    i: SpecWorkflow,
    path: Seq<char>,
) -> Option<SpecWorkflow> {
    if path == "display_name"@ {
        Some(SpecWorkflow { display_name: i.display_name, ..d })
    } else if path == "description"@ {
        Some(SpecWorkflow { description: i.description, ..d })
    } else if path == "workflow_language"@ {
        Some(SpecWorkflow { workflow_language: i.workflow_language, ..d })
    } else if path == "workflow_code"@ {
        Some(SpecWorkflow { workflow_code: i.workflow_code, ..d })
    } else if path == "workflow_results"@ {
        Some(SpecWorkflow { workflow_results: i.workflow_results, ..d })
    } else if path == "updated_at"@ {
        Some(SpecWorkflow { updated_at: i.updated_at, ..d })
    } else if path == "created_at"@ {
        Some(
            SpecWorkflow {
                created_at: if i.created_at is Some {
                    i.created_at
                } else {
                    e.created_at
                },
                ..d
            },
        )
    } else {
        None
    }
}

/// The record a masked update produces, or the first unknown path.
pub open spec fn spec_apply_mask(
    d: SpecWorkflow,
    e: SpecWorkflow,
    i: SpecWorkflow,
    paths: Seq<Seq<char>>,
    k: int,
) -> Result<SpecWorkflow, Seq<char>>
    decreases paths.len() - k,
{
    if k < 0 || k >= paths.len() {
        Ok(d)
    } else {
        match spec_apply_one(d, e, i, paths[k]) {
            Some(d2) => spec_apply_mask(d2, e, i, paths, k + 1),
            None => Err(paths[k]),
        }
    }
}

/// What a masked update answers: with an empty mask, the whole-record
/// merge; else the listed fields replaced in order, or the first unknown
/// path as the error.
pub open spec fn spec_apply_update_mask(
    e: SpecWorkflow,
    i: SpecWorkflow,
    paths: Seq<Seq<char>>,
) -> Result<SpecWorkflow, Seq<char>> {
    if paths.len() == 0 {
        Ok(spec_merge_workflow(e, i, true))
    } else {
        spec_apply_mask(e, e, i, paths, 0)
    }
}

/// Applies a field mask to an existing workflow record: only the listed
/// fields take the incoming values; an unknown path is refused and named.
pub fn apply_update_mask(existing: &Workflow, incoming: &Workflow, mask_paths: &Vec<String>) -> (r:
    Result<Workflow, String>)
    ensures
        match r {
            Ok(w) => spec_apply_update_mask(existing@, incoming@, mask_paths.deep_view()) == Ok::<
                SpecWorkflow,
                Seq<char>,
            >(w@),
            Err(p) => spec_apply_update_mask(existing@, incoming@, mask_paths.deep_view()) == Err::<
                SpecWorkflow,
                Seq<char>,
            >(p@),
        },
{
    if mask_paths.len() == 0 {
        proof {
            assert(mask_paths.deep_view().len() == 0);
        }
        return Ok(merge_workflow(existing, incoming, true));
    }
    let ghost ps = mask_paths.deep_view();
    let mut desired = existing.duplicate();
    let mut k: usize = 0;
    while k < mask_paths.len()
        invariant
            k <= mask_paths@.len(),
            ps == mask_paths.deep_view(),
            ps.len() > 0,
            spec_apply_mask(existing@, existing@, incoming@, ps, 0) == spec_apply_mask(
                desired@,
                existing@,
                incoming@,
                ps,
                k as int,
            ),
        decreases mask_paths@.len() - k,
    {
        proof {
            assert(ps[k as int] == mask_paths@[k as int]@);
        }
        let path = &mask_paths[k];
        if crate::text::string_eq_str(path, "display_name") {
            desired.display_name = incoming.display_name.clone();
        } else if crate::text::string_eq_str(path, "description") {
            desired.description = incoming.description.clone();
        } else if crate::text::string_eq_str(path, "workflow_language") {
            desired.workflow_language = incoming.workflow_language;
        } else if crate::text::string_eq_str(path, "workflow_code") {
            desired.workflow_code = duplicate_codes(&incoming.workflow_code);
        } else if crate::text::string_eq_str(path, "workflow_results") {
            desired.workflow_results = duplicate_results(&incoming.workflow_results);
        } else if crate::text::string_eq_str(path, "updated_at") {
            desired.updated_at = incoming.updated_at;
        } else if crate::text::string_eq_str(path, "created_at") {
            desired.created_at = if incoming.created_at.is_some() {
                incoming.created_at
            } else {
                existing.created_at
            };
        } else {
            return Err(path.clone());
        }
        k = k + 1;
    }
    Ok(desired)
}

/// The fallback name for a workflow generated out of an empty prompt.
pub open spec fn generated_workflow_name() -> Seq<char> {
    "Generated Workflow"@
}

/// The display name derived from a generation prompt: the prompt's first
/// line, trimmed of surrounding whitespace, cut to at most 64 characters;
/// an empty prompt names the workflow `Generated Workflow`.
pub open spec fn spec_derive_display_name(s: Seq<char>) -> Seq<char> {
    let t = trim_ws(s);
    if t.len() == 0 {
        generated_workflow_name()
    } else {
        let k0 = find_char(t, '\n', 0);
        let k = if 0 <= k0 <= t.len() {
            k0
        } else {
            t.len() as int
        };
        let line = trim_ws(t.subrange(0, k));
        if line.len() > 64 {
            line.take(64)
        } else {
            line
        }
    }
}

/// Derives a workflow display name from a generation prompt.
pub fn derive_display_name(prompt: &str) -> (r: String)
    ensures
        r@ == spec_derive_display_name(prompt@),
{
    let trimmed = trim_ws_exec(prompt);
    let tcs = crate::text::chars_of(trimmed.as_str());
    if tcs.len() == 0 {
        return String::from_str("Generated Workflow");
    }
    let ghost t = trimmed@;
    let mut j: usize = 0;
    while j < tcs.len() && tcs[j] != '\n'
        invariant
            j <= tcs@.len(),
            tcs@ == t,
            forall|m: int| 0 <= m < j ==> t[m] != '\n',
        decreases tcs@.len() - j,
    {
        j = j + 1;
    }
    proof {
        if j < tcs@.len() {
            crate::jsdoc::lemma_find_char_from(t, '\n', 0, j as int);
        } else {
            crate::jsdoc::lemma_find_char_none(t, '\n', 0);
        }
        assert(find_char(t, '\n', 0) == j as int);
    }
    let first = crate::text::substring_string(&tcs, 0, j);
    let line = trim_ws_exec(first.as_str());
    let lcs = crate::text::chars_of(line.as_str());
    if lcs.len() > 64 {
        let r = crate::text::substring_string(&lcs, 0, 64);
        proof {
            assert(r@ =~= line@.take(64));
        }
        r
    } else {
        line
    }
}

/// The suffix a runnable generated script must end with.
pub open spec fn workflow_call_word() -> Seq<char> {
    "workflow();"@
}

/// Whether `suffix` stands letter for letter at the end of `s`.
pub open spec fn ends_with(s: Seq<char>, suffix: Seq<char>) -> bool {
    suffix.len() <= s.len() && s.subrange(s.len() - suffix.len(), s.len() as int) == suffix
}

/// The runnable form of a generated script: the text trimmed of
/// surrounding whitespace, with a `workflow();` call line appended unless
/// the text already ends in one.
pub open spec fn spec_sanitize_generated_code(s: Seq<char>) -> Seq<char> {
    let t = trim_ws(s);
    if ends_with(t, workflow_call_word()) {
        t
    } else {
        t + seq!['\n'] + workflow_call_word()
    }
}

/// Makes a generated script runnable: the workflow entry call is appended
/// unless the script already ends with one.
pub fn sanitize_generated_code(code: &str) -> (r: String)
    ensures
        r@ == spec_sanitize_generated_code(code@),
{
    proof {
        reveal_strlit("workflow();");
        reveal_strlit("\nworkflow();");
        assert("\nworkflow();"@ =~= seq!['\n'] + "workflow();"@);
    }
    let mut trimmed = trim_ws_exec(code);
    let tcs = crate::text::chars_of(trimmed.as_str());
    let n = tcs.len();
    let mut matches = false;
    if n >= 11 {
        matches = tcs[n - 11] == 'w' && tcs[n - 10] == 'o' && tcs[n - 9] == 'r' && tcs[n - 8]
            == 'k' && tcs[n - 7] == 'f' && tcs[n - 6] == 'l' && tcs[n - 5] == 'o' && tcs[n - 4]
            == 'w' && tcs[n - 3] == '(' && tcs[n - 2] == ')' && tcs[n - 1] == ';';
    }
    proof {
        assert(workflow_call_word().len() == 11);
        if matches {
            assert(trimmed@.subrange(n - 11, n as int) =~= workflow_call_word());
        } else {
            if ends_with(trimmed@, workflow_call_word()) {
                let w = trimmed@.subrange(n - 11, n as int);
                assert(trimmed@[n - 11] == w[0] && w[0] == workflow_call_word()[0]);
                assert(trimmed@[n - 10] == w[1] && w[1] == workflow_call_word()[1]);
                assert(trimmed@[n - 9] == w[2] && w[2] == workflow_call_word()[2]);
                assert(trimmed@[n - 8] == w[3] && w[3] == workflow_call_word()[3]);
                assert(trimmed@[n - 7] == w[4] && w[4] == workflow_call_word()[4]);
                assert(trimmed@[n - 6] == w[5] && w[5] == workflow_call_word()[5]);
                assert(trimmed@[n - 5] == w[6] && w[6] == workflow_call_word()[6]);
                assert(trimmed@[n - 4] == w[7] && w[7] == workflow_call_word()[7]);
                assert(trimmed@[n - 3] == w[8] && w[8] == workflow_call_word()[8]);
                assert(trimmed@[n - 2] == w[9] && w[9] == workflow_call_word()[9]);
                assert(trimmed@[n - 1] == w[10] && w[10] == workflow_call_word()[10]);
                assert(false);
            }
        }
    }
    if matches {
        trimmed
    } else {
        trimmed.append("\nworkflow();");
        trimmed
    }
}

/// What a pagination token decodes to: the number its trimmed text spells
/// (an optional leading `+` allowed), and zero for anything else,
/// overflow included.
pub open spec fn spec_decode_page_token(s: Seq<char>) -> int {
    let t = trim_ws(s);
    let body = if t.len() > 0 && t[0] == '+' {
        t.drop_first()
    } else {
        t
    };
    if body.len() > 0 && crate::docscan::all_digits(body) && digits_value(body) <= u64::MAX {
        digits_value(body)
    } else {
        0
    }
}

/// Decodes a pagination token back to an offset; anything unreadable
/// means the first page.
pub fn decode_page_token(token: &str) -> (r: u64)
    ensures
        r as int == spec_decode_page_token(token@),
{
    let trimmed = trim_ws_exec(token);
    let tcs = crate::text::chars_of(trimmed.as_str());
    let ghost t = trimmed@;
    let start: usize = if tcs.len() > 0 && tcs[0] == '+' {
        1
    } else {
        0
    };
    let ghost body = if t.len() > 0 && t[0] == '+' {
        t.drop_first()
    } else {
        t
    };
    proof {
        assert(body =~= t.skip(start as int));
    }
    if start >= tcs.len() {
        proof {
            assert(body.len() == 0);
            assert(spec_decode_page_token(token@) == 0);
        }
        return 0;
    }
    let mut acc: u64 = 0;
    let mut k: usize = start;
    proof {
        assert(body.take(0) =~= Seq::<char>::empty());
    }
    while k < tcs.len()
        invariant
            start <= k <= tcs@.len(),
            start < tcs@.len(),
            tcs@ == t,
            t == trim_ws(token@),
            body == t.skip(start as int),
            body == (if t.len() > 0 && t[0] == '+' {
                t.drop_first()
            } else {
                t
            }),
            forall|m: int| 0 <= m < k - start ==> is_digit(#[trigger] body[m]),
            acc as int == digits_value(body.take(k - start as int)),
        decreases tcs@.len() - k,
    {
        let c = tcs[k];
        if !('0' <= c && c <= '9') {
            proof {
                let kk = k - start as int;
                assert(body[kk] == t[k as int]);
                assert(!is_digit(body[kk]));
                crate::docscan::lemma_all_digits_iff(body);
                assert(!crate::docscan::all_digits(body));
                assert(spec_decode_page_token(token@) == 0);
            }
            return 0;
        }
        let d: u64 = (c as u32 as u64) - ('0' as u32 as u64);
        proof {
            assert(body[k - start as int] == t[k as int]);
            assert(d as int == crate::docscan::digit_value(body[k - start as int]));
            assert(body.take(k - start as int + 1).drop_last() =~= body.take(k - start as int));
            assert(body.take(k - start as int + 1).last() == body[k - start as int]);
        }
        if acc > (u64::MAX - d) / 10 {
            proof {
                let kk = k - start as int;
                assert(digits_value(body.take(kk + 1)) == acc as int * 10 + d as int);
                assert(acc as int * 10 + d as int > u64::MAX as int) by (nonlinear_arith)
                    requires
                        acc as int > (u64::MAX as int - d as int) / 10,
                        0 <= d as int <= 9,
                ;
                crate::docscan::lemma_all_digits_iff(body);
                if crate::docscan::all_digits(body) {
                    lemma_digits_value_monotone(body, kk + 1);
                    assert(digits_value(body) > u64::MAX as int);
                }
                assert(spec_decode_page_token(token@) == 0);
            }
            return 0;
        }
        proof {
            assert(acc as int * 10 + d as int <= u64::MAX as int) by (nonlinear_arith)
                requires
                    acc as int <= (u64::MAX as int - d as int) / 10,
                    0 <= d as int <= 9,
            ;
        }
        acc = acc * 10 + d;
        k = k + 1;
    }
    proof {
        assert(body.take(body.len() as int) =~= body);
        assert(forall|m: int| 0 <= m < body.len() ==> is_digit(#[trigger] body[m]));
        crate::docscan::lemma_all_digits_iff(body);
        assert(crate::docscan::all_digits(body));
        assert(digits_value(body) == acc as int);
    }
    acc
}

/// Encodes a list offset as a pagination token.
pub fn encode_page_token(offset: u64) -> (r: String)
    ensures
        r@ == dec_digits(offset as int),
{
    crate::sysconfig::u64_to_string(offset)
}

/// Every character of a decimal spelling is a digit.
pub proof fn lemma_dec_digits_are_digits(n: int)
    requires
        n >= 0,
    ensures
        dec_digits(n).len() > 0,
        forall|i: int| 0 <= i < dec_digits(n).len() ==> is_digit(#[trigger] dec_digits(n)[i]),
    decreases n,
{
    if n >= 10 {
        lemma_dec_digits_are_digits(n / 10);
        assert forall|i: int| 0 <= i < dec_digits(n).len() implies is_digit(
            #[trigger] dec_digits(n)[i],
        ) by {
            if i < dec_digits(n).len() - 1 {
                assert(dec_digits(n)[i] == dec_digits(n / 10)[i]);
            }
        }
    }
}

/// A decimal spelling spells its number back.
pub proof fn lemma_dec_digits_value(n: int)
    requires
        n >= 0,
    ensures
        digits_value(dec_digits(n)) == n,
    decreases n,
{
    if n < 10 {
        assert(dec_digits(n) == seq![crate::sysconfig::digit_char(n)]);
        assert(dec_digits(n).drop_last() =~= Seq::<char>::empty());
        assert(crate::docscan::digit_value(crate::sysconfig::digit_char(n)) == n);
        assert(dec_digits(n).last() == crate::sysconfig::digit_char(n));
        assert(digits_value(dec_digits(n)) == digits_value(Seq::<char>::empty()) * 10
            + crate::docscan::digit_value(crate::sysconfig::digit_char(n)));
    } else {
        lemma_dec_digits_value(n / 10);
        assert(dec_digits(n) == dec_digits(n / 10).push(crate::sysconfig::digit_char(n % 10)));
        assert(dec_digits(n).drop_last() =~= dec_digits(n / 10));
        assert(dec_digits(n).last() == crate::sysconfig::digit_char(n % 10));
        assert(crate::docscan::digit_value(crate::sysconfig::digit_char(n % 10)) == n % 10);
        assert(digits_value(dec_digits(n)) == digits_value(dec_digits(n / 10)) * 10 + (n % 10));
    }
}

/// Round trip: a pagination token encoded from an offset decodes back to
/// that offset.
pub proof fn lemma_page_token_round_trip(offset: u64)
    ensures
        spec_decode_page_token(dec_digits(offset as int)) == offset as int,
{
    let ds = dec_digits(offset as int);
    lemma_dec_digits_are_digits(offset as int);
    lemma_dec_digits_value(offset as int);
    assert(!crate::extract::is_space(ds[0]));
    assert(crate::extract::skip_spaces(ds, 0) == 0);
    assert(ds.skip(0) =~= ds);
    assert(crate::jsdoc::trim_start_ws(ds) == ds);
    assert(!crate::extract::is_space(ds.last()));
    assert(crate::jsdoc::trim_end_ws(ds) == ds);
    assert(trim_ws(ds) == ds);
    assert(ds[0] != '+');
    crate::docscan::lemma_all_digits_iff(ds);
    assert(crate::docscan::all_digits(ds));
}

/// The per-function grants a stored workflow code is run with: with no
/// explicit grants recorded, a bare fallback grant under the first listed
/// plugin function id; else one wildcard grant aggregating every recorded
/// permission, handed out as both the required baseline and the allowed
/// set.
pub open spec fn spec_build_core_permissions(code: SpecWorkflowCode) -> (
    Option<SpecGrant>,
    Option<SpecGrant>,
)
{
    if code.allowed_permissions.len() == 0 {
        if code.plugin_function_ids.len() > 0 {
            let g = SpecGrant {
                function_id: code.plugin_function_ids[0],
                granted: Seq::empty(),
            };
            (Some(g), Some(g))
        } else {
            (None, None)
        }
    } else {
        let g = SpecGrant {
            function_id: "*"@,
            granted: flatten_granted(code.allowed_permissions),
        };
        (Some(g), Some(g))
    }
}

/// Every permission of every grant, in order.
pub open spec fn flatten_granted(gs: Seq<SpecGrant>) -> Seq<SpecPermission>
    decreases gs.len(),
{
    if gs.len() == 0 {
        Seq::empty()
    } else {
        gs[0].granted + flatten_granted(gs.drop_first())
    }
}

/// Builds the grant pair a stored workflow code is run with.
pub fn build_core_permissions(code: &WorkflowCode) -> (r: (
    Option<FunctionPermissionGrant>,
    Option<FunctionPermissionGrant>,
))
    ensures
        ({
            let spec = spec_build_core_permissions(code@);
            &&& match r.0 {
                Some(g) => spec.0 == Some(g@),
                None => spec.0 is None,
            }
            &&& match r.1 {
                Some(g) => spec.1 == Some(g@),
                None => spec.1 is None,
            }
        }),
{
    if code.allowed_permissions.len() == 0 {
        if code.plugin_function_ids.len() > 0 {
            proof {
                assert(code@.plugin_function_ids[0] == code.plugin_function_ids@[0]@);
            }
            let g1 = FunctionPermissionGrant {
                function_id: code.plugin_function_ids[0].clone(),
                granted: PermissionSet::empty(),
            };
            let g2 = FunctionPermissionGrant {
                function_id: code.plugin_function_ids[0].clone(),
                granted: PermissionSet::empty(),
            };
            (Some(g1), Some(g2))
        } else {
            (None, None)
        }
    } else {
        let ghost gs = code.allowed_permissions.deep_view();
        proof {
            assert(gs.skip(0) =~= gs);
        }
        let mut all: Vec<Permission> = Vec::new();
        let mut i: usize = 0;
        proof {
            assert(all@.map_values(|p: Permission| p@) =~= Seq::<SpecPermission>::empty());
            assert(Seq::<SpecPermission>::empty() + flatten_granted(gs) =~= flatten_granted(gs));
        }
        while i < code.allowed_permissions.len()
            invariant
                i <= code.allowed_permissions@.len(),
                gs == code.allowed_permissions.deep_view(),
                flatten_granted(gs) == all@.map_values(|p: Permission| p@) + flatten_granted(
                    gs.skip(i as int),
                ),
            decreases code.allowed_permissions@.len() - i,
        {
            proof {
                assert(gs.skip(i as int)[0] == gs[i as int]);
                assert(gs[i as int] == code.allowed_permissions@[i as int]@);
                assert(gs.skip(i as int).drop_first() =~= gs.skip(i as int + 1));
            }
            let ghost a0 = all@.map_values(|p: Permission| p@);
            let inner = &code.allowed_permissions[i].granted;
            let mut j: usize = 0;
            while j < inner.permissions.len()
                invariant
                    j <= inner.permissions@.len(),
                    all@.map_values(|p: Permission| p@) =~= a0 + inner@.take(j as int),
                decreases inner.permissions@.len() - j,
            {
                let ghost b0 = all@.map_values(|p: Permission| p@);
                all.push(inner.permissions[j].duplicate());
                proof {
                    assert(all@.map_values(|p: Permission| p@) =~= b0.push(inner@[j as int]));
                    assert(a0 + inner@.take(j as int + 1) =~= (a0 + inner@.take(j as int)).push(
                        inner@[j as int],
                    ));
                }
                j = j + 1;
            }
            proof {
                assert(inner@.take(inner.permissions@.len() as int) =~= inner@);
                assert(a0 + (gs[i as int].granted + flatten_granted(gs.skip(i as int + 1))) =~= (a0
                    + gs[i as int].granted) + flatten_granted(gs.skip(i as int + 1)));
            }
            i = i + 1;
        }
        proof {
            assert(gs.skip(code.allowed_permissions@.len() as int).len() == 0);
            assert(all@.map_values(|p: Permission| p@) + flatten_granted(
                gs.skip(code.allowed_permissions@.len() as int),
            ) =~= all@.map_values(|p: Permission| p@));
        }
        let set1 = PermissionSet { permissions: all };
        let set2 = set1.duplicate();
        let g1 = FunctionPermissionGrant { function_id: String::from_str("*"), granted: set1 };
        let g2 = FunctionPermissionGrant { function_id: String::from_str("*"), granted: set2 };
        (Some(g1), Some(g2))
    }
}

/// The all-covering grant set debug workflows run with: one wildcard
/// grant whose single permission is unconstrained in kind and level and
/// scoped to every resource.
pub fn create_all_permissions() -> (r: Vec<FunctionPermissionGrant>)
    ensures
        r.deep_view().len() == 1,
        r.deep_view()[0].function_id == "*"@,
        r.deep_view()[0].granted.len() == 1,
        r.deep_view()[0].granted[0].kind == PermissionKind::Unspecified,
        r.deep_view()[0].granted[0].level == PermissionLevel::Unspecified,
        r.deep_view()[0].granted[0].resource == seq!["*"@],
{
    let mut resource: Vec<String> = Vec::new();
    resource.push(String::from_str("*"));
    let p = Permission {
        display_name: String::from_str("All Permissions"),
        description: String::from_str(
            "Full access for debug workflows - allows all operations",
        ),
        kind: PermissionKind::Unspecified,
        level: PermissionLevel::Unspecified,
        resource,
    };
    proof {
        assert(p.resource.deep_view() =~= seq!["*"@]);
    }
    let mut permissions: Vec<Permission> = Vec::new();
    permissions.push(p);
    let g = FunctionPermissionGrant {
        function_id: String::from_str("*"),
        granted: PermissionSet { permissions },
    };
    proof {
        assert(g.granted@ =~= seq![g.granted.permissions@[0]@]);
    }
    let mut r: Vec<FunctionPermissionGrant> = Vec::new();
    r.push(g);
    proof {
        assert(r.deep_view() =~= seq![r@[0]@]);
    }
    r
}

/// Revisions never decrease along the sequence.
pub open spec fn results_sorted(s: Seq<SpecWorkflowResult>) -> bool {
    forall|i: int, j: int| 0 <= i < j < s.len() ==> (#[trigger] s[i]).revision <= (
    #[trigger] s[j]).revision
}

/// One record placed into an already processed sequence: behind every
/// record of an equal or lower revision, before every strictly higher
/// one, keeping the order of equal revisions.
pub open spec fn spec_ins(
    sorted: Seq<SpecWorkflowResult>,
    x: SpecWorkflowResult,
) -> Seq<SpecWorkflowResult>
    decreases sorted.len(),
{
    if sorted.len() == 0 {
        seq![x]
    } else if sorted.last().revision <= x.revision {
        sorted.push(x)
    } else {
        spec_ins(sorted.drop_last(), x).push(sorted.last())
    }
}

/// The records ordered by revision, stably.
pub open spec fn spec_sort_by_revision(s: Seq<SpecWorkflowResult>) -> Seq<SpecWorkflowResult>
    decreases s.len(),
{
    if s.len() == 0 {
        Seq::empty()
    } else {
        spec_ins(spec_sort_by_revision(s.drop_last()), s.last())
    }
}

/// The records from `i` on with runs of one id collapsed onto their
/// first record; `prev_id` is the id most recently kept.
pub open spec fn dedup_from(
    s: Seq<SpecWorkflowResult>,
    i: int,
    prev_id: Seq<char>,
) -> Seq<SpecWorkflowResult>
    decreases s.len() - i,
{
    if i < 0 || i >= s.len() {
        Seq::empty()
    } else if s[i].id == prev_id {
        dedup_from(s, i + 1, prev_id)
    } else {
        seq![s[i]] + dedup_from(s, i + 1, s[i].id)
    }
}

/// The records with adjacent same-id runs collapsed onto their first
/// record.
pub open spec fn spec_dedup_by_id(s: Seq<SpecWorkflowResult>) -> Seq<SpecWorkflowResult> {
    if s.len() == 0 {
        Seq::empty()
    } else {
        seq![s[0]] + dedup_from(s, 1, s[0].id)
    }
}

/// What merging result records answers: old and new together, ordered
/// stably by revision, with adjacent same-id records collapsed.
pub open spec fn spec_merge_results(
    old: Seq<SpecWorkflowResult>,
    new: Seq<SpecWorkflowResult>,
) -> Seq<SpecWorkflowResult> {
    spec_dedup_by_id(spec_sort_by_revision(old + new))
}

/// Where an insertion lands: splitting a sorted sequence at the first
/// position whose revision is strictly higher places the record there.
proof fn lemma_ins_at(sorted: Seq<SpecWorkflowResult>, x: SpecWorkflowResult, j: int)
    requires
        results_sorted(sorted),
        0 <= j <= sorted.len(),
        forall|m: int| j <= m < sorted.len() ==> (#[trigger] sorted[m]).revision > x.revision,
        j > 0 ==> sorted[j - 1].revision <= x.revision,
    ensures
        spec_ins(sorted, x) == sorted.take(j) + seq![x] + sorted.skip(j),
    decreases sorted.len(),
{
    if sorted.len() == 0 {
        assert(spec_ins(sorted, x) =~= sorted.take(j) + seq![x] + sorted.skip(j));
    } else if j == sorted.len() {
        assert(sorted.last().revision <= x.revision);
        assert(sorted.push(x) =~= sorted.take(j) + seq![x] + sorted.skip(j));
    } else {
        assert(sorted[sorted.len() - 1].revision > x.revision);
        assert(sorted.last().revision > x.revision);
        let pre = sorted.drop_last();
        assert(results_sorted(pre)) by {
            assert(forall|a: int, b: int| 0 <= a < b < pre.len() ==> pre[a] == sorted[a] && pre[b]
                == sorted[b]);
        }
        assert(forall|m: int| j <= m < pre.len() ==> (#[trigger] pre[m]).revision > x.revision)
            by {
            assert(forall|m: int| 0 <= m < pre.len() ==> pre[m] == sorted[m]);
        }
        if j > 0 {
            assert(pre[j - 1] == sorted[j - 1]);
        }
        lemma_ins_at(pre, x, j);
        assert(spec_ins(pre, x).push(sorted.last()) =~= sorted.take(j) + seq![x] + sorted.skip(
            j,
        ));
    }
}

/// Merges freshly produced result records into the recorded ones: the
/// union ordered stably by revision, adjacent records of one id
/// collapsed onto the first.  The answer's revisions never decrease.
pub fn merge_workflow_results(
    old_results: &Vec<WorkflowResult>,
    new_results: &Vec<WorkflowResult>,
) -> (r: Vec<WorkflowResult>)
    ensures
        r.deep_view() == spec_merge_results(old_results.deep_view(), new_results.deep_view()),
        results_sorted(spec_sort_by_revision(old_results.deep_view() + new_results.deep_view())),
{
    let ghost all = old_results.deep_view() + new_results.deep_view();
    let mut combined: Vec<WorkflowResult> = duplicate_results(old_results);
    let mut i: usize = 0;
    while i < new_results.len()
        invariant
            i <= new_results@.len(),
            combined.deep_view() =~= old_results.deep_view() + new_results.deep_view().take(
                i as int,
            ),
        decreases new_results@.len() - i,
    {
        let ghost c0 = combined.deep_view();
        combined.push(new_results[i].duplicate());
        proof {
            assert(combined.deep_view() =~= c0.push(new_results.deep_view()[i as int]));
            assert(combined.deep_view() =~= old_results.deep_view()
                + new_results.deep_view().take(i as int + 1));
        }
        i = i + 1;
    }
    proof {
        assert(new_results.deep_view().take(new_results@.len() as int) =~= new_results.deep_view());
        assert(combined.deep_view() =~= all);
    }
    let mut sorted: Vec<WorkflowResult> = Vec::new();
    let mut k: usize = 0;
    proof {
        assert(sorted.deep_view() =~= Seq::<SpecWorkflowResult>::empty());
        assert(all.take(0) =~= Seq::<SpecWorkflowResult>::empty());
        assert(sorted.deep_view() =~= spec_sort_by_revision(all.take(0)));
    }
    while k < combined.len()
        invariant
            k <= combined@.len(),
            combined.deep_view() == all,
            sorted.deep_view() == spec_sort_by_revision(all.take(k as int)),
            results_sorted(sorted.deep_view()),
        decreases combined@.len() - k,
    {
        let x = combined[k].duplicate();
        let ghost s0 = sorted.deep_view();
        let ghost xv = combined.deep_view()[k as int];
        let mut j: usize = sorted.len();
        while j > 0 && sorted[j - 1].revision > x.revision
            invariant
                j <= sorted@.len(),
                s0 == sorted.deep_view(),
                xv == x@,
                forall|m: int| j <= m < s0.len() ==> (#[trigger] s0[m]).revision > xv.revision,
            decreases j,
        {
            proof {
                assert(s0[j - 1] == sorted@[j - 1]@);
            }
            j = j - 1;
        }
        proof {
            if j > 0 {
                assert(s0[j - 1] == sorted@[j - 1]@);
            }
            lemma_ins_at(s0, xv, j as int);
        }
        sorted.insert(j, x);
        proof {
            assert(sorted.deep_view() =~= s0.take(j as int) + seq![xv] + s0.skip(j as int));
            assert(all.take(k as int + 1).drop_last() =~= all.take(k as int));
            assert(all.take(k as int + 1).last() == xv);
            assert(sorted.deep_view() == spec_ins(s0, xv));
            assert(sorted.deep_view() == spec_sort_by_revision(all.take(k as int + 1)));
            assert forall|a: int, b: int|
                0 <= a < b < sorted.deep_view().len() implies (
            #[trigger] sorted.deep_view()[a]).revision <= (
            #[trigger] sorted.deep_view()[b]).revision by {
                let sd = sorted.deep_view();
                if a < j && b < j {
                    assert(sd[a] == s0[a] && sd[b] == s0[b]);
                } else if a < j && b == j {
                    assert(sd[a] == s0[a] && sd[b] == xv);
                    assert(s0[a].revision <= s0[j - 1].revision);
                } else if a < j && b > j {
                    assert(sd[a] == s0[a] && sd[b] == s0[b - 1]);
                } else if a == j && b > j {
                    assert(sd[a] == xv && sd[b] == s0[b - 1]);
                } else if a > j && b > j {
                    assert(sd[a] == s0[a - 1] && sd[b] == s0[b - 1]);
                }
            }
        }
        k = k + 1;
    }
    proof {
        assert(all.take(combined@.len() as int) =~= all);
    }
    let mut out: Vec<WorkflowResult> = Vec::new();
    if sorted.len() == 0 {
        proof {
            assert(out.deep_view() =~= spec_merge_results(
                old_results.deep_view(),
                new_results.deep_view(),
            ));
        }
        return out;
    }
    let ghost sv = sorted.deep_view();
    out.push(sorted[0].duplicate());
    let mut last_kept: usize = 0;
    let mut m: usize = 1;
    proof {
        assert(out.deep_view() =~= seq![sv[0]]);
        assert(seq![sv[0]] + dedup_from(sv, 1, sv[0].id) =~= spec_dedup_by_id(sv));
    }
    while m < sorted.len()
        invariant
            1 <= m <= sorted@.len(),
            last_kept < m,
            sv == sorted.deep_view(),
            sv.len() > 0,
            spec_dedup_by_id(sv) == out.deep_view() + dedup_from(
                sv,
                m as int,
                sv[last_kept as int].id,
            ),
            out.deep_view().len() > 0,
            out.deep_view().last() == sv[last_kept as int],
        decreases sorted@.len() - m,
    {
        proof {
            assert(sv[m as int] == sorted@[m as int]@);
            assert(sv[last_kept as int] == sorted@[last_kept as int]@);
        }
        if !crate::text::str_eq(sorted[m].id.as_str(), sorted[last_kept].id.as_str()) {
            let ghost o0 = out.deep_view();
            out.push(sorted[m].duplicate());
            proof {
                assert(out.deep_view() =~= o0.push(sv[m as int]));
                assert(o0 + (seq![sv[m as int]] + dedup_from(sv, m as int + 1, sv[m as int].id))
                    =~= out.deep_view() + dedup_from(sv, m as int + 1, sv[m as int].id));
            }
            last_kept = m;
        }
        m = m + 1;
    }
    proof {
        assert(dedup_from(sv, sorted@.len() as int, sv[last_kept as int].id)
            =~= Seq::<SpecWorkflowResult>::empty());
        assert(out.deep_view() + Seq::<SpecWorkflowResult>::empty() =~= out.deep_view());
    }
    out
}

/// One script found in the debug workflow directory.
#[derive(Debug, Clone)]
pub struct DebugWorkflowFile {
    pub name: String,
    pub path: String,
    pub code: String,
}

} // verus!
