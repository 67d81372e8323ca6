//! The per-run sandbox state machine.
//!
//! A run owns one isolated script-engine instance; the engine itself lives
//! outside this library, which keeps the run's state and makes every
//! decision: what a host call may reach, and what result record a finished
//! run appends.  A run walks `Constructed -> Primed -> Executing ->
//! Completed | Failed` and appends exactly one result per run, whose
//! revision is one above the highest revision recorded for the same
//! workflow code.

use crate::capability::{CapabilityFunction, CapabilityPackage, SpecCapabilityPackage};
use crate::errors::{SpecWorkflowError, WorkflowError};
use crate::permission::{
    check_permission, effective_grant, spec_effective_grant, spec_first_unmet, spec_satisfied,
    CheckPermissionResult, FunctionPermissionGrant, SpecGrant,
};
use vstd::prelude::*;

verus! {

/// The states of one run, in order; the last two are terminal.
#[derive(Clone, Copy, PartialEq, Eq, Structural, Debug)]
pub enum RunState {
    Constructed,
    Primed,
    Executing,
    Completed,
    Failed,
}

/// How a run ended.
#[derive(Clone, Copy, PartialEq, Eq, Structural, Debug)]
pub enum WorkflowResultType {
    Unspecified,
    Success,
    Failure,
}

/// One revisioned result record of a workflow code.
#[derive(Debug)]
pub struct WorkflowResult {
    pub id: String,
    /// The run's output, or the error text of a failed run.
    pub result: String,
    /// Seconds since the epoch, handed in by the caller's clock.
    pub ran_at: i64,
    pub result_type: WorkflowResultType,
    pub exit_code: i32,
    pub revision: u64,
}

/// The mathematical value of a [`WorkflowResult`].
#[verifier::ext_equal]
pub ghost struct SpecWorkflowResult {
    pub id: Seq<char>,
    pub result: Seq<char>,
    pub ran_at: i64,
    pub result_type: WorkflowResultType,
    pub exit_code: i32,
    pub revision: u64,
}

impl View for WorkflowResult {
    type V = SpecWorkflowResult;

    open spec fn view(&self) -> SpecWorkflowResult {
        SpecWorkflowResult {
            id: self.id@,
            result: self.result@,
            ran_at: self.ran_at,
            result_type: self.result_type,
            exit_code: self.exit_code,
            revision: self.revision,
        }
    }
}

impl DeepView for WorkflowResult {
    type V = SpecWorkflowResult;

    open spec fn deep_view(&self) -> SpecWorkflowResult {
        self@
    }
}

/// The highest revision among the records, or zero.
pub open spec fn spec_max_revision(results: Seq<SpecWorkflowResult>) -> u64
    decreases results.len(),
{
    if results.len() == 0 {
        0
    } else {
        let rest = spec_max_revision(results.drop_first());
        if results[0].revision >= rest {
            results[0].revision
        } else {
            rest
        }
    }
}

/// Every recorded revision is at most the maximum.
pub proof fn lemma_max_revision_bound(results: Seq<SpecWorkflowResult>)
    ensures
        forall|i: int| 0 <= i < results.len() ==> (#[trigger] results[i]).revision
            <= spec_max_revision(results),
    decreases results.len(),
{
    if results.len() > 0 {
        lemma_max_revision_bound(results.drop_first());
        assert forall|i: int| 0 <= i < results.len() implies (#[trigger] results[i]).revision
            <= spec_max_revision(results) by {
            if i > 0 {
                assert(results.drop_first()[i - 1] == results[i]);
            }
        }
    }
}

/// Revision monotonicity: a result appended at one above the current
/// maximum carries a revision strictly above every revision already
/// recorded, so repeated runs never reuse or decrease a revision.
pub proof fn lemma_revision_monotonic(results: Seq<SpecWorkflowResult>, appended: SpecWorkflowResult)
    requires
        spec_max_revision(results) < u64::MAX,
        appended.revision == spec_max_revision(results) + 1,
    ensures
        forall|i: int| 0 <= i < results.len() ==> (#[trigger] results[i]).revision
            < appended.revision,
{
    lemma_max_revision_bound(results);
}

impl WorkflowResult {
    /// A field-for-field copy whose mathematical value is unchanged.
    pub fn duplicate(&self) -> (r: WorkflowResult)
        ensures
            r@ == self@,
    {
        WorkflowResult {
            id: self.id.clone(),
            result: self.result.clone(),
            ran_at: self.ran_at,
            result_type: self.result_type,
            exit_code: self.exit_code,
            revision: self.revision,
        }
    }
}

/// An element-for-element copy whose mathematical value is unchanged.
pub fn duplicate_results(results: &Vec<WorkflowResult>) -> (r: Vec<WorkflowResult>)
    ensures
        r.deep_view() == results.deep_view(),
{
    let mut r: Vec<WorkflowResult> = Vec::new();
    let mut i: usize = 0;
    while i < results.len()
        invariant
            i <= results@.len(),
            r.deep_view().len() == i,
            forall|j: int| 0 <= j < i ==> r.deep_view()[j] == results.deep_view()[j],
        decreases results@.len() - i,
    {
        let ghost r0 = r.deep_view();
        r.push(results[i].duplicate());
        proof {
            assert(r.deep_view() =~= r0.push(results@[i as int]@));
        }
        i = i + 1;
    }
    proof {
        assert(r.deep_view() =~= results.deep_view());
    }
    r
}

/// The highest revision among the records, or zero.
pub fn max_revision(results: &Vec<WorkflowResult>) -> (r: u64)
    ensures
        r == spec_max_revision(results.deep_view()),
{
    let ghost rs = results.deep_view();
    proof {
        assert(rs.skip(0) =~= rs);
    }
    let mut best: u64 = 0;
    let mut i: usize = results.len();
    proof {
        assert(rs.skip(i as int).len() == 0);
    }
    while i > 0
        invariant
            i <= results@.len(),
            rs == results.deep_view(),
            best == spec_max_revision(rs.skip(i as int)),
        decreases i,
    {
        i = i - 1;
        proof {
            assert(rs.skip(i as int)[0] == rs[i as int]);
            assert(rs[i as int] == results@[i as int]@);
            assert(rs.skip(i as int).drop_first() =~= rs.skip(i as int + 1));
        }
        if results[i].revision >= best {
            best = results[i].revision;
        }
    }
    proof {
        assert(rs.skip(0) =~= rs);
    }
    best
}

/// One sandboxed workflow run: the code under execution, its grants, its
/// visible capability set, its state, and the code's result records.
#[derive(Debug)]
pub struct WorkflowRun {
    pub workflow_id: String,
    pub code_id: String,
    pub code_text: String,
    pub code_revision: u64,
    /// Read-only for the run's lifetime.
    pub grants: Vec<FunctionPermissionGrant>,
    /// Read-only for the run's lifetime.
    pub packages: Vec<CapabilityPackage>,
    pub state: RunState,
    /// The result records of this workflow code; each run appends one.
    pub results: Vec<WorkflowResult>,
}

/// The mathematical value of a [`WorkflowRun`].
#[verifier::ext_equal]
pub ghost struct SpecRun {
    pub workflow_id: Seq<char>,
    pub code_id: Seq<char>,
    pub code_text: Seq<char>,
    pub code_revision: u64,
    pub grants: Seq<SpecGrant>,
    pub packages: Seq<SpecCapabilityPackage>,
    pub state: RunState,
    pub results: Seq<SpecWorkflowResult>,
}

impl View for WorkflowRun {
    type V = SpecRun;

    open spec fn view(&self) -> SpecRun {
        SpecRun {
            workflow_id: self.workflow_id@,
            code_id: self.code_id@,
            code_text: self.code_text@,
            code_revision: self.code_revision,
            grants: self.grants.deep_view(),
            packages: self.packages.deep_view(),
            state: self.state,
            results: self.results.deep_view(),
        }
    }
}

impl WorkflowRun {
    /// A freshly constructed run: nothing primed, nothing recorded yet
    /// beyond the code's prior results.
    pub fn new(
        workflow_id: String,
        code_id: String,
        code_text: String,
        code_revision: u64,
        grants: Vec<FunctionPermissionGrant>,
        packages: Vec<CapabilityPackage>,
        results: Vec<WorkflowResult>,
    ) -> (r: WorkflowRun)
        ensures
            r@ == (SpecRun {
                workflow_id: workflow_id@,
                code_id: code_id@,
                code_text: code_text@,
                code_revision,
                grants: grants.deep_view(),
                packages: packages.deep_view(),
                state: RunState::Constructed,
                results: results.deep_view(),
            }),
    {
        WorkflowRun {
            workflow_id,
            code_id,
            code_text,
            code_revision,
            grants,
            packages,
            state: RunState::Constructed,
            results,
        }
    }

    /// Primes the run: a fresh, isolated engine context receives the
    /// resolved capability set and the grants; no state of any earlier run
    /// is reachable.
    pub fn prime(&mut self)
        requires
            old(self)@.state == RunState::Constructed,
        ensures
            final(self)@ == (SpecRun { state: RunState::Primed, ..old(self)@ }),
    {
        self.state = RunState::Primed;
    }

    /// Starts evaluating the workflow's script text.
    pub fn begin_execution(&mut self)
        requires
            old(self)@.state == RunState::Primed,
        ensures
            final(self)@ == (SpecRun { state: RunState::Executing, ..old(self)@ }),
    {
        self.state = RunState::Executing;
    }

    /// Gates one host call: resolves the named capability function against
    /// the run's capability set, then checks the function's required
    /// permission set against the grant that effectively applies to it.
    /// Only a call that passes both is handed out for dispatch.
    pub fn gate_host_call<'a>(&'a self, function_id: &str) -> (r: Result<
        &'a CapabilityFunction,
        WorkflowError,
    >)
        requires
            self@.state == RunState::Executing,
        ensures
            match r {
                Ok(f) => {
                    &&& crate::capability::spec_resolve(self@.packages, function_id@) == Some(f@)
                    &&& spec_satisfied(
                        spec_effective_grant(self@.grants, function_id@),
                        f@.required,
                    )
                },
                Err(e) => match e@ {
                    SpecWorkflowError::CapabilityNotFound(x) => {
                        &&& x == function_id@
                        &&& crate::capability::spec_resolve(self@.packages, function_id@) is None
                    },
                    SpecWorkflowError::PermissionDenied(p) => {
                        &&& crate::capability::spec_resolve(self@.packages, function_id@) is Some
                        &&& !spec_satisfied(
                            spec_effective_grant(self@.grants, function_id@),
                            crate::capability::spec_resolve(
                                self@.packages,
                                function_id@,
                            )->Some_0.required,
                        )
                        &&& spec_first_unmet(
                            spec_effective_grant(self@.grants, function_id@),
                            crate::capability::spec_resolve(
                                self@.packages,
                                function_id@,
                            )->Some_0.required,
                        ) == Some(p)
                    },
                    _ => false,
                },
            },
    {
        match crate::capability::resolve_function(&self.packages, function_id) {
            None => Err(WorkflowError::CapabilityNotFound(String::from_str(function_id))),
            Some(f) => {
                let eff = effective_grant(&self.grants, function_id);
                match check_permission(&eff, &f.required) {
                    CheckPermissionResult::Satisfied => Ok(f),
                    CheckPermissionResult::Missing(p) => Err(WorkflowError::PermissionDenied(p)),
                }
            },
        }
    }

    /// Appends the run's one result record and moves to a terminal state.
    fn record_result(
        &mut self,
        result_id: String,
        text: String,
        ran_at: i64,
        result_type: WorkflowResultType,
        exit_code: i32,
        state: RunState,
    )
        requires
            spec_max_revision(old(self)@.results) < u64::MAX,
        ensures
            final(self)@ == (SpecRun {
                state,
                results: old(self)@.results.push(
                    SpecWorkflowResult {
                        id: result_id@,
                        result: text@,
                        ran_at,
                        result_type,
                        exit_code,
                        revision: (spec_max_revision(old(self)@.results) + 1) as u64,
                    },
                ),
                ..old(self)@
            }),
    {
        let ghost rs0 = self.results.deep_view();
        let revision = max_revision(&self.results) + 1;
        self.results.push(
            WorkflowResult { id: result_id, result: text, ran_at, result_type, exit_code, revision },
        );
        self.state = state;
        proof {
            assert(self.results.deep_view() =~= rs0.push(
                self.results@[rs0.len() as int]@,
            ));
            assert(self@ =~= (SpecRun {
                state,
                results: old(self)@.results.push(self.results@[rs0.len() as int]@),
                ..old(self)@
            }));
        }
    }

    /// Ends a run whose script evaluated to a value: exactly one success
    /// record is appended, at one above the highest recorded revision.
    pub fn complete_run(&mut self, result_id: String, output: String, ran_at: i64)
        requires
            old(self)@.state == RunState::Executing,
            spec_max_revision(old(self)@.results) < u64::MAX,
        ensures
            final(self)@ == (SpecRun {
                state: RunState::Completed,
                results: old(self)@.results.push(
                    SpecWorkflowResult {
                        id: result_id@,
                        result: output@,
                        ran_at,
                        result_type: WorkflowResultType::Success,
                        exit_code: 0,
                        revision: (spec_max_revision(old(self)@.results) + 1) as u64,
                    },
                ),
                ..old(self)@
            }),
            forall|i: int| 0 <= i < old(self)@.results.len() ==> (
            #[trigger] old(self)@.results[i]).revision < final(self)@.results.last().revision,
    {
        proof {
            lemma_max_revision_bound(old(self)@.results);
        }
        self.record_result(
            result_id,
            output,
            ran_at,
            WorkflowResultType::Success,
            0,
            RunState::Completed,
        );
    }

    /// Ends a run whose script failed, a permission denial left uncaught
    /// included: the host process survives, and exactly one failure record
    /// is appended, stamped with the error text and exit code, at one
    /// above the highest recorded revision.
    pub fn fail_run(&mut self, result_id: String, error_text: String, ran_at: i64, exit_code: i32)
        requires
            old(self)@.state == RunState::Executing,
            spec_max_revision(old(self)@.results) < u64::MAX,
        ensures
            final(self)@ == (SpecRun {
                state: RunState::Failed,
                results: old(self)@.results.push(
                    SpecWorkflowResult {
                        id: result_id@,
                        result: error_text@,
                        ran_at,
                        result_type: WorkflowResultType::Failure,
                        exit_code,
                        revision: (spec_max_revision(old(self)@.results) + 1) as u64,
                    },
                ),
                ..old(self)@
            }),
            forall|i: int| 0 <= i < old(self)@.results.len() ==> (
            #[trigger] old(self)@.results[i]).revision < final(self)@.results.last().revision,
    {
        proof {
            lemma_max_revision_bound(old(self)@.results);
        }
        self.record_result(
            result_id,
            error_text,
            ran_at,
            WorkflowResultType::Failure,
            exit_code,
            RunState::Failed,
        );
    }
}

/// The error type of the `unescaper` crate, opaque here.
#[verifier::external_type_specification]
#[verifier::external_body]
pub struct ExUnescaperError(unescaper::Error);

/// What `unescaper::unescape` returns on a text it accepts; the result is
/// a function of the characters alone.
pub uninterp spec fn unescaped_of(s: Seq<char>) -> Seq<char>;

/// Relies on `unescaper::unescape`: expands written-out escape sequences.
/// Its loop copies every character other than `\` through untouched, so a
/// text without `\` comes back unchanged.
#[verifier::external_body]
fn unescape_raw(s: &str) -> (r: Result<String, unescaper::Error>)
    ensures
        r matches Ok(t) ==> t@ == unescaped_of(s@),
        r is Err ==> exists|i: int| 0 <= i < s@.len() && s@[i] == '\\',
        r matches Ok(t) ==> ((forall|i: int| 0 <= i < s@.len() ==> s@[i] != '\\') ==> t@ == s@),
{
    unescaper::unescape(s)
}

/// Prepares stored workflow code for execution: stored code may carry
/// escape sequences written out as literal characters, so it is unescaped
/// when the unescaper accepts it, and used unchanged otherwise.
pub fn prepare_code(code: &str) -> (r: String)
    ensures
        r@ == unescaped_of(code@) || r@ == code@,
        (forall|i: int| 0 <= i < code@.len() ==> code@[i] != '\\') ==> r@ == code@,
{
    match unescape_raw(code) {
        Ok(s) => s,
        Err(_) => String::from_str(code),
    }
}

/// The defense-in-depth check a native callback re-runs before its
/// privileged effect.  It decides exactly as [`WorkflowRun::gate_host_call`]
/// does and from identical inputs, so no call path can reach a different
/// outcome.
pub fn permission_check(
    grants: &Vec<FunctionPermissionGrant>,
    function_id: &str,
    required: &crate::permission::PermissionSet,
) -> (r: Result<(), WorkflowError>)
    ensures
        r is Ok <==> spec_satisfied(
            spec_effective_grant(grants.deep_view(), function_id@),
            required@,
        ),
        match r {
            Ok(_) => true,
            Err(e) => match e@ {
                SpecWorkflowError::PermissionDenied(p) => spec_first_unmet(
                    spec_effective_grant(grants.deep_view(), function_id@),
                    required@,
                ) == Some(p),
                _ => false,
            },
        },
{
    let eff = effective_grant(grants, function_id);
    match check_permission(&eff, required) {
        CheckPermissionResult::Satisfied => Ok(()),
        CheckPermissionResult::Missing(p) => Err(WorkflowError::PermissionDenied(p)),
    }
}

} // verus!
