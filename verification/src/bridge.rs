//! The per-call marshalling protocol into an external bundle.
//!
//! A call names a function and carries named JSON-encoded arguments.  The
//! bundle's own script context performs the call outside this library;
//! here stand the two decisions the protocol makes: whether the named
//! function exists in the bundle at all (an unknown name is
//! `CapabilityNotFound`, never conflated with a failure thrown inside the
//! bundle), and how the engine's outcome is classified (`Ok` with the
//! named results, or `BridgeInvocationFailed` carrying the thrown value's
//! text verbatim).

use crate::capability::{CapabilityPackage, SpecInvocation};
use crate::errors::{SpecWorkflowError, WorkflowError};
use vstd::prelude::*;

verus! {

/// One call into an external bundle: the in-bundle function name and the
/// named arguments, each a JSON-encoded text.
#[derive(Debug)]
pub struct BridgeCall {
    pub func_name: String,
    pub named_args: Vec<(String, String)>,
}

/// What the bundle's execution context reported back.
#[derive(Debug)]
pub enum BridgeOutcome {
    /// The call completed; carries the JSON-encoded named results.
    Returned(String),
    /// The bundle's code threw; carries the thrown value's text.
    Threw(String),
}

/// Whether the package exposes an external function of the given
/// in-bundle name.
pub open spec fn spec_bundle_has_function(
    functions: Seq<crate::capability::SpecCapabilityFunction>,
    name: Seq<char>,
) -> bool {
    exists|i: int|
        0 <= i < functions.len() && (#[trigger] functions[i]).invocation
            == (SpecInvocation::External { func_name: name })
}

/// Locates a call's function inside the package: a name the package does
/// not expose is `CapabilityNotFound`, a distinct error from any failure
/// the bundle itself throws.
pub fn locate_bridge_function(package: &CapabilityPackage, call: &BridgeCall) -> (r: Result<
    (),
    WorkflowError,
>)
    ensures
        r is Ok <==> spec_bundle_has_function(package@.functions, call.func_name@),
        match r {
            Ok(_) => true,
            Err(e) => e@ == SpecWorkflowError::CapabilityNotFound(call.func_name@),
        },
{
    let func_name = call.func_name.as_str();
    let mut i: usize = 0;
    while i < package.functions.len()
        invariant
            i <= package.functions@.len(),
            func_name@ == call.func_name@,
            forall|j: int| 0 <= j < i ==> (#[trigger] package.functions.deep_view()[j]).invocation
                != (SpecInvocation::External { func_name: func_name@ }),
        decreases package.functions@.len() - i,
    {
        proof {
            assert(package.functions.deep_view()[i as int] == package.functions@[i as int]@);
        }
        match &package.functions[i].invocation {
            crate::capability::Invocation::External { func_name: name } => {
                if crate::text::str_eq(name.as_str(), func_name) {
                    proof {
                        assert(package.functions.deep_view()[i as int].invocation
                            == (SpecInvocation::External { func_name: func_name@ }));
                    }
                    return Ok(());
                }
            },
            crate::capability::Invocation::Native => {},
        }
        i = i + 1;
    }
    proof {
        assert(package.functions.deep_view() == package@.functions);
        assert(!spec_bundle_has_function(package@.functions, func_name@));
    }
    Err(WorkflowError::CapabilityNotFound(String::from_str(func_name)))
}

/// Classifies what came back from the bundle's execution context: a
/// completed call hands its named results through, a thrown value becomes
/// `BridgeInvocationFailed` carrying the text verbatim.
pub fn classify_bridge_outcome(outcome: BridgeOutcome) -> (r: Result<String, WorkflowError>)
    ensures
        match outcome {
            BridgeOutcome::Returned(s) => r matches Ok(x) && x@ == s@,
            BridgeOutcome::Threw(t) => r matches Err(e) && e@
                == SpecWorkflowError::BridgeInvocationFailed(t@),
        },
{
    match outcome {
        BridgeOutcome::Returned(s) => Ok(s),
        BridgeOutcome::Threw(t) => Err(WorkflowError::BridgeInvocationFailed(t)),
    }
}

} // verus!
