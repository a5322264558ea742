use crate::abi::Abi;
use crate::abi::AbiError;
use crate::abi::FieldElement;
use crate::abi::InputValue;
use crate::abi::SchemaError;
use crate::abi::public_params;
use crate::abi::public_return;
use crate::abi::spec_encode;
use crate::hex::ProofError;
use crate::hex::decode_proof_hex;
use crate::hex::decoded_bytes;
use crate::hex::well_formed_hex;
use vstd::prelude::*;

verus! {

/// Which build targets of the workspace one run processes: a single
/// named target, the default target if the workspace declares one and
/// otherwise every target, or every target.
#[derive(Debug, PartialEq, Eq)]
pub enum PackageSelection {
    Selected(String),
    DefaultOrAll,
    All,
}

/// The selection the caller's flags ask for.  Naming a target and
/// asking for the whole workspace are mutually exclusive; the caller
/// rules the combination out before the pipeline begins.
pub fn select_packages(package: Option<String>, all_workspace: bool) -> (s: PackageSelection)
    requires
        package is Some ==> !all_workspace,
    ensures
        (match package {
            Some(name) => s == PackageSelection::Selected(name),
            None => s == (if all_workspace {
                PackageSelection::All
            } else {
                PackageSelection::DefaultOrAll
            }),
        }),
{
    match package {
        Some(name) => PackageSelection::Selected(name),
        None => if all_workspace {
            PackageSelection::All
        } else {
            PackageSelection::DefaultOrAll
        },
    }
}

/// The three artifacts materialized per target, in their stable
/// reporting order: the proof re-expressed as field elements, the
/// hash binding them to a verification key, and the verification key
/// re-expressed as field elements.
#[derive(Debug, PartialEq, Eq)]
pub struct ArtifactTriple {
    pub proof_as_fields: Vec<FieldElement>,
    pub verification_key_hash: FieldElement,
    pub verification_key_as_fields: Vec<FieldElement>,
}

/// Why one target's pipeline stopped.  Fatal for that target alone:
/// the run goes on to the remaining targets.
#[derive(Debug, PartialEq, Eq)]
pub enum TargetError {
    /// The compiler failed on this target.
    Compile { message: String },
    /// The compiler handed over a malformed schema.
    Schema(SchemaError),
    /// The verifier input file could not be read or parsed.
    InputFile { message: String },
    /// The named values do not satisfy the public view.
    Encoding(AbiError),
    /// The proof file was absent, or its content was not valid hex.
    Proof(ProofError),
    /// The backend failed to materialize the artifacts; its message
    /// is passed through verbatim.
    Backend { message: String },
}

/// Where one target stands in its pipeline.  Each non-final state
/// names the outside work the surrounding program does next; the data
/// a later stage needs rides along.
#[derive(Debug, PartialEq, Eq)]
pub enum TargetState {
    /// Ask the compiler for the target's program and schema.
    Compiling,
    /// Read the verifier input file against this public view.
    ReadingInputs { public_abi: Abi },
    /// Read the target's proof file.
    LoadingProof { public_inputs: Vec<FieldElement> },
    /// Ask the backend to materialize the artifacts from the circuit,
    /// these raw proof bytes and these encoded public inputs.
    Materializing { public_inputs: Vec<FieldElement>, proof: Vec<u8> },
    /// Report the outcome for this target.
    Done(Result<ArtifactTriple, TargetError>),
}

/// What the outside work of the current stage handed back.
#[derive(Debug, PartialEq, Eq)]
pub enum TargetEvent {
    /// The compiler produced the target's schema.
    Compiled(Abi),
    /// The verifier input file yielded named values and, possibly, a
    /// return value.
    InputsRead(Vec<(String, InputValue)>, Option<InputValue>),
    /// The text of the target's proof file.
    ProofFileRead(Vec<u8>),
    /// The target's proof file does not exist.
    ProofFileMissing,
    /// The backend produced the target's three artifacts.
    Materialized(ArtifactTriple),
    /// The stage's collaborator failed, with its own message.
    StageFailed(String),
}

/// Which events the outside work can answer each state with.
pub open spec fn event_fits(state: TargetState, event: TargetEvent) -> bool {
    match state {
        TargetState::Compiling => event is Compiled || event is StageFailed,
        TargetState::ReadingInputs { .. } => event is InputsRead || event is StageFailed,
        TargetState::LoadingProof { .. } => event is ProofFileRead || event is ProofFileMissing,
        TargetState::Materializing { .. } => event is Materialized || event is StageFailed,
        TargetState::Done(_) => false,
    }
}

/// Advances one target's pipeline by one stage.  The four stages run
/// strictly in sequence; a failure in any stage ends the pipeline for
/// this target with that stage's error and no partial artifact.
pub fn target_step(state: TargetState, event: TargetEvent) -> (next: TargetState)
    requires
        event_fits(state, event),
    ensures
        state is Compiling ==> {
            &&& event matches TargetEvent::Compiled(abi) ==> {
                &&& abi.well_formed() ==> (next matches TargetState::ReadingInputs { public_abi }
                    && public_abi.parameters@ == public_params(abi.parameters@)
                    && public_abi.return_type == public_return(abi.return_type))
                &&& !abi.well_formed() ==> (next matches TargetState::Done(r)
                    && r matches Err(TargetError::Schema(SchemaError::DuplicateParameter { name }))
                    && (exists|i: int, j: int|
                        0 <= i < j < abi.parameters@.len() && abi.parameters@[i].name@
                            == abi.parameters@[j].name@ && name@ == abi.parameters@[j].name@))
            }
            &&& event matches TargetEvent::StageFailed(message) ==> next == TargetState::Done(
                Err::<ArtifactTriple, TargetError>(TargetError::Compile { message }),
            )
        },
        state matches TargetState::ReadingInputs { public_abi } ==> {
            &&& event matches TargetEvent::InputsRead(entries, return_value) ==> (match spec_encode(
                public_abi,
                entries@,
                return_value,
            ) {
                Ok(fields) => next matches TargetState::LoadingProof { public_inputs }
                    && public_inputs@ == fields,
                Err(e) => next == TargetState::Done(
                    Err::<ArtifactTriple, TargetError>(TargetError::Encoding(e)),
                ),
            })
            &&& event matches TargetEvent::StageFailed(message) ==> next == TargetState::Done(
                Err::<ArtifactTriple, TargetError>(TargetError::InputFile { message }),
            )
        },
        state matches TargetState::LoadingProof { public_inputs } ==> {
            &&& event matches TargetEvent::ProofFileRead(text) ==> {
                &&& well_formed_hex(text@) ==> (next matches TargetState::Materializing {
                    public_inputs: pi,
                    proof: raw,
                } && pi == public_inputs && raw@ == decoded_bytes(text@))
                &&& !well_formed_hex(text@) ==> next == TargetState::Done(
                    Err::<ArtifactTriple, TargetError>(TargetError::Proof(ProofError::Decode)),
                )
            }
            &&& event is ProofFileMissing ==> next == TargetState::Done(
                Err::<ArtifactTriple, TargetError>(TargetError::Proof(ProofError::NotFound)),
            )
        },
        state matches TargetState::Materializing { .. } ==> {
            &&& event matches TargetEvent::Materialized(triple) ==> next == TargetState::Done(
                Ok::<ArtifactTriple, TargetError>(triple),
            )
            &&& event matches TargetEvent::StageFailed(message) ==> next == TargetState::Done(
                Err::<ArtifactTriple, TargetError>(TargetError::Backend { message }),
            )
        },
{
    match (state, event) {
        (TargetState::Compiling, TargetEvent::Compiled(abi)) => match abi.public_abi() {
            Ok(view) => TargetState::ReadingInputs { public_abi: view },
            Err(e) => TargetState::Done(Err(TargetError::Schema(e))),
        },
        (TargetState::Compiling, TargetEvent::StageFailed(message)) => TargetState::Done(
            Err(TargetError::Compile { message }),
        ),
        (
            TargetState::ReadingInputs { public_abi },
            TargetEvent::InputsRead(entries, return_value),
        ) => match public_abi.encode(&entries, return_value) {
            Ok(fields) => TargetState::LoadingProof { public_inputs: fields },
            Err(e) => TargetState::Done(Err(TargetError::Encoding(e))),
        },
        (TargetState::ReadingInputs { .. }, TargetEvent::StageFailed(message)) => TargetState::Done(
            Err(TargetError::InputFile { message }),
        ),
        (TargetState::LoadingProof { public_inputs }, TargetEvent::ProofFileRead(text)) => match decode_proof_hex(
            text.as_slice(),
        ) {
            Ok(raw) => TargetState::Materializing { public_inputs, proof: raw },
            Err(_) => TargetState::Done(Err(TargetError::Proof(ProofError::Decode))),
        },
        (TargetState::LoadingProof { .. }, TargetEvent::ProofFileMissing) => TargetState::Done(
            Err(TargetError::Proof(ProofError::NotFound)),
        ),
        (TargetState::Materializing { .. }, TargetEvent::Materialized(triple)) => TargetState::Done(
            Ok(triple),
        ),
        (TargetState::Materializing { .. }, TargetEvent::StageFailed(message)) => TargetState::Done(
            Err(TargetError::Backend { message }),
        ),
        _ => {
            proof {
                assert(false);
            }
            TargetState::Compiling
        },
    }
}

/// Whether a finished run succeeded: every target of the run reported
/// an artifact triple.  A failed target never hides the others'
/// results; the run as a whole fails exactly when some target did.
pub fn run_succeeded(results: &Vec<Result<ArtifactTriple, TargetError>>) -> (ok: bool)
    ensures
        ok <==> (forall|i: int| 0 <= i < results@.len() ==> results@[i] is Ok),
{
    let mut i: usize = 0;
    while i < results.len()
        invariant
            i <= results@.len(),
            forall|j: int| 0 <= j < i ==> results@[j] is Ok,
        decreases results@.len() - i,
    {
        match &results[i] {
            Ok(_) => {},
            Err(_) => {
                return false;
            },
        }
        i = i + 1;
    }
    true
}

} // verus!
