//! Dispatch planning and probe judgment. The plan for one run is the
//! full list of payloads to fire: `repeat` fresh iterations of the
//! mutation set, every probe independent. Judging a finished probe turns
//! what came back from the wire into a judgment: received bytes are
//! decoded and analyzed, a timeout is a positive signal on its own, and
//! transport failures count for nothing. Opening connections,
//! writing payloads and reading with a timeout are the caller's side.

use vstd::prelude::*;
use crate::payloads::Mutation;
use crate::payloads::is_cl_te_mutation;
use crate::payloads::is_te_cl_mutation;
use crate::response::Response;
use crate::response::spec_decode;
use crate::response::spec_reasons;
use crate::response::spec_is_smuggling;

verus! {

/// What the outside world reported back for one probe.
pub enum ProbeEvent {
    /// The read finished before the timeout, with these raw bytes.
    ResponseBytes(Vec<u8>),
    /// The time budget elapsed with no end of stream.
    TimedOut,
    /// The read failed mid-stream.
    ReadFailed,
    /// The connection or handshake failed before anything was written.
    ConnectFailed,
}

/// What one probe contributes to the run.
pub enum ProbeOutcome {
    /// A positive finding, with the analyzer's reasons.
    Finding(Vec<String>),
    /// A decoded response with nothing suspicious in it.
    Clean,
    /// No end of stream within the budget: itself a positive signal.
    TimeoutSignal,
    /// A transport failure: reported to the operator, nothing decided.
    SoftFailure,
}

/// Turns one probe event into its outcome.
pub fn judge_probe(event: ProbeEvent) -> (r: ProbeOutcome)
    ensures
        match event {
            ProbeEvent::ResponseBytes(bytes) => {
                if spec_is_smuggling(spec_decode(bytes@)) {
                    r matches ProbeOutcome::Finding(reasons) && reasons@.map_values(|s: String| s@)
                        == spec_reasons(spec_decode(bytes@))
                } else {
                    r == ProbeOutcome::Clean
                }
            },
            ProbeEvent::TimedOut => r == ProbeOutcome::TimeoutSignal,
            ProbeEvent::ReadFailed => r == ProbeOutcome::SoftFailure,
            ProbeEvent::ConnectFailed => r == ProbeOutcome::SoftFailure,
        },
{
    match event {
        ProbeEvent::ResponseBytes(bytes) => {
            let parse_response = Response::from(bytes);
            let (is_smuggling, info) = parse_response.analyze_smuggling();
            if is_smuggling {
                ProbeOutcome::Finding(info)
            } else {
                ProbeOutcome::Clean
            }
        },
        ProbeEvent::TimedOut => ProbeOutcome::TimeoutSignal,
        ProbeEvent::ReadFailed => ProbeOutcome::SoftFailure,
        ProbeEvent::ConnectFailed => ProbeOutcome::SoftFailure,
    }
}

/// The payloads of one whole run: `repeat` fresh iterations of the
/// mutation set, two templates each, CL.TE before TE.CL. The total probe
/// count is exactly `repeat` times the size of the mutation set.
pub fn plan_probes(method: &String, host: &String, path: &String, repeat: usize) -> (r: Vec<
    Mutation,
>)
    requires
        repeat <= usize::MAX / 2,
    ensures
        r@.len() == repeat * 2,
        forall|k: int|
            0 <= k < r@.len() && k % 2 == 0 ==> is_cl_te_mutation(
                #[trigger] r@[k],
                method@,
                host@,
                path@,
            ),
        forall|k: int|
            0 <= k < r@.len() && k % 2 == 1 ==> is_te_cl_mutation(
                #[trigger] r@[k],
                method@,
                host@,
                path@,
            ),
{
    let mut out: Vec<Mutation> = Vec::new();
    let mut it: usize = 0;
    while it < repeat
        invariant
            it <= repeat,
            repeat <= usize::MAX / 2,
            out@.len() == it * 2,
            forall|k: int|
                0 <= k < out@.len() && k % 2 == 0 ==> is_cl_te_mutation(
                    #[trigger] out@[k],
                    method@,
                    host@,
                    path@,
                ),
            forall|k: int|
                0 <= k < out@.len() && k % 2 == 1 ==> is_te_cl_mutation(
                    #[trigger] out@[k],
                    method@,
                    host@,
                    path@,
                ),
        decreases repeat - it,
    {
        let mut ms = Mutation::new_default_mutation(method, host, path);
        let second = ms.pop().unwrap();
        let first = ms.pop().unwrap();
        out.push(first);
        out.push(second);
        it = it + 1;
    }
    out
}

} // verus!
