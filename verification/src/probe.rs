//! Probing a device: what is asked of a driver, what its answers say, and what is made of them.
use vstd::prelude::*;

use crate::pb::{DetailV, ErrorDetail};
use crate::profile::{
    hit_ids, hits, hits_sorted, match_profiles, matches_are_complete, profile_fits, DeviceProfile,
    ProfileMatch,
};
use crate::protocol::PROBE_RPC_MIN_MINOR;
use crate::report::{ProbeReport, ReportV};
use crate::session::{
    detail_of, detail_or_nothing, session_error_text, stage_name, ConnectError, FrameBody,
    SessionError, StartupStage,
};
use crate::temp_op::{is_passing, is_transient_connect};
use crate::text::{cat2, cat3, cat4, cat5, decimal, decimal_text, same_text};
use crate::types::{error_kind_name, ErrorKind};

verus! {

/// Why nothing is known of a device. That it is out of reach is no such reason.
#[derive(Debug, Clone, PartialEq)]
pub enum ProbeError {
    DriverNotFound(String),
    Unsupported(String),
    Spawn(String),
    Handshake { stage: StartupStage, message: String },
    RpcTimeout,
    Rpc(String),
    InvalidInput { code: String, message: String },
    Timeout,
}

/// What a [`ProbeError`] is.
pub enum ProbeFault {
    DriverNotFound(Seq<char>),
    Unsupported(Seq<char>),
    Spawn(Seq<char>),
    Handshake { stage: StartupStage, message: Seq<char> },
    RpcTimeout,
    Rpc(Seq<char>),
    InvalidInput { code: Seq<char>, message: Seq<char> },
    Timeout,
}

impl View for ProbeError {
    type V = ProbeFault;

    open spec fn view(&self) -> ProbeFault {
        match self {
            ProbeError::DriverNotFound(m) => ProbeFault::DriverNotFound(m@),
            ProbeError::Unsupported(m) => ProbeFault::Unsupported(m@),
            ProbeError::Spawn(m) => ProbeFault::Spawn(m@),
            ProbeError::Handshake { stage, message } => ProbeFault::Handshake {
                stage: *stage,
                message: message@,
            },
            ProbeError::RpcTimeout => ProbeFault::RpcTimeout,
            ProbeError::Rpc(m) => ProbeFault::Rpc(m@),
            ProbeError::InvalidInput { code, message } => ProbeFault::InvalidInput {
                code: code@,
                message: message@,
            },
            ProbeError::Timeout => ProbeFault::Timeout,
        }
    }
}

/// How a [`ProbeError`] reads.
pub open spec fn probe_fault_text(e: ProbeFault) -> Seq<char> {
    match e {
        ProbeFault::DriverNotFound(m) => "driver `"@ + m + "` not found"@,
        ProbeFault::Unsupported(m) => "probe unsupported by driver: "@ + m,
        ProbeFault::Spawn(m) => "spawn failed: "@ + m,
        ProbeFault::Handshake { stage, message } => "handshake failed at "@ + stage_name(stage)
            + ": "@ + message,
        ProbeFault::RpcTimeout => "probe rpc timed out"@,
        ProbeFault::Rpc(m) => "probe rpc failed: "@ + m,
        ProbeFault::InvalidInput { code, message } => "invalid probe input "@ + code + ": "@
            + message,
        ProbeFault::Timeout => "probe timed out"@,
    }
}

impl ProbeError {
    pub fn message(&self) -> (r: String)
        ensures
            r@ == probe_fault_text(self@),
    {
        match self {
            ProbeError::DriverNotFound(m) => cat3("driver `", m.as_str(), "` not found"),
            ProbeError::Unsupported(m) => cat2("probe unsupported by driver: ", m.as_str()),
            ProbeError::Spawn(m) => cat2("spawn failed: ", m.as_str()),
            ProbeError::Handshake { stage, message } => cat4(
                "handshake failed at ",
                stage.as_str(),
                ": ",
                message.as_str(),
            ),
            ProbeError::RpcTimeout => "probe rpc timed out".to_owned(),
            ProbeError::Rpc(m) => cat2("probe rpc failed: ", m.as_str()),
            ProbeError::InvalidInput { code, message } => cat4(
                "invalid probe input ",
                code.as_str(),
                ": ",
                message.as_str(),
            ),
            ProbeError::Timeout => "probe timed out".to_owned(),
        }
    }
}

/// What an error of a driver means for a probe, by its code and its kind alone.
pub open spec fn driver_fault(kind: Seq<char>, code: Seq<char>, message: Seq<char>) -> ProbeFault {
    if code == "PROBE_UNSUPPORTED"@ {
        ProbeFault::Unsupported(message)
    } else if kind == error_kind_name(ErrorKind::Configuration) {
        ProbeFault::InvalidInput { code, message }
    } else {
        ProbeFault::Rpc(kind + "/"@ + code + ": "@ + message)
    }
}

pub fn driver_error_to_probe_error(kind: &str, code: &str, message: String) -> (r: ProbeError)
    ensures
        r@ == driver_fault(kind@, code@, message@),
{
    if same_text(code, "PROBE_UNSUPPORTED") {
        ProbeError::Unsupported(message)
    } else if same_text(kind, ErrorKind::Configuration.as_str()) {
        ProbeError::InvalidInput { code: code.to_owned(), message }
    } else {
        ProbeError::Rpc(cat5(kind, "/", code, ": ", message.as_str()))
    }
}

/// Whether a driver knows how to probe.
pub fn probe_supported(negotiated_minor: u32) -> (r: bool)
    ensures
        r == (negotiated_minor >= PROBE_RPC_MIN_MINOR),
{
    negotiated_minor >= PROBE_RPC_MIN_MINOR
}

/// Refuses to ask a driver that does not know how to probe.
pub fn check_probe_supported(negotiated_minor: u32) -> (r: Result<(), ProbeError>)
    ensures
        r is Ok <==> negotiated_minor >= PROBE_RPC_MIN_MINOR,
        r matches Err(e) ==> e@ == ProbeFault::Unsupported(
            "negotiated minor "@ + decimal(negotiated_minor as nat) + " < "@ + decimal(
                PROBE_RPC_MIN_MINOR as nat,
            ),
        ),
{
    if probe_supported(negotiated_minor) {
        Ok(())
    } else {
        Err(
            ProbeError::Unsupported(
                cat4(
                    "negotiated minor ",
                    decimal_text(negotiated_minor as u64).as_str(),
                    " < ",
                    decimal_text(PROBE_RPC_MIN_MINOR as u64).as_str(),
                ),
            ),
        )
    }
}

/// What came of an attempt to probe.
#[derive(Debug, Clone, PartialEq)]
pub enum AttemptOutcome {
    Report(ProbeReport),
    Fail(ProbeError),
    RetryTransient(ProbeError),
}

/// What a failed connection means for an attempt: the driver is started anew where the failure
/// may pass.
pub fn classify_connect_error(e: ConnectError) -> (r: AttemptOutcome)
    ensures
        match r {
            AttemptOutcome::RetryTransient(x) => is_passing(e.source) && x@
                == (ProbeFault::Handshake {
                stage: e.stage,
                message: session_error_text(e.source),
            }),
            AttemptOutcome::Fail(x) => !is_passing(e.source) && x@ == (ProbeFault::Handshake {
                stage: e.stage,
                message: session_error_text(e.source),
            }),
            AttemptOutcome::Report(_) => false,
        },
{
    let transient: bool = is_transient_connect(&e);
    let err: ProbeError = ProbeError::Handshake { stage: e.stage, message: e.source.message() };
    if transient {
        AttemptOutcome::RetryTransient(err)
    } else {
        AttemptOutcome::Fail(err)
    }
}

/// How often a driver is started at most.
pub const MAX_STARTUP_ATTEMPTS: u32 = 2;

/// The handle of the connection that is probed.
pub const PROBE_HANDLE: u32 = 999;

/// What comes after an attempt: what is known, or nothing where there is to be another attempt.
pub fn probe_inner(attempt: u32, outcome: AttemptOutcome) -> (r: Option<
    Result<ProbeReport, ProbeError>,
>)
    requires
        attempt < u32::MAX,
    ensures
        match outcome {
            AttemptOutcome::Report(report) => r == Some(Ok::<ProbeReport, ProbeError>(report)),
            AttemptOutcome::Fail(e) => r == Some(Err::<ProbeReport, ProbeError>(e)),
            AttemptOutcome::RetryTransient(e) => if attempt + 1 < MAX_STARTUP_ATTEMPTS {
                r is None
            } else {
                r == Some(Err::<ProbeReport, ProbeError>(e))
            },
        },
{
    match outcome {
        AttemptOutcome::Report(report) => Some(Ok(report)),
        AttemptOutcome::Fail(e) => Some(Err(e)),
        AttemptOutcome::RetryTransient(e) => if attempt + 1 < MAX_STARTUP_ATTEMPTS {
            None
        } else {
            Some(Err(e))
        },
    }
}

/// What an error of a driver that does not open a connection means.
pub open spec fn open_fault(d: DetailV) -> ProbeFault {
    driver_fault(d.kind, d.code, "open failed: "@ + d.message)
}

fn open_error(d: ErrorDetail) -> (r: ProbeError)
    ensures
        r@ == open_fault(d@),
{
    driver_error_to_probe_error(
        d.kind.as_str(),
        d.code.as_str(),
        cat2("open failed: ", d.message.as_str()),
    )
}

/// What is wrong with the answer to the request to open a connection.
pub open spec fn opening_fault(reply: Result<FrameBody, SessionError>) -> Option<ProbeFault> {
    match reply {
        Err(SessionError::Timeout) => Some(ProbeFault::RpcTimeout),
        Err(e) => Some(ProbeFault::Rpc(session_error_text(e))),
        Ok(FrameBody::OpenConnectionAck(Some(r))) => if r.ok {
            None
        } else {
            Some(open_fault(detail_or_nothing(r.error)))
        },
        Ok(FrameBody::OpenConnectionAck(None)) => Some(
            ProbeFault::Rpc("open failed: empty result"@),
        ),
        Ok(FrameBody::DriverError { handle, detail }) => Some(
            open_fault(detail_or_nothing(detail)),
        ),
        Ok(_) => Some(ProbeFault::Rpc("open failed: unexpected reply"@)),
    }
}

/// Takes the answer to the request to open a connection that is probed.
pub fn open_temp(reply: Result<FrameBody, SessionError>) -> (r: Result<(), ProbeError>)
    ensures
        match r {
            Ok(()) => opening_fault(reply) is None,
            Err(e) => opening_fault(reply) == Some(e@),
        },
{
    match reply {
        Err(SessionError::Timeout) => Err(ProbeError::RpcTimeout),
        Err(e) => Err(ProbeError::Rpc(e.message())),
        Ok(FrameBody::OpenConnectionAck(Some(r))) => if r.ok {
            Ok(())
        } else {
            Err(open_error(detail_of(r.error)))
        },
        Ok(FrameBody::OpenConnectionAck(None)) => Err(
            ProbeError::Rpc("open failed: empty result".to_owned()),
        ),
        Ok(FrameBody::DriverError { handle: _, detail }) => Err(open_error(detail_of(detail))),
        Ok(_) => Err(ProbeError::Rpc("open failed: unexpected reply".to_owned())),
    }
}

/// What a probe that was not answered well means.
pub open spec fn probing_fault(e: SessionError) -> ProbeFault {
    match e {
        SessionError::Timeout => ProbeFault::RpcTimeout,
        SessionError::Driver { kind, code, message } => driver_fault(kind@, code@, message@),
        _ => ProbeFault::Rpc(session_error_text(e)),
    }
}

/// Takes the answer to a probe.
pub fn probe_attempt(answer: Result<ProbeReport, SessionError>) -> (r: AttemptOutcome)
    ensures
        match answer {
            Ok(report) => r == AttemptOutcome::Report(report),
            Err(e) => r matches AttemptOutcome::Fail(x) && x@ == probing_fault(e),
        },
{
    match answer {
        Ok(report) => AttemptOutcome::Report(report),
        Err(SessionError::Timeout) => AttemptOutcome::Fail(ProbeError::RpcTimeout),
        Err(SessionError::Driver { kind, code, message }) => AttemptOutcome::Fail(
            driver_error_to_probe_error(kind.as_str(), code.as_str(), message),
        ),
        Err(other) => AttemptOutcome::Fail(ProbeError::Rpc(other.message())),
    }
}

/// What is known of a device, and which profiles fit it.
#[derive(Debug, Clone, PartialEq)]
pub struct ProbeResult {
    pub report: ProbeReport,
    pub profile_hints: Vec<ProfileMatch>,
}

/// The profiles that fit a device: none where it is out of reach.
pub open spec fn hinted(
    driver_id: Seq<char>,
    report: ReportV,
    profiles: Seq<DeviceProfile>,
) -> Seq<Seq<char>> {
    if report.reachable {
        hit_ids(hits_sorted(hits(driver_id, report, profiles)))
    } else {
        Seq::empty()
    }
}

/// What is made of a report: the profiles that fit it.
pub fn probe(driver_id: &str, report: ProbeReport, profiles: &[DeviceProfile]) -> (r: ProbeResult)
    ensures
        r.report == report,
        r.profile_hints@.map_values(|m: ProfileMatch| m.profile_id@) == hinted(
            driver_id@,
            report@,
            profiles@,
        ),
{
    let profile_hints: Vec<ProfileMatch> = if report.reachable {
        match_profiles(driver_id, &report, profiles)
    } else {
        Vec::new()
    };
    assert(!report.reachable ==> profile_hints@.map_values(|m: ProfileMatch| m.profile_id@)
        =~= Seq::<Seq<char>>::empty());
    ProbeResult { report, profile_hints }
}

/// What an error of a driver means for a probe: by its code first, and by its kind where the code
/// says nothing.
pub proof fn driver_errors_mean_this(kind: Seq<char>, code: Seq<char>, message: Seq<char>)
    ensures
        code == "PROBE_UNSUPPORTED"@ ==> driver_fault(kind, code, message)
            == ProbeFault::Unsupported(message),
        code != "PROBE_UNSUPPORTED"@ && kind == "ConfigurationError"@ ==> driver_fault(
            kind,
            code,
            message,
        ) == (ProbeFault::InvalidInput { code, message }),
        code != "PROBE_UNSUPPORTED"@ && kind != "ConfigurationError"@ ==> driver_fault(
            kind,
            code,
            message,
        ) == ProbeFault::Rpc(kind + "/"@ + code + ": "@ + message),
{
}

/// How the answer to the request to open a connection is understood: only an acknowledgement that
/// says so lets the probe go on.
pub proof fn only_an_acknowledgement_lets_the_probe_go_on(reply: Result<FrameBody, SessionError>)
    ensures
        opening_fault(reply) is None <==> (reply is Ok && reply->Ok_0 is OpenConnectionAck
            && reply->Ok_0->OpenConnectionAck_0 is Some
            && reply->Ok_0->OpenConnectionAck_0->Some_0.ok),
        reply == Err::<FrameBody, SessionError>(SessionError::Timeout) ==> opening_fault(reply)
            == Some(ProbeFault::RpcTimeout),
        reply is Ok && !(reply->Ok_0 is OpenConnectionAck) && !(reply->Ok_0 is DriverError)
            ==> opening_fault(reply) == Some(ProbeFault::Rpc("open failed: unexpected reply"@)),
        reply is Ok && reply->Ok_0 is OpenConnectionAck && reply->Ok_0->OpenConnectionAck_0 is None
            ==> opening_fault(reply) == Some(ProbeFault::Rpc("open failed: empty result"@)),
        reply is Err && !(reply->Err_0 is Timeout) ==> opening_fault(reply) == Some(
            ProbeFault::Rpc(session_error_text(reply->Err_0)),
        ),
{
}

/// A connection that the driver refuses to open is told by the driver's own error.
pub proof fn refused_openings_are_told_by_the_driver(
    handle: Option<u32>,
    d: Option<ErrorDetail>,
)
    requires
        d is Some,
    ensures
        opening_fault(Ok(FrameBody::DriverError { handle, detail: d })) == Some(
            driver_fault(d->Some_0.kind@, d->Some_0.code@, "open failed: "@ + d->Some_0.message@),
        ),
{
}

/// A probe that was not answered in time is told apart from one that the driver refused.
pub proof fn failed_probes_are_told_apart(e: SessionError)
    ensures
        probing_fault(e) is RpcTimeout <==> e is Timeout,
        e matches SessionError::Driver { kind, code, message } ==> probing_fault(e)
            == driver_fault(kind@, code@, message@),
        !(e is Timeout) && !(e is Driver) ==> probing_fault(e) == ProbeFault::Rpc(
            session_error_text(e),
        ),
{
}

/// A device that was reached is held against all profiles, one that was not against none.
pub proof fn only_devices_that_were_reached_are_held_against_profiles(
    driver_id: Seq<char>,
    report: ReportV,
    profiles: Seq<DeviceProfile>,
    id: Seq<char>,
)
    ensures
        hinted(driver_id, report, profiles).contains(id) <==> (report.reachable && exists|i: int|
            0 <= i < profiles.len() && profile_fits(driver_id, report, #[trigger] profiles[i])
                && profiles[i].id@ == id),
{
    matches_are_complete(driver_id, report, profiles, id);
}

/// How a probe that failed reads.
pub proof fn failed_probes_read_so(m: Seq<char>, code: Seq<char>)
    ensures
        probe_fault_text(ProbeFault::DriverNotFound(m)) == "driver `"@ + m + "` not found"@,
        probe_fault_text(ProbeFault::Unsupported(m)) == "probe unsupported by driver: "@ + m,
        probe_fault_text(ProbeFault::Spawn(m)) == "spawn failed: "@ + m,
        probe_fault_text(ProbeFault::RpcTimeout) == "probe rpc timed out"@,
        probe_fault_text(ProbeFault::Rpc(m)) == "probe rpc failed: "@ + m,
        probe_fault_text(ProbeFault::InvalidInput { code, message: m })
            == "invalid probe input "@ + code + ": "@ + m,
        probe_fault_text(ProbeFault::Timeout) == "probe timed out"@,
{
}

/// How often a probe is begun, and under which handle.
pub proof fn probes_keep_to_these_limits()
    ensures
        MAX_STARTUP_ATTEMPTS == 2,
        PROBE_HANDLE == 999,
{
}

} // verus!
