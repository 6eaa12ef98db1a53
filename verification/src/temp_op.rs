//! Drivers that are started for one operation: what is done when one does not come up.
use vstd::prelude::*;

use crate::process::{spawn_error_text, SpawnError};
use crate::protocol::ProtocolError;
use crate::session::{
    session_error_text, stage_name, ConnectError, SessionError, StartupStage,
};
use crate::text::cat4;

verus! {

/// How often a driver is started at most.
pub const MAX_TEMP_ATTEMPTS: u32 = 2;

/// Why a driver did not come up.
#[derive(Debug, Clone, PartialEq)]
pub enum TempStartupError {
    Spawn { stage: StartupStage, message: String },
    Connect(ConnectError),
}

/// Whether a failed connection may be a passing one: the driver has not spoken yet.
pub open spec fn is_passing(e: SessionError) -> bool {
    match e {
        SessionError::Io(_) => true,
        SessionError::Timeout => true,
        SessionError::Protocol(ProtocolError::Io(_)) => true,
        _ => false,
    }
}

pub fn is_transient_connect(e: &ConnectError) -> (r: bool)
    ensures
        r == is_passing(e.source),
{
    match &e.source {
        SessionError::Io(_) => true,
        SessionError::Timeout => true,
        SessionError::Protocol(ProtocolError::Io(_)) => true,
        _ => false,
    }
}

/// How a [`TempStartupError`] reads.
pub open spec fn startup_error_text(e: TempStartupError) -> Seq<char> {
    match e {
        TempStartupError::Spawn { stage, message } => "spawn failed at "@ + stage_name(stage)
            + ": "@ + message@,
        TempStartupError::Connect(c) => "handshake failed at "@ + stage_name(c.stage) + ": "@
            + session_error_text(c.source),
    }
}

impl TempStartupError {
    /// Whether the driver may come up when it is started anew.
    pub fn transient(&self) -> (r: bool)
        ensures
            r == (self matches TempStartupError::Connect(c) && is_passing(c.source)),
    {
        match self {
            TempStartupError::Spawn { .. } => false,
            TempStartupError::Connect(c) => is_transient_connect(c),
        }
    }

    pub fn message(&self) -> (r: String)
        ensures
            r@ == startup_error_text(*self),
    {
        match self {
            TempStartupError::Spawn { stage, message } => cat4(
                "spawn failed at ",
                stage.as_str(),
                ": ",
                message.as_str(),
            ),
            TempStartupError::Connect(c) => cat4(
                "handshake failed at ",
                c.stage.as_str(),
                ": ",
                c.source.message().as_str(),
            ),
        }
    }
}

/// How a failure to spawn is told: without a port the driver did not get as far as to bind one.
pub fn spawn_failure(e: &SpawnError) -> (r: TempStartupError)
    ensures
        r matches TempStartupError::Spawn { stage, message } && message@ == spawn_error_text(*e)
            && stage == (if *e is NoPort {
            StartupStage::Bind
        } else {
            StartupStage::Spawn
        }),
{
    let stage: StartupStage = match e {
        SpawnError::NoPort => StartupStage::Bind,
        _ => StartupStage::Spawn,
    };
    TempStartupError::Spawn { stage, message: e.message() }
}

/// Whether to start a driver anew after it did not come up: where the failure may pass, and not
/// for ever.
pub fn temp_driver_attempt(attempt: u32, e: &TempStartupError) -> (again: bool)
    requires
        attempt < u32::MAX,
    ensures
        again <==> attempt + 1 < MAX_TEMP_ATTEMPTS && (*e matches TempStartupError::Connect(c)
            && is_passing(c.source)),
{
    e.transient() && attempt + 1 < MAX_TEMP_ATTEMPTS
}

/// A driver that has spoken is not started anew: what it said counts.
pub proof fn spoken_words_count(m: String, kind: String, code: String, message: String)
    ensures
        !is_passing(SessionError::Handshake(m)),
        !is_passing(SessionError::Closed),
        !is_passing(SessionError::Driver { kind, code, message }),
        !is_passing(SessionError::Protocol(ProtocolError::Decode(m))),
{
}

/// A failure passes exactly where it is one of the line or of time: trouble with reading and
/// writing, in a frame or outside of it, and a timeout.
pub proof fn failures_of_the_line_pass(e: SessionError)
    ensures
        is_passing(e) <==> (e is Io || e is Timeout || (e is Protocol && e->Protocol_0 is Io)),
{
}

/// How often a session that passes is begun.
pub proof fn passing_sessions_are_begun_so_often()
    ensures
        MAX_TEMP_ATTEMPTS == 2,
{
}

/// How a session that could not be begun is told: by the stage at which it failed.
pub proof fn failed_beginnings_are_told_by_their_stage(e: TempStartupError)
    ensures
        e matches TempStartupError::Spawn { stage, message } ==> startup_error_text(e)
            == "spawn failed at "@ + stage_name(stage) + ": "@ + message@,
        e matches TempStartupError::Connect(c) ==> startup_error_text(e) == "handshake failed at "@
            + stage_name(c.stage) + ": "@ + session_error_text(c.source),
{
}

} // verus!
