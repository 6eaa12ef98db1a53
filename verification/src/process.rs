//! Driver processes: the ports they get, the tokens they are handed, and why one cannot be had.
use vstd::prelude::*;

use crate::ids::IdTable;
use crate::manifest::DiscoveredDriver;
use crate::secrets::random_bytes;
use crate::text::{cat2, decimal, decimal_text, hex, hex_text};

verus! {

/// How long a process may take to end before it is killed, in milliseconds.
pub const TERMINATE_GRACE_MS: u64 = 5_000;

/// Why a driver cannot be spawned.
#[derive(Debug, Clone, PartialEq)]
pub enum SpawnError {
    MissingBinary(String),
    NoPort,
    Io(String),
    Job(u32),
}

/// How a [`SpawnError`] reads.
pub open spec fn spawn_error_text(e: SpawnError) -> Seq<char> {
    match e {
        SpawnError::MissingBinary(m) => "driver executable missing: "@ + m@,
        SpawnError::NoPort => "no free local port"@,
        SpawnError::Io(m) => "io error: "@ + m@,
        SpawnError::Job(code) => "job object error: code "@ + decimal(code as nat),
    }
}

impl SpawnError {
    pub fn message(&self) -> (r: String)
        ensures
            r@ == spawn_error_text(*self),
    {
        match self {
            SpawnError::MissingBinary(m) => cat2("driver executable missing: ", m.as_str()),
            SpawnError::NoPort => "no free local port".to_owned(),
            SpawnError::Io(m) => cat2("io error: ", m.as_str()),
            SpawnError::Job(code) => cat2(
                "job object error: code ",
                decimal_text(*code as u64).as_str(),
            ),
        }
    }
}

/// That a child process ends with this one.
#[derive(Debug, Clone, Copy, PartialEq, Eq, Structural)]
pub struct JobAttachment;

/// Ties a child process to this one. Where a driver sees to that itself there is nothing to do.
pub fn attach_current_child(_pid: u32) -> (r: Result<JobAttachment, SpawnError>)
    ensures
        r == Ok::<JobAttachment, SpawnError>(JobAttachment),
{
    Ok(JobAttachment)
}

/// The ports that drivers have.
pub struct PortLeases {
    ports: IdTable<bool>,
}

impl View for PortLeases {
    type V = Set<u64>;

    closed spec fn view(&self) -> Set<u64> {
        self.ports@.dom()
    }
}

/// How often a port is asked for at most.
pub const MAX_PORT_ATTEMPTS: u32 = 64;

/// What comes of asking for a port.
#[derive(Debug, Clone, Copy, PartialEq, Eq, Structural)]
pub enum LeaseStep {
    Leased(u16),
    Again,
    NoPort,
}

/// What comes of asking for a port: it is leased unless a driver has it, and then another one is
/// asked for, but not for ever.
pub open spec fn lease_step(leased: Set<u64>, attempt: u32, offered: Option<u16>) -> LeaseStep {
    match offered {
        None => LeaseStep::NoPort,
        Some(p) => if !leased.contains(p as u64) {
            LeaseStep::Leased(p)
        } else if attempt + 1 < MAX_PORT_ATTEMPTS {
            LeaseStep::Again
        } else {
            LeaseStep::NoPort
        },
    }
}

impl PortLeases {
    /// No driver has a port.
    pub fn new() -> (r: PortLeases)
        ensures
            r@ == Set::<u64>::empty(),
    {
        let r: PortLeases = PortLeases { ports: IdTable::new() };
        assert(r@ =~= Set::<u64>::empty());
        r
    }

    /// Takes the port that the system offers, if it offers one and no driver has it.
    pub fn lease_port(&mut self, attempt: u32, offered: Option<u16>) -> (r: LeaseStep)
        ensures
            r == lease_step(old(self)@, attempt, offered),
            final(self)@ == (match r {
                LeaseStep::Leased(p) => old(self)@.insert(p as u64),
                _ => old(self)@,
            }),
    {
        match offered {
            None => LeaseStep::NoPort,
            Some(p) => {
                if !self.ports.has(p as u64) {
                    self.ports.set(p as u64, true);
                    assert(self@ =~= old(self)@.insert(p as u64));
                    LeaseStep::Leased(p)
                } else if attempt < MAX_PORT_ATTEMPTS - 1 {
                    LeaseStep::Again
                } else {
                    LeaseStep::NoPort
                }
            },
        }
    }

    /// Gives a port back.
    pub fn release(&mut self, port: u16)
        ensures
            final(self)@ == old(self)@.remove(port as u64),
    {
        let _ = self.ports.remove(port as u64);
        assert(self@ =~= old(self)@.remove(port as u64));
    }
}

/// A port that a driver has is not leased to another before it is given back.
pub proof fn ports_are_leased_once(leased: Set<u64>, attempt: u32, port: u16)
    requires
        leased.contains(port as u64),
    ensures
        !(lease_step(leased, attempt, Some(port)) is Leased),
        lease_step(leased.remove(port as u64), attempt, Some(port)) == LeaseStep::Leased(port),
{
}

/// What is to be run as the process of a driver.
pub fn executable_of(d: &DiscoveredDriver) -> (r: Result<&String, SpawnError>)
    ensures
        match r {
            Ok(p) => d.executable_path == Some(*p),
            Err(e) => d.executable_path is None && (e matches SpawnError::MissingBinary(m) && m@
                == d.manifest.executable@),
        },
{
    match &d.executable_path {
        Some(p) => Ok(p),
        None => Err(SpawnError::MissingBinary(d.manifest.executable.clone())),
    }
}

/// How many bytes a token is made of.
pub const TOKEN_BYTES: usize = 32;

/// The token that some bytes make.
pub fn session_token(bytes: &[u8]) -> (r: String)
    ensures
        r@ == hex(bytes@, false),
{
    hex_text(bytes, false)
}

/// A token that nobody can guess.
pub fn generate_session_token() -> (r: Result<String, String>)
    ensures
        r matches Ok(t) ==> exists|bytes: Seq<u8>|
            bytes.len() == TOKEN_BYTES && t@ == #[trigger] hex(bytes, false),
{
    match random_bytes(TOKEN_BYTES) {
        Ok(bytes) => {
            let t: String = session_token(bytes.as_slice());
            assert(t@ == hex(bytes@, false));
            Ok(t)
        },
        Err(e) => Err(e),
    }
}

/// A port is leased exactly where it is offered and nobody has it; where somebody has it another is
/// asked for, as long as there are attempts left.
pub proof fn ports_are_leased_when_they_are_free(leased: Set<u64>, attempt: u32, p: u16)
    ensures
        lease_step(leased, attempt, None) is NoPort,
        !leased.contains(p as u64) ==> lease_step(leased, attempt, Some(p)) == LeaseStep::Leased(p),
        leased.contains(p as u64) && attempt + 1 < MAX_PORT_ATTEMPTS ==> lease_step(
            leased,
            attempt,
            Some(p),
        ) is Again,
        leased.contains(p as u64) && attempt + 1 >= MAX_PORT_ATTEMPTS ==> lease_step(
            leased,
            attempt,
            Some(p),
        ) is NoPort,
{
}

/// How a driver that could not be spawned is told.
pub proof fn failed_spawns_are_told(m: String, code: u32)
    ensures
        spawn_error_text(SpawnError::MissingBinary(m)) == "driver executable missing: "@ + m@,
        spawn_error_text(SpawnError::NoPort) == "no free local port"@,
        spawn_error_text(SpawnError::Io(m)) == "io error: "@ + m@,
        spawn_error_text(SpawnError::Job(code)) == "job object error: code "@ + decimal(
            code as nat,
        ),
{
}

/// How long a driver has to end, how often a port is asked for, and how long a token is.
pub proof fn processes_keep_to_these_limits()
    ensures
        TERMINATE_GRACE_MS == 5_000,
        MAX_PORT_ATTEMPTS == 64,
        TOKEN_BYTES == 32,
{
}

} // verus!
