//! A bridge from touch intensities reported over OSC to rate-limited, batched
//! device commands.
//!
//! The crate holds the decisions of the bridge: how a datagram updates the
//! command store, which commands a dispatch tick sends, how a command is
//! written on the wire, and how the device link recovers from a failed send.
//! Sockets, timers and the connection itself belong to the program around it,
//! which hands this crate plain values and performs the actions it returns.

pub mod config;
pub mod intensity;
pub mod text;
pub mod osc;
pub mod openshock_legacy;
pub mod openshock;

use vstd::prelude::*;
use vstd::string::*;

verus! {

/// An event read from a world's log: the touchpoint it is for, the methods,
/// the intensity in millionths and the duration in milliseconds.
#[derive(Debug)]
pub struct WorldCommandEvent {
    pub address: String,
    pub method: Vec<u8>,
    pub intensity: i64,
    pub duration: u64,
}

/// A device backend.
#[derive(Clone, Copy, Debug, PartialEq, Eq, Structural)]
pub enum Backend {
    Legacy,
    OpenShock,
    PiShock,
}

/// A character with upper-case ASCII letters taken for their lower-case
/// ones, as its code.
pub open spec fn folded(c: char) -> u32 {
    if 'A' <= c && c <= 'Z' {
        (c as u32 + 32) as u32
    } else {
        c as u32
    }
}

/// Whether two texts are the same but for the case of ASCII letters.
pub open spec fn same_ignoring_case(a: Seq<char>, b: Seq<char>) -> bool {
    &&& a.len() == b.len()
    &&& forall|i: int| 0 <= i < a.len() ==> folded(#[trigger] a[i]) == folded(b[i])
}

/// The backend that a firmware identifier names, whatever the case of its
/// letters.
pub open spec fn backend_of(firmware: Seq<char>) -> Option<Backend> {
    if same_ignoring_case(firmware, "legacy"@) {
        Some(Backend::Legacy)
    } else if same_ignoring_case(firmware, "openshock"@) {
        Some(Backend::OpenShock)
    } else if same_ignoring_case(firmware, "pishock"@) {
        Some(Backend::PiShock)
    } else {
        None
    }
}

fn fold(c: char) -> (code: u32)
    ensures
        code == folded(c),
{
    if 'A' <= c && c <= 'Z' {
        c as u32 + 32
    } else {
        c as u32
    }
}

/// Compares two texts without regard to the case of ASCII letters.
pub fn eq_ignoring_case(a: &str, b: &str) -> (same: bool)
    ensures
        same == same_ignoring_case(a@, b@),
{
    let n = a.unicode_len();
    if n != b.unicode_len() {
        return false;
    }
    let mut i: usize = 0;
    while i < n
        invariant
            i <= n,
            n == a@.len(),
            n == b@.len(),
            forall|j: int| 0 <= j < i ==> folded(#[trigger] a@[j]) == folded(b@[j]),
        decreases n - i,
    {
        if fold(a.get_char(i)) != fold(b.get_char(i)) {
            return false;
        }
        i += 1;
    }
    true
}

/// Selects the backend that a configured firmware identifier names. An
/// unknown identifier selects none.
pub fn identify_firmware(firmware: &str) -> (backend: Option<Backend>)
    ensures
        backend == backend_of(firmware@),
{
    if eq_ignoring_case(firmware, "legacy") {
        Some(Backend::Legacy)
    } else if eq_ignoring_case(firmware, "openshock") {
        Some(Backend::OpenShock)
    } else if eq_ignoring_case(firmware, "pishock") {
        Some(Backend::PiShock)
    } else {
        None
    }
}

impl Backend {
    /// Whether the backend sends commands. Only the legacy backend does; the
    /// others are known and inert.
    pub fn dispatches(&self) -> (r: bool)
        ensures
            r == (*self == Backend::Legacy),
    {
        match self {
            Backend::Legacy => true,
            _ => false,
        }
    }
}

} // verus!
