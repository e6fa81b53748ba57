//! The messages that the page sends to the worker, and the adapter report.
use vstd::prelude::*;

verus! {

/// The GPU adapter and backend that the worker's renderer runs on.
#[derive(Clone, Debug, PartialEq, Eq)]
pub struct AdapterInfo {
    pub adapter: String,
    pub backend: String,
}

/// A message from the page to the worker. `F` is the type of the measurements
/// it carries (sizes, speeds, colour components, angles and positions); the
/// worker never inspects them, it hands them on to the renderer.
#[derive(Clone, Debug, PartialEq)]
pub enum ClientMessage<F> {
    /// Sent once, with the canvas transferred alongside.
    Init { width: F, height: F },
    Resize { width: F, height: F },
    SetSpeed { speed: F },
    SetColor { red: F, green: F, blue: F },
    /// Accumulated drag since the last frame.
    Orbit { yaw: F, pitch: F },
    Zoom { amount: F },
    /// A click in normalized device coordinates.
    Pick { x: F, y: F },
    /// The one request that wants a reply, correlated by `id`.
    StatsRequest { id: u32 },
}

} // verus!
