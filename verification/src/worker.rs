//! The worker's decision for each message from the page.
use vstd::prelude::*;
use crate::protocol::ClientMessage;

verus! {

/// What the worker does about one message.
#[derive(Clone, Copy, Debug, PartialEq)]
pub enum WorkerAction<F> {
    /// Nothing: the renderer does not exist yet, or `Init` came without a canvas.
    Ignore,
    /// Build the renderer on the transferred canvas at this size; once it is up,
    /// report `Ready` and start the frame loop.
    CreateRenderer { width: F, height: F },
    Resize { width: F, height: F },
    SetSpeed { speed: F },
    SetColor { red: F, green: F, blue: F },
    Orbit { yaw: F, pitch: F },
    Zoom { amount: F },
    /// Ray-cast the click against the scene and answer `Picked` with the hit, if any.
    Pick { x: F, y: F },
    /// Answer `Picked` with no hit: there is no scene yet.
    ReplyNoHit,
    /// Answer `StatsReply` with `id` and the renderer's frame statistics.
    ReplyStats { id: u32 },
    /// Answer `StatsReply` with `id` and zero frame statistics: there is no renderer yet.
    ReplyZeroStats { id: u32 },
}

/// Whether the worker answers the page when it takes `action`.
pub open spec fn answers<F>(action: WorkerAction<F>) -> bool {
    ||| action is Pick
    ||| action is ReplyNoHit
    ||| action is ReplyStats
    ||| action is ReplyZeroStats
}

/// The id of the statistics reply that `action` sends, if it sends one.
pub open spec fn stats_reply_id<F>(action: WorkerAction<F>) -> Option<u32> {
    match action {
        WorkerAction::ReplyStats { id } => Some(id),
        WorkerAction::ReplyZeroStats { id } => Some(id),
        _ => None,
    }
}

/// Decides what the worker does about `message`, given whether its renderer
/// exists and whether the message came with a canvas.
pub fn plan_message<F>(message: ClientMessage<F>, renderer_ready: bool, canvas_attached: bool) -> (action: WorkerAction<F>)
    ensures
        match message {
            ClientMessage::Init { width, height } => action == (if canvas_attached {
                WorkerAction::CreateRenderer { width, height }
            } else {
                WorkerAction::Ignore
            }),
            ClientMessage::Resize { width, height } => action == (if renderer_ready {
                WorkerAction::Resize { width, height }
            } else {
                WorkerAction::Ignore
            }),
            ClientMessage::SetSpeed { speed } => action == (if renderer_ready {
                WorkerAction::SetSpeed { speed }
            } else {
                WorkerAction::Ignore
            }),
            ClientMessage::SetColor { red, green, blue } => action == (if renderer_ready {
                WorkerAction::SetColor { red, green, blue }
            } else {
                WorkerAction::Ignore
            }),
            ClientMessage::Orbit { yaw, pitch } => action == (if renderer_ready {
                WorkerAction::Orbit { yaw, pitch }
            } else {
                WorkerAction::Ignore
            }),
            ClientMessage::Zoom { amount } => action == (if renderer_ready {
                WorkerAction::Zoom { amount }
            } else {
                WorkerAction::Ignore
            }),
            ClientMessage::Pick { x, y } => action == (if renderer_ready {
                WorkerAction::Pick { x, y }
            } else {
                WorkerAction::<F>::ReplyNoHit
            }),
            ClientMessage::StatsRequest { id } => action == (if renderer_ready {
                WorkerAction::<F>::ReplyStats { id }
            } else {
                WorkerAction::<F>::ReplyZeroStats { id }
            }),
        },
        // Only the two requests are answered, and always: every other message is one-way.
        answers(action) <==> (message is Pick || message is StatsRequest),
        // A statistics reply carries the id of the request it answers.
        message matches ClientMessage::StatsRequest { id } ==> stats_reply_id(action) == Some(id),
        !(message is StatsRequest) ==> stats_reply_id(action) is None,
{
    match message {
        ClientMessage::Init { width, height } => {
            if canvas_attached {
                WorkerAction::CreateRenderer { width, height }
            } else {
                WorkerAction::Ignore
            }
        },
        ClientMessage::Resize { width, height } => {
            if renderer_ready {
                WorkerAction::Resize { width, height }
            } else {
                WorkerAction::Ignore
            }
        },
        ClientMessage::SetSpeed { speed } => {
            if renderer_ready {
                WorkerAction::SetSpeed { speed }
            } else {
                WorkerAction::Ignore
            }
        },
        ClientMessage::SetColor { red, green, blue } => {
            if renderer_ready {
                WorkerAction::SetColor { red, green, blue }
            } else {
                WorkerAction::Ignore
            }
        },
        ClientMessage::Orbit { yaw, pitch } => {
            if renderer_ready {
                WorkerAction::Orbit { yaw, pitch }
            } else {
                WorkerAction::Ignore
            }
        },
        ClientMessage::Zoom { amount } => {
            if renderer_ready {
                WorkerAction::Zoom { amount }
            } else {
                WorkerAction::Ignore
            }
        },
        ClientMessage::Pick { x, y } => {
            if renderer_ready {
                WorkerAction::Pick { x, y }
            } else {
                WorkerAction::ReplyNoHit
            }
        },
        ClientMessage::StatsRequest { id } => {
            if renderer_ready {
                WorkerAction::ReplyStats { id }
            } else {
                WorkerAction::ReplyZeroStats { id }
            }
        },
    }
}

} // verus!
