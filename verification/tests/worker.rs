use webgpu_worker::protocol::ClientMessage;
use webgpu_worker::worker::{plan_message, WorkerAction};

#[test]
fn init_with_canvas_creates_renderer() {
    let action = plan_message(ClientMessage::Init { width: 800.0f32, height: 600.0 }, false, true);
    assert_eq!(action, WorkerAction::CreateRenderer { width: 800.0, height: 600.0 });
}

#[test]
fn init_without_canvas_is_ignored() {
    let action = plan_message(ClientMessage::Init { width: 800.0f32, height: 600.0 }, false, false);
    assert_eq!(action, WorkerAction::Ignore);
}

#[test]
fn commands_before_renderer_are_dropped() {
    let messages = [
        ClientMessage::Resize { width: 1.0f32, height: 2.0 },
        ClientMessage::SetSpeed { speed: 2.5 },
        ClientMessage::SetColor { red: 0.1, green: 0.2, blue: 0.3 },
        ClientMessage::Orbit { yaw: 3.0, pitch: -4.0 },
        ClientMessage::Zoom { amount: 120.0 },
    ];
    for message in messages {
        assert_eq!(plan_message(message, false, false), WorkerAction::Ignore);
    }
}

#[test]
fn commands_reach_the_renderer() {
    assert_eq!(
        plan_message(ClientMessage::Resize { width: 1.0f32, height: 2.0 }, true, false),
        WorkerAction::Resize { width: 1.0, height: 2.0 }
    );
    assert_eq!(
        plan_message(ClientMessage::SetSpeed { speed: 2.5f32 }, true, false),
        WorkerAction::SetSpeed { speed: 2.5 }
    );
    assert_eq!(
        plan_message(ClientMessage::SetColor { red: 0.1f32, green: 0.2, blue: 0.3 }, true, false),
        WorkerAction::SetColor { red: 0.1, green: 0.2, blue: 0.3 }
    );
    assert_eq!(
        plan_message(ClientMessage::Orbit { yaw: 3.0f32, pitch: -4.0 }, true, false),
        WorkerAction::Orbit { yaw: 3.0, pitch: -4.0 }
    );
    assert_eq!(
        plan_message(ClientMessage::Zoom { amount: 120.0f32 }, true, false),
        WorkerAction::Zoom { amount: 120.0 }
    );
}

#[test]
fn pick_is_always_answered() {
    assert_eq!(
        plan_message(ClientMessage::Pick { x: 0.5f32, y: -0.5 }, true, false),
        WorkerAction::Pick { x: 0.5, y: -0.5 }
    );
    assert_eq!(
        plan_message(ClientMessage::Pick { x: 0.5f32, y: -0.5 }, false, false),
        WorkerAction::ReplyNoHit
    );
}

#[test]
fn stats_reply_carries_request_id() {
    assert_eq!(
        plan_message(ClientMessage::<f32>::StatsRequest { id: 7 }, true, false),
        WorkerAction::ReplyStats { id: 7 }
    );
    assert_eq!(
        plan_message(ClientMessage::<f32>::StatsRequest { id: 0 }, false, true),
        WorkerAction::ReplyZeroStats { id: 0 }
    );
}
