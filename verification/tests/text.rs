use webgpu_worker::protocol::AdapterInfo;
use webgpu_worker::text::{
    adapter_label, canvas_class, context_label, heartbeat_value_class, jam_report, main_stat_class,
};

#[test]
fn canvas_cursor_follows_drag() {
    assert_eq!(canvas_class(true), "block w-full h-full touch-none cursor-grabbing");
    assert_eq!(canvas_class(false), "block w-full h-full touch-none cursor-grab");
}

#[test]
fn stat_box_turns_red_when_jammed() {
    assert_eq!(
        main_stat_class(true),
        "px-2.5 py-2 rounded-md border bg-[#2a1414] border-[#5c1f1f]"
    );
    assert_eq!(
        main_stat_class(false),
        "px-2.5 py-2 rounded-md border bg-[#161a26] border-[#262b3c]"
    );
    assert_eq!(heartbeat_value_class(true), "text-[20px] tabular-nums text-[#ff8a8a]");
    assert_eq!(heartbeat_value_class(false), "text-[20px] tabular-nums");
}

#[test]
fn adapter_line() {
    let info = AdapterInfo { adapter: "Apple M2".to_string(), backend: "BrowserWebGpu".to_string() };
    assert_eq!(adapter_label(&info), "Apple M2 (BrowserWebGpu)");
}

#[test]
fn context_line() {
    assert_eq!(
        context_label("DedicatedWorkerGlobalScope"),
        "DedicatedWorkerGlobalScope (off the main thread)"
    );
}

#[test]
fn jam_report_text() {
    assert_eq!(
        jam_report(3001, 180),
        "Main thread blocked 3001 ms. wgpu advanced 180 frames meanwhile."
    );
    assert_eq!(
        jam_report(3000, 12345),
        "Main thread blocked 3000 ms. wgpu advanced 12,345 frames meanwhile."
    );
    assert_eq!(
        jam_report(-1, -1500),
        "Main thread blocked -1 ms. wgpu advanced -1,500 frames meanwhile."
    );
}
