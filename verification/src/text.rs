//! The text that the page shows.
use vstd::prelude::*;
use crate::protocol::AdapterInfo;
use crate::thousands::{decimal_text, format_decimal, format_thousands, thousands_text};

verus! {

/// The CSS classes of the canvas: the cursor shows a grabbing hand during a drag.
pub fn canvas_class(grabbing: bool) -> (class: String)
    ensures
        class@ == (if grabbing {
            "block w-full h-full touch-none cursor-grabbing"@
        } else {
            "block w-full h-full touch-none cursor-grab"@
        }),
{
    if grabbing {
        String::from_str("block w-full h-full touch-none cursor-grabbing")
    } else {
        String::from_str("block w-full h-full touch-none cursor-grab")
    }
}

/// The CSS classes of the main-thread statistics box, red while the main thread is jammed.
pub fn main_stat_class(jammed: bool) -> (class: String)
    ensures
        class@ == "px-2.5 py-2 rounded-md border"@ + (if jammed {
            " bg-[#2a1414] border-[#5c1f1f]"@
        } else {
            " bg-[#161a26] border-[#262b3c]"@
        }),
{
    let mut class = String::from_str("px-2.5 py-2 rounded-md border");
    if jammed {
        class.append(" bg-[#2a1414] border-[#5c1f1f]");
    } else {
        class.append(" bg-[#161a26] border-[#262b3c]");
    }
    class
}

/// The CSS classes of the heartbeat counter, red while the main thread is jammed.
pub fn heartbeat_value_class(jammed: bool) -> (class: &'static str)
    ensures
        class@ == (if jammed {
            "text-[20px] tabular-nums text-[#ff8a8a]"@
        } else {
            "text-[20px] tabular-nums"@
        }),
{
    if jammed {
        "text-[20px] tabular-nums text-[#ff8a8a]"
    } else {
        "text-[20px] tabular-nums"
    }
}

/// The renderer line: the adapter, then its backend in parentheses.
pub fn adapter_label(info: &AdapterInfo) -> (label: String)
    ensures
        label@ == info.adapter@ + " ("@ + info.backend@ + ")"@,
{
    let mut label = String::from_str(info.adapter.as_str());
    label.append(" (");
    label.append(info.backend.as_str());
    label.append(")");
    label
}

/// The line that names where wgpu runs: the worker's scope, off the main thread.
pub fn context_label(scope: &str) -> (label: String)
    ensures
        label@ == scope@ + " (off the main thread)"@,
{
    let mut label = String::from_str(scope);
    label.append(" (off the main thread)");
    label
}

/// The report of a jam: how long the main thread was blocked, in whole
/// milliseconds, and how many frames the worker drew meanwhile, grouped by thousands.
pub fn jam_report(blocked_ms: i64, advanced_frames: i64) -> (report: String)
    ensures
        report@ == "Main thread blocked "@ + decimal_text(blocked_ms as int) + " ms. wgpu advanced "@
            + thousands_text(advanced_frames as int) + " frames meanwhile."@,
{
    let mut report = String::from_str("Main thread blocked ");
    let blocked = format_decimal(blocked_ms);
    report.append(blocked.as_str());
    report.append(" ms. wgpu advanced ");
    let frames = format_thousands(advanced_frames);
    report.append(frames.as_str());
    report.append(" frames meanwhile.");
    report
}

} // verus!
