//! Tray render reducer: a pure map from the latest probe outcome and the
//! display mode to a renderable (icon, label) pair, plus the diff used to
//! suppress redundant redraws.
use vstd::prelude::*;
use crate::strutil::{dec_digits, u64_to_chars, chars_to_string};

verus! {

/// How the tray presents the primary target's latest measurement.
#[derive(Debug, Clone, Copy, PartialEq, Eq, Structural)]
pub enum DisplayMode {
    IconOnly,
    IconAndPing,
    PingOnly,
}

/// The icon families the tray can show. `Transparent` hides the icon so
/// that only the label is visible.
#[derive(Debug, Clone, Copy, PartialEq, Eq, Structural)]
pub enum IconClass {
    Happy,
    Angry,
    Sad,
    Dead,
    Transparent,
}

/// What the tray should render. Diffed against the last-rendered value so
/// an unchanged tick causes no redraw.
#[derive(Debug)]
pub struct TrayRenderState {
    pub icon: IconClass,
    pub label: String,
}

impl Clone for TrayRenderState {
    fn clone(&self) -> (res: Self)
        ensures
            res == *self,
    {
        TrayRenderState { icon: self.icon, label: self.label.clone() }
    }
}

/// Mathematical image of a `TrayRenderState`.
pub ghost struct TrayRenderStateView {
    pub icon: IconClass,
    pub label: Seq<char>,
}

impl View for TrayRenderState {
    type V = TrayRenderStateView;

    open spec fn view(&self) -> TrayRenderStateView {
        TrayRenderStateView { icon: self.icon, label: self.label@ }
    }
}

/// Icon chosen from the measured latency: under 60 ms is `Happy`, under
/// 150 ms `Angry`, anything measured but slower `Sad`, and a failed probe
/// `Dead`.
pub open spec fn spec_icon_for(latency_ms: Option<u32>) -> IconClass {
    match latency_ms {
        Some(ms) => if ms < 60 {
            IconClass::Happy
        } else if ms < 150 {
            IconClass::Angry
        } else {
            IconClass::Sad
        },
        None => IconClass::Dead,
    }
}

/// The label text: the latency in whole milliseconds followed by "ms",
/// or "---" for a failed probe.
pub open spec fn spec_label_for(latency_ms: Option<u32>) -> Seq<char> {
    match latency_ms {
        Some(ms) => dec_digits(ms as nat) + seq!['m', 's'],
        None => seq!['-', '-', '-'],
    }
}

/// The full reduction: latency and display mode to render state.
/// `IconOnly` blanks the label, `PingOnly` hides the icon, and
/// `IconAndPing` shows both.
pub open spec fn spec_render(latency_ms: Option<u32>, mode: DisplayMode) -> TrayRenderStateView {
    match mode {
        DisplayMode::IconOnly => TrayRenderStateView {
            icon: spec_icon_for(latency_ms),
            label: Seq::<char>::empty(),
        },
        DisplayMode::IconAndPing => TrayRenderStateView {
            icon: spec_icon_for(latency_ms),
            label: spec_label_for(latency_ms),
        },
        DisplayMode::PingOnly => TrayRenderStateView {
            icon: IconClass::Transparent,
            label: spec_label_for(latency_ms),
        },
    }
}

pub fn icon_for(latency_ms: Option<u32>) -> (r: IconClass)
    ensures
        r == spec_icon_for(latency_ms),
{
    match latency_ms {
        Some(ms) => if ms < 60 {
            IconClass::Happy
        } else if ms < 150 {
            IconClass::Angry
        } else {
            IconClass::Sad
        },
        None => IconClass::Dead,
    }
}

pub fn ping_label(latency_ms: Option<u32>) -> (s: String)
    ensures
        s@ == spec_label_for(latency_ms),
{
    match latency_ms {
        Some(ms) => {
            let mut v = u64_to_chars(ms as u64);
            v.push('m');
            v.push('s');
            proof {
                assert(v@ =~= dec_digits(ms as nat) + seq!['m', 's']);
            }
            chars_to_string(&v)
        },
        None => {
            let mut v: Vec<char> = Vec::new();
            v.push('-');
            v.push('-');
            v.push('-');
            proof {
                assert(v@ =~= seq!['-', '-', '-']);
            }
            chars_to_string(&v)
        },
    }
}

/// The pure reducer from the latest sample's latency and the display mode
/// to the tray's render state.
pub fn render(latency_ms: Option<u32>, mode: DisplayMode) -> (r: TrayRenderState)
    ensures
        r@ == spec_render(latency_ms, mode),
{
    match mode {
        DisplayMode::IconOnly => TrayRenderState { icon: icon_for(latency_ms), label: String::new() },
        DisplayMode::IconAndPing => TrayRenderState {
            icon: icon_for(latency_ms),
            label: ping_label(latency_ms),
        },
        DisplayMode::PingOnly => TrayRenderState {
            icon: IconClass::Transparent,
            label: ping_label(latency_ms),
        },
    }
}

/// True exactly when the two render states present the same icon and label;
/// the tick loop skips the redraw side effect when the new state matches
/// the last-rendered one.
pub fn same_render(a: &TrayRenderState, b: &TrayRenderState) -> (r: bool)
    ensures
        r == (a@ == b@),
{
    let icons_equal = a.icon == b.icon;
    let labels_equal = a.label == b.label;
    icons_equal && labels_equal
}

} // verus!
