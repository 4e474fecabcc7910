//! Settings-panel steppers (labels and the values one step away) and
//! the custom accent colour's channel sliders.
use vstd::prelude::*;
use crate::text::{decimal, dec_str};

verus! {

/// `"Off"` for 0, whole minutes as `"Nm"`, anything else as `"Ns"`.
pub open spec fn spec_autosave_label(secs: nat) -> Seq<char> {
    if secs == 0 {
        seq!['O', 'f', 'f']
    } else if secs % 60 == 0 {
        dec_str(secs / 60) + seq!['m']
    } else {
        dec_str(secs) + seq!['s']
    }
}

/// The auto-save interval's display label.
pub fn autosave_label(secs: u32) -> (s: String)
    ensures
        s@ == spec_autosave_label(secs as nat),
{
    proof {
        reveal_strlit("Off");
        reveal_strlit("m");
        reveal_strlit("s");
    }
    if secs == 0 {
        "Off".to_owned()
    } else if secs % 60 == 0 {
        let mut s = decimal((secs / 60) as u128);
        s.append("m");
        s
    } else {
        let mut s = decimal(secs as u128);
        s.append("s");
        s
    }
}

/// The auto-save intervals the stepper cycles through, in seconds.
pub open spec fn autosave_presets() -> Seq<u32> {
    seq![0u32, 30, 60, 300]
}

/// What the stepper's two buttons set, and whether each is enabled.
#[derive(Clone, Copy, Debug, PartialEq, Eq)]
pub struct Stepper<T> {
    pub dec: T,
    pub inc: T,
    pub dec_enabled: bool,
    pub inc_enabled: bool,
}

/// Position of `secs` among the presets (an unknown value counts as the
/// first preset).
pub open spec fn preset_index(secs: u32) -> int {
    if secs == 0 {
        0
    } else if secs == 30 {
        1
    } else if secs == 60 {
        2
    } else if secs == 300 {
        3
    } else {
        0
    }
}

/// One preset down and one up from the current one, clamped to the
/// ends, each button enabled only when it moves.
pub open spec fn spec_autosave_stepper(secs: u32) -> Stepper<u32> {
    let i = preset_index(secs);
    Stepper {
        dec: autosave_presets()[if i > 0 { i - 1 } else { 0 }],
        inc: autosave_presets()[if i + 1 < 4 { i + 1 } else { 3 }],
        dec_enabled: i > 0,
        inc_enabled: i + 1 < 4,
    }
}

/// Law: on every preset but the last, stepping up and then down comes
/// back to it; on every preset but the first, stepping down and then up
/// does.
pub proof fn lemma_autosave_steps_invert(secs: u32)
    requires
        autosave_presets().contains(secs),
    ensures
        spec_autosave_stepper(secs).inc_enabled ==> spec_autosave_stepper(
            spec_autosave_stepper(secs).inc,
        ).dec == secs,
        spec_autosave_stepper(secs).dec_enabled ==> spec_autosave_stepper(
            spec_autosave_stepper(secs).dec,
        ).inc == secs,
{
    let k = choose|k: int| 0 <= k < autosave_presets().len() && autosave_presets()[k] == secs;
    assert(autosave_presets()[0] == 0 && autosave_presets()[1] == 30 && autosave_presets()[2] == 60
        && autosave_presets()[3] == 300);
}

/// The auto-save stepper around the interval `secs`.
pub fn autosave_stepper(secs: u32) -> (st: Stepper<u32>)
    ensures
        st == spec_autosave_stepper(secs),
{
    let presets: [u32; 4] = [0, 30, 60, 300];
    let idx: usize = if secs == 0 {
        0
    } else if secs == 30 {
        1
    } else if secs == 60 {
        2
    } else if secs == 300 {
        3
    } else {
        0
    };
    proof {
        assert(presets@ =~= autosave_presets());
    }
    let dec = presets[if idx > 0 { idx - 1 } else { 0 }];
    let inc = presets[if idx + 1 < 4 { idx + 1 } else { 3 }];
    Stepper { dec, inc, dec_enabled: idx > 0, inc_enabled: idx + 1 < 4 }
}

/// `v` clamped into `[lo, hi]`.
pub open spec fn clamp(v: int, lo: int, hi: int) -> int {
    if v < lo {
        lo
    } else if v > hi {
        hi
    } else {
        v
    }
}

/// An integer setting's stepper (the tab size): one `step` down or up,
/// saturating at the integer's range and clamped to `[min, max]`; each
/// button enabled while the value is still inside that bound.
pub fn int_stepper(value: u32, step: u32, min: u32, max: u32) -> (st: Stepper<u32>)
    requires
        min <= max,
    ensures
        st.dec == clamp(if value >= step { value - step } else { 0 }, min as int, max as int),
        st.inc == clamp(
            if value + step <= u32::MAX { value + step } else { u32::MAX as int },
            min as int,
            max as int,
        ),
        st.dec_enabled == (value > min),
        st.inc_enabled == (value < max),
{
    let down = value.saturating_sub(step);
    let up = value.saturating_add(step);
    let dec = if down < min { min } else if down > max { max } else { down };
    let inc = if up < min { min } else if up > max { max } else { up };
    Stepper { dec, inc, dec_enabled: value > min, inc_enabled: value < max }
}

/// The channel of an RGB colour a slider edits: 0 red, 1 green, anything
/// else blue.
pub open spec fn spec_channel(rgb: (u8, u8, u8), channel: u8) -> u8 {
    if channel == 0 {
        rgb.0
    } else if channel == 1 {
        rgb.1
    } else {
        rgb.2
    }
}

/// `rgb` with the channel `channel` set to `v`, the other two kept.
pub open spec fn spec_set_channel(rgb: (u8, u8, u8), channel: u8, v: u8) -> (u8, u8, u8) {
    if channel == 0 {
        (v, rgb.1, rgb.2)
    } else if channel == 1 {
        (rgb.0, v, rgb.2)
    } else {
        (rgb.0, rgb.1, v)
    }
}

/// The value a channel slider of the custom accent picker shows.
pub fn channel_value(rgb: (u8, u8, u8), channel: u8) -> (v: u8)
    ensures
        v == spec_channel(rgb, channel),
{
    if channel == 0 {
        rgb.0
    } else if channel == 1 {
        rgb.1
    } else {
        rgb.2
    }
}

/// The draft colour once a channel slider is dragged to `v`.
pub fn with_channel(rgb: (u8, u8, u8), channel: u8, v: u8) -> (r: (u8, u8, u8))
    ensures
        r == spec_set_channel(rgb, channel, v),
{
    if channel == 0 {
        (v, rgb.1, rgb.2)
    } else if channel == 1 {
        (rgb.0, v, rgb.2)
    } else {
        (rgb.0, rgb.1, v)
    }
}

/// Law: dragging a channel's slider to `v` makes that slider show `v` and
/// leaves the sliders of the other channels as they were.
pub proof fn lemma_channel_read_after_write(rgb: (u8, u8, u8), channel: u8, other: u8, v: u8)
    ensures
        spec_channel(spec_set_channel(rgb, channel, v), channel) == v,
        spec_channel(spec_set_channel(rgb, channel, v), other) == (if spec_channel_index(other)
            == spec_channel_index(channel) {
            v
        } else {
            spec_channel(rgb, other)
        }),
{
}

/// Which of the three channels `channel` selects.
pub open spec fn spec_channel_index(channel: u8) -> int {
    if channel <= 1 {
        channel as int
    } else {
        2
    }
}

} // verus!
