//! The UEFI platform: the firmware console's text and the choice of a
//! graphics mode.
use vstd::prelude::*;
use vstd::string::StringSliceAdditionalSpecFns;
use crate::uefi::GopModeInfo;

verus! {

/// The UCS-2 units the firmware console is given for `text`, one per byte,
/// each line feed preceded by a carriage return.
pub open spec fn console_units(text: Seq<u8>) -> Seq<u16>
    decreases text.len(),
{
    if text.len() == 0 {
        Seq::empty()
    } else {
        let last = text.last();
        console_units(text.drop_last()) + if last == 0x0a {
            seq![0x0du16, 0x0a]
        } else {
            seq![last as u16]
        }
    }
}

/// The firmware console gets one unit per byte of text without line
/// feeds, each the byte's value; a line feed becomes a carriage return and
/// a line feed; and text written in two parts gets what it gets whole.
pub proof fn lemma_console_units(a: Seq<u8>, b: Seq<u8>)
    ensures
        (forall|i: int| 0 <= i < a.len() ==> #[trigger] a[i] != 0x0a) ==> console_units(a).len() == a.len()
            && forall|i: int| 0 <= i < a.len() ==> #[trigger] console_units(a)[i] == a[i] as u16,
        console_units(seq![0x0au8]) == seq![0x0du16, 0x0a],
        console_units(a + b) == console_units(a) + console_units(b),
    decreases a.len() + b.len(),
{
    if b.len() > 0 {
        lemma_console_units(a, b.drop_last());
        assert((a + b).drop_last() =~= a + b.drop_last());
        assert((a + b).last() == b.last());
        let tail = if b.last() == 0x0a {
            seq![0x0du16, 0x0a]
        } else {
            seq![b.last() as u16]
        };
        assert(console_units(a) + console_units(b.drop_last()) + tail =~= console_units(a) + (console_units(
            b.drop_last(),
        ) + tail));
    } else {
        assert(a + b =~= a);
        assert(console_units(a) + console_units(b) =~= console_units(a));
        if a.len() > 0 {
            lemma_console_units(a.drop_last(), b);
            if forall|i: int| 0 <= i < a.len() ==> #[trigger] a[i] != 0x0a {
                assert(forall|i: int| 0 <= i < a.drop_last().len() ==> #[trigger] a.drop_last()[i] == a[i]);
            }
        }
    }
    assert(seq![0x0au8].drop_last() =~= Seq::<u8>::empty());
    assert(console_units(Seq::<u8>::empty()) == Seq::<u16>::empty());
    assert(console_units(seq![0x0au8]) == console_units(seq![0x0au8].drop_last()) + seq![0x0du16, 0x0a]);
    assert(Seq::<u16>::empty() + seq![0x0du16, 0x0a] =~= seq![0x0du16, 0x0a]);
}

/// The units the firmware console is given for `text`.
pub fn debug_write(text: &str) -> (units: Vec<u16>)
    ensures
        units@ == console_units(text.spec_bytes()),
{
    let bytes = text.as_bytes();
    let mut units: Vec<u16> = Vec::new();
    let mut index: usize = 0;
    while index < bytes.len()
        invariant
            bytes@ == text.spec_bytes(),
            index <= bytes@.len(),
            units@ == console_units(bytes@.subrange(0, index as int)),
        decreases bytes@.len() - index,
    {
        assert(bytes@.subrange(0, index + 1).drop_last() =~= bytes@.subrange(0, index as int));
        if bytes[index] == 0x0a {
            units.push(0x0d);
        }
        units.push(bytes[index] as u16);
        index = index + 1;
    }
    assert(bytes@.subrange(0, bytes@.len() as int) =~= bytes@);
    units
}

/// The units the firmware console is given for a last message.
pub fn emergency_write(text: &str) -> (units: Vec<u16>)
    ensures
        units@ == console_units(text.spec_bytes()),
{
    debug_write(text)
}

/// A mode the terminal can draw on: direct RGB or BGR pixels, at least
/// 800x600.
pub open spec fn mode_usable(info: GopModeInfo) -> bool {
    info.pixel_format <= 1 && info.horizontal_resolution >= 800 && info.vertical_resolution >= 600
}

/// How much a mode is wanted: 1024x768 above all, then the larger area up
/// to 1920x1080; unusable modes not at all.
pub open spec fn mode_score(info: GopModeInfo) -> u64 {
    if !mode_usable(info) {
        0
    } else if info.horizontal_resolution == 1024 && info.vertical_resolution == 768 {
        u64::MAX
    } else {
        vstd::math::min(
            info.horizontal_resolution * info.vertical_resolution,
            2_073_600int,
        ) as u64
    }
}

/// The mode chosen among `modes` (the ones the firmware described, by
/// number) and its score: the first with the highest score, or `current`
/// when none is usable.
pub open spec fn preferred(current: u32, modes: Seq<Option<GopModeInfo>>) -> (u32, u64)
    decreases modes.len(),
{
    if modes.len() == 0 {
        (current, 0)
    } else {
        let best = preferred(current, modes.drop_last());
        match modes.last() {
            Some(info) => if mode_score(info) > best.1 {
                ((modes.len() - 1) as u32, mode_score(info))
            } else {
                best
            },
            None => best,
        }
    }
}

/// The mode chosen is the firmware's current one while no mode is usable;
/// otherwise it is a usable mode (direct RGB or BGR, at least 800x600)
/// whose score no other mode beats.
pub proof fn lemma_preferred_mode(current: u32, modes: Seq<Option<GopModeInfo>>)
    requires
        modes.len() <= u32::MAX,
    ensures
        ({
            let (mode, best) = preferred(current, modes);
            &&& best == 0 ==> mode == current
            &&& best > 0 ==> mode < modes.len() && modes[mode as int] is Some && mode_usable(
                modes[mode as int].unwrap(),
            ) && mode_score(modes[mode as int].unwrap()) == best
            &&& forall|i: int|
                0 <= i < modes.len() && #[trigger] modes[i] is Some ==> mode_score(modes[i].unwrap())
                    <= best
        }),
    decreases modes.len(),
{
    if modes.len() > 0 {
        let prefix = modes.drop_last();
        lemma_preferred_mode(current, prefix);
        let (m0, b0) = preferred(current, prefix);
        assert forall|i: int| 0 <= i < prefix.len() implies #[trigger] modes[i] == prefix[i] by {}
        if b0 > 0 {
            assert(modes[m0 as int] == prefix[m0 as int]);
        }
        let (mode, best) = preferred(current, modes);
        assert forall|i: int|
            0 <= i < modes.len() && #[trigger] modes[i] is Some implies mode_score(modes[i].unwrap())
                <= best by {
            if i < prefix.len() {
                assert(modes[i] == prefix[i]);
            }
        }
    }
}

/// The choice of mode in plain terms: a direct RGB or BGR 1024x768 mode is
/// taken whenever the firmware offers one; otherwise, among the direct
/// modes of at least 800x600, one with more pixels (counted up to
/// 1920x1080) is taken over one with fewer; and modes that are not direct
/// or are smaller than 800x600 are never taken.
pub proof fn lemma_mode_choice(current: u32, modes: Seq<Option<GopModeInfo>>, i: int)
    requires
        modes.len() <= u32::MAX,
        0 <= i < modes.len(),
        modes[i] is Some,
    ensures
        ({
            let mode = preferred(current, modes).0;
            let m = modes[i].unwrap();
            let w = m.horizontal_resolution as int;
            let h = m.vertical_resolution as int;
            let c = modes[mode as int].unwrap();
            let cw = c.horizontal_resolution as int;
            let ch = c.vertical_resolution as int;
            &&& m.pixel_format <= 1 && w == 1024 && h == 768 ==> (0 <= mode < modes.len()
                && modes[mode as int] is Some && c.pixel_format <= 1 && cw == 1024 && ch == 768)
            &&& m.pixel_format <= 1 && w >= 800 && h >= 600 ==> (0 <= mode < modes.len()
                && modes[mode as int] is Some && c.pixel_format <= 1 && cw >= 800 && ch >= 600 && (
            (cw == 1024 && ch == 768) || vstd::math::min(w * h, 2_073_600int) <= vstd::math::min(
                cw * ch,
                2_073_600int,
            )))
        }),
{
    lemma_preferred_mode(current, modes);
    let m = modes[i].unwrap();
    let w = m.horizontal_resolution as int;
    let h = m.vertical_resolution as int;
    if m.pixel_format <= 1 && w >= 800 && h >= 600 {
        assert(w * h >= 800 * 600) by (nonlinear_arith)
            requires
                w >= 800,
                h >= 600,
        ;
        assert(mode_score(m) > 0);
        let mode = preferred(current, modes).0;
        let c = modes[mode as int].unwrap();
        let cw = c.horizontal_resolution as int;
        let ch = c.vertical_resolution as int;
        if !(cw == 1024 && ch == 768) {
            assert(cw * ch <= u32::MAX * u32::MAX) by (nonlinear_arith)
                requires
                    0 <= cw <= u32::MAX,
                    0 <= ch <= u32::MAX,
            ;
        }
    }
}

fn score(info: &GopModeInfo) -> (value: u64)
    ensures
        value == mode_score(*info),
{
    if !(info.pixel_format <= 1 && info.horizontal_resolution >= 800 && info.vertical_resolution
        >= 600) {
        0
    } else if info.horizontal_resolution == 1024 && info.vertical_resolution == 768 {
        u64::MAX
    } else {
        let h = info.horizontal_resolution as u64;
        let v = info.vertical_resolution as u64;
        assert(h * v <= u64::MAX) by (nonlinear_arith)
            requires
                h <= u32::MAX,
                v <= u32::MAX,
        ;
        let area = h * v;
        if area < 1_920 * 1_080 {
            area
        } else {
            1_920 * 1_080
        }
    }
}

/// Chooses the graphics mode: `modes[i]` is what the firmware said of mode
/// `i`, or none when it could not be queried.
pub fn preferred_mode(current: u32, modes: &[Option<GopModeInfo>]) -> (mode: u32)
    requires
        modes@.len() <= u32::MAX,
    ensures
        mode == preferred(current, modes@).0,
{
    let mut best: u32 = current;
    let mut best_score: u64 = 0;
    let mut index: usize = 0;
    while index < modes.len()
        invariant
            modes@.len() <= u32::MAX,
            index <= modes@.len(),
            (best, best_score) == preferred(current, modes@.subrange(0, index as int)),
        decreases modes@.len() - index,
    {
        assert(modes@.subrange(0, index + 1).drop_last() =~= modes@.subrange(0, index as int));
        match &modes[index] {
            Some(info) => {
                let value = score(info);
                if value > best_score {
                    best = index as u32;
                    best_score = value;
                }
            },
            None => {},
        }
        index = index + 1;
    }
    assert(modes@.subrange(0, modes@.len() as int) =~= modes@);
    best
}

/// Where and how the terminal draws in the firmware's current mode.
#[derive(PartialEq, Eq, Structural, Debug, Clone, Copy)]
pub struct GopFramebuffer {
    pub address: usize,
    pub width: usize,
    pub height: usize,
    pub pitch: usize,
    /// Red in the low byte of a pixel; blue there otherwise.
    pub rgb: bool,
}

/// The framebuffer of the current mode, described by `info` and mapped at
/// `base`: none when the mode is unknown, unmapped, not direct RGB/BGR or
/// smaller than 800x600.
pub open spec fn spec_mode_framebuffer(info: Option<GopModeInfo>, base: u64) -> Option<GopFramebuffer> {
    match info {
        Some(i) => if base == 0 || !mode_usable(i) {
            None
        } else {
            Some(
                GopFramebuffer {
                    address: base as usize,
                    width: i.horizontal_resolution as usize,
                    height: i.vertical_resolution as usize,
                    pitch: (i.pixels_per_scan_line * 4) as usize,
                    rgb: i.pixel_format == 0,
                },
            )
        },
        None => None,
    }
}

/// The framebuffer of the current mode.
pub fn mode_framebuffer(info: Option<GopModeInfo>, base: u64) -> (framebuffer: Option<GopFramebuffer>)
    ensures
        framebuffer == spec_mode_framebuffer(info, base),
{
    match info {
        Some(i) => {
            if base == 0 || i.pixel_format > 1 || i.horizontal_resolution < 800
                || i.vertical_resolution < 600 {
                None
            } else {
                let pitch = i.pixels_per_scan_line as u64 * 4;
                Some(
                    GopFramebuffer {
                        address: base as usize,
                        width: i.horizontal_resolution as usize,
                        height: i.vertical_resolution as usize,
                        pitch: pitch as usize,
                        rgb: i.pixel_format == 0,
                    },
                )
            }
        },
        None => None,
    }
}

} // verus!
