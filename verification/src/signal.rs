//! The video signal descriptions the driver reports to the system for each
//! (resolution, refresh rate) pair of a monitor.

use vstd::prelude::*;

use crate::model::{modes_view, Dimen, Mode, ModeView, RefreshRate};

verus! {

/// One (resolution, refresh rate) pair of a monitor.
#[derive(Debug, Clone, Copy, PartialEq, Eq, Structural)]
pub struct ModeItem {
    pub width: Dimen,
    pub height: Dimen,
    pub refresh_rate: RefreshRate,
}

/// A rational number.
#[derive(Debug, Clone, Copy, PartialEq, Eq, Structural)]
pub struct Rational {
    pub numerator: u32,
    pub denominator: u32,
}

/// A size in pixels.
#[derive(Debug, Clone, Copy, PartialEq, Eq, Structural)]
pub struct Region {
    pub cx: u32,
    pub cy: u32,
}

/// A video signal description: pixel clock, horizontal and vertical sync
/// frequencies, active and total sizes, the video standard and the vertical
/// sync divider.
#[derive(Debug, Clone, Copy, PartialEq, Eq, Structural)]
pub struct VideoSignalInfo {
    pub pixel_rate: u64,
    pub h_sync_freq: Rational,
    pub v_sync_freq: Rational,
    pub active_size: Region,
    pub total_size: Region,
    pub video_standard: u32,
    pub v_sync_freq_divider: u32,
}

/// The pairs of a list of modes: each mode's refresh rates in order, modes
/// in order.
pub open spec fn flatten_spec(ms: Seq<ModeView>) -> Seq<ModeItem>
    decreases ms.len(),
{
    if ms.len() == 0 {
        Seq::empty()
    } else {
        let m = ms.last();
        flatten_spec(ms.drop_last()) + m.refresh_rates.map_values(
            |r: RefreshRate| ModeItem { width: m.width, height: m.height, refresh_rate: r },
        )
    }
}

/// The number of (resolution, refresh rate) pairs of a list of modes.
pub open spec fn pair_count(ms: Seq<ModeView>) -> int
    decreases ms.len(),
{
    if ms.len() == 0 {
        0
    } else {
        pair_count(ms.drop_last()) + ms.last().refresh_rates.len()
    }
}

/// The pairs of a list of modes are as many as the pair count.
pub proof fn lemma_flatten_len(ms: Seq<ModeView>)
    ensures
        flatten_spec(ms).len() == pair_count(ms),
    decreases ms.len(),
{
    if ms.len() > 0 {
        lemma_flatten_len(ms.drop_last());
    }
}

/// Every (resolution, refresh rate) pair of the modes, in order.
/// The (resolution, refresh rate) pairs of a list of modes, in order.
pub fn flatten(modes: &[Mode]) -> (res: Vec<ModeItem>)
    ensures
        res@ == flatten_spec(modes_view(modes@)),
{
    let ghost ms = modes_view(modes@);
    let mut res: Vec<ModeItem> = Vec::new();
    for i in 0..modes.len()
        invariant
            ms == modes_view(modes@),
            res@ == flatten_spec(ms.take(i as int)),
    {
        let m = &modes[i];
        let ghost before = res@;
        let ghost items = m@.refresh_rates.map_values(
            |r: RefreshRate| ModeItem { width: m.width, height: m.height, refresh_rate: r },
        );
        for j in 0..m.refresh_rates.len()
            invariant
                res@ == before + items.take(j as int),
                items == m@.refresh_rates.map_values(
                    |r: RefreshRate| ModeItem { width: m.width, height: m.height, refresh_rate: r },
                ),
        {
            res.push(ModeItem { width: m.width, height: m.height, refresh_rate: m.refresh_rates[j] });
            assert(res@ =~= before + items.take(j + 1));
        }
        assert(items.take(m.refresh_rates.len() as int) =~= items);
        assert(ms.take(i + 1).drop_last() =~= ms.take(i as int));
        assert(ms.take(i + 1).last() == m@);
    }
    assert(ms.take(modes.len() as int) =~= ms);
    res
}

/// Lists of modes that can be walked as (resolution, refresh rate) pairs.
pub trait FlattenModes {
    /// The pairs, in order.
    spec fn flattened(&self) -> Seq<ModeItem>;

    /// The pairs, in order.
    fn flatten(&self) -> (res: Vec<ModeItem>)
        ensures
            res@ == self.flattened(),
    ;
}

impl FlattenModes for Vec<Mode> {
    open spec fn flattened(&self) -> Seq<ModeItem> {
        flatten_spec(modes_view(self@))
    }

    fn flatten(&self) -> (res: Vec<ModeItem>) {
        flatten(self.as_slice())
    }
}

/// How many (resolution, refresh rate) pairs the modes have; the count the
/// driver reports before filling the system's buffer.
pub fn mode_count(modes: &[Mode]) -> (n: u32)
    requires
        pair_count(modes_view(modes@)) <= u32::MAX,
    ensures
        n == pair_count(modes_view(modes@)),
{
    let ghost ms = modes_view(modes@);
    let mut n: u32 = 0;
    let mut i: usize = 0;
    while i < modes.len()
        invariant
            ms == modes_view(modes@),
            i <= modes@.len(),
            n == pair_count(ms.take(i as int)),
            pair_count(ms) <= u32::MAX,
        decreases modes@.len() - i,
    {
        assert(ms.take(i + 1).drop_last() =~= ms.take(i as int));
        assert(ms.take(i + 1).last() == modes@[i as int]@);
        proof {
            lemma_pair_count_prefix(ms, i + 1);
        }
        let c = modes[i].refresh_rates.len();
        n = n + c as u32;
        i = i + 1;
    }
    assert(ms.take(modes.len() as int) =~= ms);
    n
}

/// The pair count of a prefix is at most that of the whole list.
proof fn lemma_pair_count_prefix(ms: Seq<ModeView>, k: int)
    requires
        0 <= k <= ms.len(),
    ensures
        pair_count(ms.take(k)) <= pair_count(ms),
    decreases ms.len() - k,
{
    if k < ms.len() {
        lemma_pair_count_prefix(ms, k + 1);
        assert(ms.take(k + 1).drop_last() =~= ms.take(k));
    } else {
        assert(ms.take(k) =~= ms);
    }
}

/// What a mode query does with the caller's buffer.
#[derive(Debug, Clone, Copy, PartialEq, Eq, Structural)]
pub enum BufferAction {
    /// The buffer is too small for the modes: the query fails.
    TooSmall,
    /// No buffer was given: only the count is reported.
    CountOnly,
    /// The buffer holds all the modes: they are written to it.
    Fill,
}

/// The decision on a monitor description query: the count is always
/// reported; the modes are written when the buffer holds them all, and a
/// non-empty buffer that is too small is an error.
pub fn description_buffer_action(buffer_count: u32, mode_count: u32) -> (res: BufferAction)
    ensures
        res == (if buffer_count < mode_count {
            if buffer_count > 0 {
                BufferAction::TooSmall
            } else {
                BufferAction::CountOnly
            }
        } else {
            BufferAction::Fill
        }),
{
    if buffer_count < mode_count {
        if buffer_count > 0 {
            BufferAction::TooSmall
        } else {
            BufferAction::CountOnly
        }
    } else {
        BufferAction::Fill
    }
}

/// The decision on a target mode query: the modes are written when the
/// buffer holds them all; otherwise only the count is reported.
pub fn target_buffer_action(buffer_count: u32, mode_count: u32) -> (res: BufferAction)
    ensures
        res == (if buffer_count >= mode_count {
            BufferAction::Fill
        } else {
            BufferAction::CountOnly
        }),
{
    if buffer_count >= mode_count {
        BufferAction::Fill
    } else {
        BufferAction::CountOnly
    }
}

/// The monitor description signal of a mode: a 4 pixel blanking on each
/// axis, and a pixel clock of `refresh_rate * (height + 4)^2 + 1000`.
pub fn display_info(width: u32, height: u32, refresh_rate: u32) -> (res: VideoSignalInfo)
    requires
        width + 4 <= u32::MAX,
        height + 4 <= u32::MAX,
        (height + 4) * (height + 4) <= u32::MAX,
        refresh_rate * (height + 4) * (height + 4) + 1000 <= u32::MAX,
    ensures
        res.pixel_rate == refresh_rate * (height + 4) * (height + 4) + 1000,
        res.h_sync_freq == (Rational {
            numerator: (refresh_rate * (height + 4) * (height + 4) + 1000) as u32,
            denominator: (height + 4) as u32,
        }),
        res.v_sync_freq == (Rational {
            numerator: (refresh_rate * (height + 4) * (height + 4) + 1000) as u32,
            denominator: ((height + 4) * (height + 4)) as u32,
        }),
        res.active_size == (Region { cx: width, cy: height }),
        res.total_size == (Region { cx: (width + 4) as u32, cy: (height + 4) as u32 }),
        res.video_standard == 255,
        res.v_sync_freq_divider == 0,
{
    let h4: u32 = height + 4;
    assert(h4 <= h4 * h4) by (nonlinear_arith)
        requires
            h4 >= 4,
    ;
    assert(refresh_rate * h4 <= refresh_rate * h4 * h4) by (nonlinear_arith)
        requires
            h4 >= 4,
    ;
    let clock_rate = refresh_rate * h4 * h4 + 1000;
    VideoSignalInfo {
        pixel_rate: clock_rate as u64,
        h_sync_freq: Rational { numerator: clock_rate, denominator: h4 },
        v_sync_freq: Rational { numerator: clock_rate, denominator: h4 * h4 },
        active_size: Region { cx: width, cy: height },
        total_size: Region { cx: width + 4, cy: h4 },
        video_standard: 255,
        v_sync_freq_divider: 0,
    }
}

/// The target mode signal of a mode: no blanking, a pixel clock of
/// `refresh_rate * width * height`, a horizontal sync of
/// `refresh_rate * height` and a vertical sync of `refresh_rate`.
pub fn target_mode(width: u32, height: u32, refresh_rate: u32) -> (res: VideoSignalInfo)
    requires
        refresh_rate * width * height <= u64::MAX,
        refresh_rate * height <= u32::MAX,
    ensures
        res.pixel_rate == refresh_rate * width * height,
        res.h_sync_freq == (Rational { numerator: (refresh_rate * height) as u32, denominator: 1 }),
        res.v_sync_freq == (Rational { numerator: refresh_rate, denominator: 1 }),
        res.active_size == (Region { cx: width, cy: height }),
        res.total_size == (Region { cx: width, cy: height }),
        res.video_standard == 255,
        res.v_sync_freq_divider == 1,
{
    let r = refresh_rate as u64;
    let w = width as u64;
    let h = height as u64;
    assert(r * w <= r * w * h || h == 0) by (nonlinear_arith)
        requires
            h >= 0,
    ;
    let rw: u64 = if h == 0 {
        assert(r * w <= u32::MAX * u32::MAX) by (nonlinear_arith)
            requires
                r <= u32::MAX,
                w <= u32::MAX,
        ;
        r * w
    } else {
        assert(r * w <= r * w * h) by (nonlinear_arith)
            requires
                h >= 1,
        ;
        r * w
    };
    let pixel_rate = rw * h;
    VideoSignalInfo {
        pixel_rate,
        h_sync_freq: Rational { numerator: refresh_rate * height, denominator: 1 },
        v_sync_freq: Rational { numerator: refresh_rate, denominator: 1 },
        active_size: Region { cx: width, cy: height },
        total_size: Region { cx: width, cy: height },
        video_standard: 255,
        v_sync_freq_divider: 1,
    }
}

} // verus!
