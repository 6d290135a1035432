//! Multi-client planning: which monitor holds the managed windows, the
//! tiles each slot gets, and the status of a profile's MULTI accounts.

use vstd::prelude::*;
use crate::layout::{
    GridCell, LayoutError, SignedRect, center_rect, grid_rects, grid_slot, is_grid_of,
    layout_error_text, rect_height, rect_width, split_2x2, split_2x2_with_center, split_outcome_ok,
};
use crate::profile::SecondaryLayoutPreset;
use crate::broker::BrokerSessionDiagnostic;
use crate::session::{AccountStateCounts, ActiveProcessIdentity, RegistrySnapshot, RuntimeSessionId};
use crate::text::{seq_lt, str_eq, str_lt};
use crate::windows::{
    MonitorDescriptor, MonitorEnumeration, ProcessWindowInspection, SavedWindowPlacement, WindowActionResult,
};

verus! {

/// Environment variable that enables the Stage 0 diagnostics.
pub const STAGE0_ENV_VAR: &'static str = "GGO_MULTICLIENT_STAGE0";

#[derive(Debug, Clone, Copy, PartialEq, Eq, Structural)]
pub struct MultiSessionStatus {
    pub selected_count: usize,
    pub active_count: usize,
    pub pending_count: usize,
    pub untracked_count: usize,
    pub missing_count: usize,
}

/// A window tile handed to a client: position and size in pixels.
#[derive(Debug, Clone, Copy, PartialEq, Eq, Structural)]
pub struct ManagedTile {
    pub left: i32,
    pub top: i32,
    pub width: i32,
    pub height: i32,
}

#[derive(Debug, Clone)]
pub struct PositionOnlyTarget {
    pub monitor_device_name: String,
    pub slot: &'static str,
    pub left: i32,
    pub top: i32,
}

#[derive(Debug, Clone)]
pub struct MonitorDryRunDiagnostic {
    pub monitor: MonitorDescriptor,
    pub cells: Option<[GridCell; 4]>,
    pub layout_error: Option<String>,
}

pub fn multi_session_status_from_counts(counts: AccountStateCounts) -> (s: MultiSessionStatus)
    ensures
        s.selected_count == counts.selected,
        s.active_count == counts.active,
        s.pending_count == counts.pending,
        s.untracked_count == counts.untracked,
        s.missing_count == counts.missing,
{
    MultiSessionStatus {
        selected_count: counts.selected,
        active_count: counts.active,
        pending_count: counts.pending,
        untracked_count: counts.untracked,
        missing_count: counts.missing,
    }
}

/// The feature flag is on only for the exact value "1".
pub fn stage0_enabled_from_value(value: Option<&str>) -> (b: bool)
    ensures
        b == (value matches Some(v) && v@ == "1"@),
{
    match value {
        Some(v) => str_eq(v, "1"),
        None => false,
    }
}

/// Work-area size of a monitor, in square pixels.
pub open spec fn monitor_area(m: MonitorDescriptor) -> int {
    rect_width(m.work_area) * rect_height(m.work_area)
}

/// `a` ranks above `b` as a secondary monitor: larger work area first, and
/// for equal areas the device name that sorts first.
pub open spec fn monitor_ranks_above(a: MonitorDescriptor, b: MonitorDescriptor) -> bool {
    monitor_area(a) > monitor_area(b) || (monitor_area(a) == monitor_area(b) && seq_lt(
        a.device_name@,
        b.device_name@,
    ))
}

/// The secondary monitor among the first `n` monitors: the highest ranked
/// non-primary monitor, the later one of two that rank alike.
pub open spec fn best_secondary_in(ms: Seq<MonitorDescriptor>, n: int) -> Option<int>
    decreases n,
{
    if n <= 0 {
        None
    } else {
        let prev = best_secondary_in(ms, n - 1);
        if ms[n - 1].is_primary {
            prev
        } else {
            match prev {
                None => Some(n - 1),
                Some(i) => if monitor_ranks_above(ms[i], ms[n - 1]) {
                    Some(i)
                } else {
                    Some(n - 1)
                },
            }
        }
    }
}

pub open spec fn best_secondary(ms: Seq<MonitorDescriptor>) -> Option<int> {
    best_secondary_in(ms, ms.len() as int)
}

/// Every monitor's work-area size fits an `i64`.
pub open spec fn areas_fit(ms: Seq<MonitorDescriptor>) -> bool {
    forall|i: int|
        0 <= i < ms.len() ==> i64::MIN <= #[trigger] monitor_area(ms[i]) <= i64::MAX
}

/// The refusal of a monitor list whose work-area sizes cannot be measured.
pub open spec fn unmeasurable_text() -> Seq<char> {
    "monitor work area is too large to measure"@
}

/// Passes a monitor enumeration on when every work-area size fits an `i64`,
/// the measure by which monitors are ranked.
pub fn measurable_monitors(monitors: Result<MonitorEnumeration, String>) -> (r: Result<MonitorEnumeration, String>)
    ensures
        match monitors {
            Err(e) => r == Err::<MonitorEnumeration, String>(e),
            Ok(en) => if areas_fit(en.monitors@) {
                r == Ok::<MonitorEnumeration, String>(en)
            } else {
                r matches Err(e) && e@ == unmeasurable_text()
            },
        },
{
    match monitors {
        Err(e) => Err(e),
        Ok(en) => if all_areas_fit(&en.monitors) {
            Ok(en)
        } else {
            proof {
                reveal_strlit("monitor work area is too large to measure");
            }
            Err(String::from_str("monitor work area is too large to measure"))
        },
    }
}

fn all_areas_fit(ms: &Vec<MonitorDescriptor>) -> (b: bool)
    ensures
        b == areas_fit(ms@),
{
    let mut i: usize = 0;
    while i < ms.len()
        invariant
            i <= ms@.len(),
            forall|j: int| 0 <= j < i ==> i64::MIN <= #[trigger] monitor_area(ms@[j]) <= i64::MAX,
        decreases ms@.len() - i,
    {
        let area = ms[i].work_area;
        let w = area.width();
        let h = area.height();
        proof {
            let (a, b) = (w as int, h as int);
            assert(-0x4000_0000_0000_0000_0000_0000_0000_0000 <= a * b <= 0x4000_0000_0000_0000_0000_0000_0000_0000) by (nonlinear_arith)
                requires
                    -0x8000_0000_0000_0000 <= a <= 0x7fff_ffff_ffff_ffff,
                    -0x8000_0000_0000_0000 <= b <= 0x7fff_ffff_ffff_ffff,
            ;
        }
        let product = (w as i128) * (h as i128);
        if product < i64::MIN as i128 || product > i64::MAX as i128 {
            assert(monitor_area(ms@[i as int]) == w * h);
            return false;
        }
        i = i + 1;
    }
    true
}

proof fn lemma_best_secondary_bounds(ms: Seq<MonitorDescriptor>, n: int)
    requires
        0 <= n <= ms.len(),
    ensures
        best_secondary_in(ms, n) matches Some(i) ==> 0 <= i < n && !ms[i].is_primary,
    decreases n,
{
    if n > 0 {
        lemma_best_secondary_bounds(ms, n - 1);
    }
}

fn work_area_size(m: &MonitorDescriptor) -> (a: i64)
    requires
        i64::MIN <= monitor_area(*m) <= i64::MAX,
    ensures
        a == monitor_area(*m),
{
    let w = m.work_area.width();
    let h = m.work_area.height();
    w * h
}

/// Picks the secondary monitor: the non-primary monitor with the largest
/// work area (ties broken by device name).
pub fn best_secondary_monitor(monitors: &Vec<MonitorDescriptor>) -> (r: Option<usize>)
    requires
        areas_fit(monitors@),
    ensures
        match r {
            Some(i) => best_secondary(monitors@) == Some(i as int),
            None => best_secondary(monitors@) is None,
        },
{
    let mut best: Option<usize> = None;
    let mut i: usize = 0;
    while i < monitors.len()
        invariant
            i <= monitors@.len(),
            areas_fit(monitors@),
            match best {
                Some(b) => best_secondary_in(monitors@, i as int) == Some(b as int),
                None => best_secondary_in(monitors@, i as int) is None,
            },
        decreases monitors@.len() - i,
    {
        proof {
            lemma_best_secondary_bounds(monitors@, i as int);
        }
        if !monitors[i].is_primary {
            match best {
                None => {
                    best = Some(i);
                },
                Some(b) => {
                    let area_b = work_area_size(&monitors[b]);
                    let area_i = work_area_size(&monitors[i]);
                    let keep = area_b > area_i || (area_b == area_i && str_lt(
                        monitors[b].device_name.as_str(),
                        monitors[i].device_name.as_str(),
                    ));
                    if !keep {
                        best = Some(i);
                    }
                },
            }
        }
        i = i + 1;
    }
    best
}

/// The chosen secondary monitor is not primary, and no non-primary monitor
/// ranks above it.
pub proof fn lemma_best_secondary_is_maximal(ms: Seq<MonitorDescriptor>, n: int)
    requires
        0 <= n <= ms.len(),
    ensures
        best_secondary_in(ms, n) matches Some(b) ==> {
            &&& 0 <= b < n && !ms[b].is_primary
            &&& forall|j: int|
                0 <= j < n && !ms[j].is_primary ==> !monitor_ranks_above(#[trigger] ms[j], ms[b])
        },
        best_secondary_in(ms, n) is None ==> forall|j: int| 0 <= j < n ==> (#[trigger] ms[j]).is_primary,
    decreases n,
{
    if n > 0 {
        lemma_best_secondary_is_maximal(ms, n - 1);
        let prev = best_secondary_in(ms, n - 1);
        let c = ms[n - 1];
        crate::text::lemma_seq_lt_irreflexive(c.device_name@, c.device_name@);
        if !c.is_primary {
            if let Some(i) = prev {
                let a = ms[i];
                crate::text::lemma_seq_lt_irreflexive(a.device_name@, c.device_name@);
                if monitor_ranks_above(a, c) {
                    assert(best_secondary_in(ms, n) == Some(i));
                    assert(!monitor_ranks_above(c, a));
                } else {
                    assert(best_secondary_in(ms, n) == Some(n - 1));
                    assert forall|j: int| 0 <= j < n && !ms[j].is_primary implies !monitor_ranks_above(
                        #[trigger] ms[j],
                        c,
                    ) by {
                        if j < n - 1 {
                            let x = ms[j];
                            assert(!monitor_ranks_above(x, a));
                            crate::text::lemma_seq_lt_total(x.device_name@, a.device_name@);
                            crate::text::lemma_seq_lt_total(a.device_name@, c.device_name@);
                            crate::text::lemma_seq_lt_transitive(
                                a.device_name@,
                                x.device_name@,
                                c.device_name@,
                            );
                            crate::text::lemma_seq_lt_transitive(
                                x.device_name@,
                                c.device_name@,
                                a.device_name@,
                            );
                        }
                    }
                }
            }
        }
    }
}

/// The tile of a grid cell, if its size fits `i32`.
pub open spec fn tile_of(r: SignedRect) -> Option<ManagedTile> {
    if i32::MIN <= rect_width(r) <= i32::MAX && i32::MIN <= rect_height(r) <= i32::MAX {
        Some(
            ManagedTile {
                left: r.left,
                top: r.top,
                width: rect_width(r) as i32,
                height: rect_height(r) as i32,
            },
        )
    } else {
        None
    }
}

/// Why a cell has no tile.
pub open spec fn tile_error_text(r: SignedRect) -> Seq<char> {
    if !(i32::MIN <= rect_width(r) <= i32::MAX) {
        "secondary tile width exceeds the supported range"@
    } else {
        "secondary tile height exceeds the supported range"@
    }
}

/// The cells of a preset over a work area.
pub open spec fn preset_rects(preset: SecondaryLayoutPreset, area: SignedRect) -> Seq<SignedRect> {
    match preset {
        SecondaryLayoutPreset::TwoByTwo => grid_rects(area),
        SecondaryLayoutPreset::TwoByTwoCenter => grid_rects(area).push(center_rect(area)),
    }
}

/// Index of the first cell from `i` on whose size does not fit a tile.
pub open spec fn first_unfit_from(rects: Seq<SignedRect>, i: int) -> Option<int>
    decreases rects.len() - i,
{
    if i < 0 || i >= rects.len() {
        None
    } else if tile_of(rects[i]) is None {
        Some(i)
    } else {
        first_unfit_from(rects, i + 1)
    }
}

/// The error text of a layout error for an area that cannot be split.
pub open spec fn split_error_text(area: SignedRect) -> Seq<char> {
    if rect_width(area) <= 0 {
        layout_error_text(LayoutError::NonPositiveWidth { left: area.left, right: area.right })
    } else {
        layout_error_text(LayoutError::NonPositiveHeight { top: area.top, bottom: area.bottom })
    }
}

/// The slot/tile pairs of a preset over a work area whose cells all fit.
pub open spec fn tiles_are(
    tiles: Seq<(&'static str, ManagedTile)>,
    preset: SecondaryLayoutPreset,
    area: SignedRect,
) -> bool {
    &&& tiles.len() == preset_rects(preset, area).len()
    &&& forall|i: int|
        0 <= i < tiles.len() ==> (#[trigger] tiles[i]).0@ == grid_slot(i) && tile_of(
            preset_rects(preset, area)[i],
        ) == Some(tiles[i].1)
}

fn tile_from_rect(r: SignedRect) -> (t: Result<ManagedTile, String>)
    ensures
        match t {
            Ok(tile) => tile_of(r) == Some(tile),
            Err(e) => tile_of(r) is None && e@ == tile_error_text(r),
        },
{
    let width = r.width();
    let height = r.height();
    if width > i32::MAX as i64 || width < i32::MIN as i64 {
        return Err(String::from_str("secondary tile width exceeds the supported range"));
    }
    if height > i32::MAX as i64 || height < i32::MIN as i64 {
        return Err(String::from_str("secondary tile height exceeds the supported range"));
    }
    Ok(ManagedTile { left: r.left, top: r.top, width: width as i32, height: height as i32 })
}

fn tiles_from_cells(cells: &[GridCell], Ghost(rects): Ghost<Seq<SignedRect>>) -> (r: Result<
    Vec<(&'static str, ManagedTile)>,
    String,
>)
    requires
        cells@.len() == rects.len(),
        forall|i: int| 0 <= i < rects.len() ==> (#[trigger] cells@[i]).rect == rects[i],
    ensures
        match r {
            Ok(tiles) => first_unfit_from(rects, 0) is None && tiles@.len() == rects.len()
                && forall|i: int|
                0 <= i < rects.len() ==> (#[trigger] tiles@[i]).0 == cells@[i].slot && tile_of(rects[i])
                    == Some(tiles@[i].1),
            Err(e) => first_unfit_from(rects, 0) matches Some(k) && e@ == tile_error_text(rects[k]),
        },
{
    let mut tiles: Vec<(&'static str, ManagedTile)> = Vec::new();
    let mut i: usize = 0;
    while i < cells.len()
        invariant
            i <= cells@.len(),
            cells@.len() == rects.len(),
            forall|j: int| 0 <= j < rects.len() ==> (#[trigger] cells@[j]).rect == rects[j],
            first_unfit_from(rects, 0) == first_unfit_from(rects, i as int),
            tiles@.len() == i,
            forall|j: int|
                0 <= j < i ==> (#[trigger] tiles@[j]).0 == cells@[j].slot && tile_of(rects[j]) == Some(
                    tiles@[j].1,
                ),
        decreases cells@.len() - i,
    {
        match tile_from_rect(cells[i].rect) {
            Ok(t) => {
                tiles.push((cells[i].slot, t));
            },
            Err(e) => {
                return Err(e);
            },
        }
        i = i + 1;
    }
    Ok(tiles)
}

/// The tiles of the secondary monitor for a preset, from a monitor
/// enumeration: none when there is no secondary monitor; an error when the
/// enumeration failed, the work area cannot be split or a cell is too large.
pub fn secondary_managed_tiles(
    preset: SecondaryLayoutPreset,
    monitors: Result<MonitorEnumeration, String>,
) -> (r: Result<Option<Vec<(&'static str, ManagedTile)>>, String>)
    requires
        monitors matches Ok(en) ==> areas_fit(en.monitors@),
    ensures
        match monitors {
            Err(e) => r == Err::<Option<Vec<(&'static str, ManagedTile)>>, String>(e),
            Ok(en) => match best_secondary(en.monitors@) {
                None => r matches Ok(None),
                Some(b) => {
                    let area = en.monitors@[b].work_area;
                    if !split_outcome_ok(area) {
                        r matches Err(e) && e@ == split_error_text(area)
                    } else {
                        match first_unfit_from(preset_rects(preset, area), 0) {
                            Some(k) => r matches Err(e) && e@ == tile_error_text(
                                preset_rects(preset, area)[k],
                            ),
                            None => r matches Ok(Some(tiles)) && tiles_are(tiles@, preset, area),
                        }
                    }
                },
            },
        },
{
    let enumeration = match monitors {
        Err(e) => {
            return Err(e);
        },
        Ok(en) => en,
    };
    let b = match best_secondary_monitor(&enumeration.monitors) {
        None => {
            return Ok(None);
        },
        Some(b) => b,
    };
    proof {
        lemma_best_secondary_bounds(enumeration.monitors@, enumeration.monitors@.len() as int);
    }
    let area = enumeration.monitors[b].work_area;
    let ghost rects = preset_rects(preset, area);
    let tiles = match preset {
        SecondaryLayoutPreset::TwoByTwo => match split_2x2(area) {
            Ok(cells) => tiles_from_cells(&cells, Ghost(rects)),
            Err(e) => {
                let msg = e.message();
                return Err(msg);
            },
        },
        SecondaryLayoutPreset::TwoByTwoCenter => match split_2x2_with_center(area) {
            Ok(cells) => {
                assert forall|i: int| 0 <= i < rects.len() implies (#[trigger] cells@[i]).rect
                    == rects[i] by {
                    if i < 4 {
                        assert(cells@[i].rect == grid_rects(area)[i]);
                    }
                }
                tiles_from_cells(&cells, Ghost(rects))
            },
            Err(e) => {
                let msg = e.message();
                return Err(msg);
            },
        },
    };
    match tiles {
        Ok(t) => {
            assert forall|i: int| 0 <= i < t@.len() implies (#[trigger] t@[i]).0@ == grid_slot(i) by {
            }
            Ok(Some(t))
        },
        Err(e) => Err(e),
    }
}

fn copy_monitor(m: &MonitorDescriptor) -> (c: MonitorDescriptor)
    ensures
        c == *m,
{
    MonitorDescriptor {
        device_name: m.device_name.clone(),
        is_primary: m.is_primary,
        monitor_rect: m.monitor_rect,
        work_area: m.work_area,
    }
}

/// Index of the first primary monitor, if any.
pub open spec fn first_primary(ms: Seq<MonitorDescriptor>) -> Option<int> {
    if exists|i: int| 0 <= i < ms.len() && (#[trigger] ms[i]).is_primary {
        Some(
            choose|i: int|
                0 <= i < ms.len() && (#[trigger] ms[i]).is_primary && forall|j: int|
                    0 <= j < i ==> !(#[trigger] ms[j]).is_primary,
        )
    } else {
        None
    }
}

fn find_primary(ms: &Vec<MonitorDescriptor>) -> (r: Option<usize>)
    ensures
        match r {
            Some(i) => i < ms@.len() && ms@[i as int].is_primary && forall|j: int|
                0 <= j < i ==> !(#[trigger] ms@[j]).is_primary,
            None => forall|j: int| 0 <= j < ms@.len() ==> !(#[trigger] ms@[j]).is_primary,
        },
        r matches Some(i) ==> first_primary(ms@) == Some(i as int),
        r is None ==> first_primary(ms@) is None,
{
    let mut i: usize = 0;
    while i < ms.len()
        invariant
            i <= ms@.len(),
            forall|j: int| 0 <= j < i ==> !(#[trigger] ms@[j]).is_primary,
        decreases ms@.len() - i,
    {
        if ms[i].is_primary {
            proof {
                let w = choose|w: int|
                    0 <= w < ms@.len() && (#[trigger] ms@[w]).is_primary && forall|j: int|
                        0 <= j < w ==> !(#[trigger] ms@[j]).is_primary;
                assert(ms@[i as int].is_primary);
                if w < i {
                } else if w > i {
                    assert(!ms@[i as int].is_primary);
                }
            }
            return Some(i);
        }
        i = i + 1;
    }
    None
}

/// A position-only test target: a cell's top-left corner on a monitor.
pub open spec fn target_at(
    t: PositionOnlyTarget,
    m: MonitorDescriptor,
    cell: int,
) -> bool {
    &&& t.monitor_device_name == m.device_name
    &&& t.slot@ == grid_slot(cell)
    &&& t.left == grid_rects(m.work_area)[cell].left
    &&& t.top == grid_rects(m.work_area)[cell].top
}

/// Targets of the six-window test: the top two cells of the primary
/// monitor, then the four cells of the secondary monitor.
pub open spec fn six_targets_are(
    ts: Seq<PositionOnlyTarget>,
    primary: MonitorDescriptor,
    secondary: MonitorDescriptor,
) -> bool {
    &&& ts.len() == 6
    &&& target_at(ts[0], primary, 0) && target_at(ts[1], primary, 1)
    &&& forall|i: int| 2 <= i < 6 ==> target_at(#[trigger] ts[i], secondary, i - 2)
}

fn push_targets(
    targets: &mut Vec<PositionOnlyTarget>,
    m: &MonitorDescriptor,
    cells: &[GridCell; 4],
    count: usize,
)
    requires
        count <= 4,
        is_grid_of(cells@, m.work_area),
    ensures
        final(targets)@.len() == old(targets)@.len() + count,
        forall|i: int| 0 <= i < old(targets)@.len() ==> #[trigger] final(targets)@[i] == old(targets)@[i],
        forall|i: int|
            0 <= i < count ==> target_at(#[trigger] final(targets)@[old(targets)@.len() + i], *m, i),
{
    let ghost start = targets@;
    let mut i: usize = 0;
    while i < count
        invariant
            i <= count <= 4,
            is_grid_of(cells@, m.work_area),
            targets@.len() == start.len() + i,
            forall|j: int| 0 <= j < start.len() ==> #[trigger] targets@[j] == start[j],
            forall|j: int| 0 <= j < i ==> target_at(#[trigger] targets@[start.len() + j], *m, j),
        decreases count - i,
    {
        let cell = cells[i];
        assert(cell == cells@[i as int]);
        targets.push(
            PositionOnlyTarget {
                monitor_device_name: m.device_name.clone(),
                slot: cell.slot,
                left: cell.rect.left,
                top: cell.rect.top,
            },
        );
        i = i + 1;
    }
}

/// Targets of the six-window position test, from a monitor enumeration.
pub fn six_position_only_targets(monitors: Result<MonitorEnumeration, String>) -> (r: Result<
    Vec<PositionOnlyTarget>,
    String,
>)
    requires
        monitors matches Ok(en) ==> areas_fit(en.monitors@),
    ensures
        match monitors {
            Err(e) => r == Err::<Vec<PositionOnlyTarget>, String>(e),
            Ok(en) => {
                let ms = en.monitors@;
                match (first_primary(ms), best_secondary(ms)) {
                    (None, _) => r matches Err(e) && e@ == "no primary monitor is available for the test"@,
                    (Some(_), None) => r matches Err(e) && e@
                        == "no non-primary monitor is available for the test"@,
                    (Some(p), Some(b)) => if !split_outcome_ok(ms[p].work_area) {
                        r matches Err(e) && e@ == split_error_text(ms[p].work_area)
                    } else if !split_outcome_ok(ms[b].work_area) {
                        r matches Err(e) && e@ == split_error_text(ms[b].work_area)
                    } else {
                        r matches Ok(ts) && six_targets_are(ts@, ms[p], ms[b])
                    },
                }
            },
        },
{
    let enumeration = match monitors {
        Err(e) => {
            return Err(e);
        },
        Ok(en) => en,
    };
    let p = match find_primary(&enumeration.monitors) {
        None => {
            return Err(String::from_str("no primary monitor is available for the test"));
        },
        Some(p) => p,
    };
    let b = match best_secondary_monitor(&enumeration.monitors) {
        None => {
            return Err(String::from_str("no non-primary monitor is available for the test"));
        },
        Some(b) => b,
    };
    proof {
        lemma_best_secondary_bounds(enumeration.monitors@, enumeration.monitors@.len() as int);
    }
    let primary = copy_monitor(&enumeration.monitors[p]);
    let secondary = copy_monitor(&enumeration.monitors[b]);
    let primary_cells = match split_2x2(primary.work_area) {
        Ok(c) => c,
        Err(e) => {
            return Err(e.message());
        },
    };
    let secondary_cells = match split_2x2(secondary.work_area) {
        Ok(c) => c,
        Err(e) => {
            return Err(e.message());
        },
    };
    let mut targets: Vec<PositionOnlyTarget> = Vec::new();
    push_targets(&mut targets, &primary, &primary_cells, 2);
    let ghost mid = targets@;
    assert(target_at(mid[0], primary, 0)) by {
        assert(mid[0] == mid[0int + 0int]);
    }
    assert(target_at(mid[1], primary, 1)) by {
        assert(mid[1] == mid[0int + 1int]);
    }
    push_targets(&mut targets, &secondary, &secondary_cells, 4);
    assert(targets@[0] == mid[0]);
    assert(targets@[1] == mid[1]);
    assert forall|i: int| 2 <= i < 6 implies target_at(#[trigger] targets@[i], secondary, i - 2) by {
        assert(targets@[i] == targets@[2 + (i - 2)]);
    }
    assert(targets@.len() == 6);
    assert(target_at(targets@[0], primary, 0));
    assert(target_at(targets@[1], primary, 1));
    assert(six_targets_are(targets@, primary, secondary));
    assert(first_primary(enumeration.monitors@) == Some(p as int));
    assert(best_secondary(enumeration.monitors@) == Some(b as int));
    Ok(targets)
}

/// The cell of the secondary monitor named `slot`, for the single-window test.
pub fn secondary_test_cell(slot: &str, monitors: Result<MonitorEnumeration, String>) -> (r: Result<
    (MonitorDescriptor, GridCell),
    String,
>)
    requires
        monitors matches Ok(en) ==> areas_fit(en.monitors@),
    ensures
        match monitors {
            Err(e) => r == Err::<(MonitorDescriptor, GridCell), String>(e),
            Ok(en) => {
                let ms = en.monitors@;
                match best_secondary(ms) {
                    None => r matches Err(e) && e@
                        == "no non-primary monitor is available for the test"@,
                    Some(b) => if !split_outcome_ok(ms[b].work_area) {
                        r matches Err(e) && e@ == split_error_text(ms[b].work_area)
                    } else if exists|i: int| 0 <= i < 4 && #[trigger] grid_slot(i) == slot@ {
                        r matches Ok(pair) && pair.0 == ms[b] && pair.1.slot@ == slot@
                            && exists|i: int|
                            0 <= i < 4 && #[trigger] grid_slot(i) == slot@ && pair.1.rect
                                == grid_rects(ms[b].work_area)[i]
                    } else {
                        r matches Err(e) && e@ == "unknown 2x2 test slot: "@ + slot@
                    },
                }
            },
        },
{
    let mut enumeration = match monitors {
        Err(e) => {
            return Err(e);
        },
        Ok(en) => en,
    };
    let b = match best_secondary_monitor(&enumeration.monitors) {
        None => {
            return Err(String::from_str("no non-primary monitor is available for the test"));
        },
        Some(b) => b,
    };
    proof {
        lemma_best_secondary_bounds(enumeration.monitors@, enumeration.monitors@.len() as int);
    }
    let ghost ms = enumeration.monitors@;
    let monitor = enumeration.monitors.remove(b);
    let cells = match split_2x2(monitor.work_area) {
        Ok(c) => c,
        Err(e) => {
            return Err(e.message());
        },
    };
    let mut i: usize = 0;
    while i < 4
        invariant
            i <= 4,
            b < ms.len(),
            monitors matches Ok(en) && en.monitors@ == ms,
            best_secondary(ms) == Some(b as int),
            monitor == ms[b as int],
            split_outcome_ok(monitor.work_area),
            is_grid_of(cells@, monitor.work_area),
            forall|j: int| 0 <= j < i ==> grid_slot(j) != slot@,
        decreases 4 - i,
    {
        if str_eq(cells[i].slot, slot) {
            assert(cells[i as int] == cells@[i as int]);
            assert(cells@[i as int].slot@ == slot@);
            assert(grid_slot(i as int) == slot@);
            let pair = (monitor, cells[i]);
            assert(pair.1.rect == grid_rects(ms[b as int].work_area)[i as int]);
            assert(pair.0 == ms[b as int]);
            assert(best_secondary(ms) == Some(b as int));
            assert(exists|k: int| 0 <= k < 4 && #[trigger] grid_slot(k) == slot@);
            assert(exists|k: int|
                0 <= k < 4 && #[trigger] grid_slot(k) == slot@ && pair.1.rect == grid_rects(
                    ms[b as int].work_area,
                )[k]);
            assert(split_outcome_ok(ms[b as int].work_area));
            return Ok(pair);
        }
        i = i + 1;
    }
    let mut msg = String::from_str("unknown 2x2 test slot: ");
    crate::text::push_str(&mut msg, slot);
    proof {
        reveal_strlit("unknown 2x2 test slot: ");
    }
    Err(msg)
}

/// Dry run of the 2x2 layout on every monitor, for diagnostics.
pub fn monitor_dry_runs(monitors: Vec<MonitorDescriptor>) -> (r: Vec<MonitorDryRunDiagnostic>)
    ensures
        r@.len() == monitors@.len(),
        forall|i: int|
            0 <= i < r@.len() ==> {
                let d = #[trigger] r@[i];
                let area = monitors@[i].work_area;
                &&& d.monitor == monitors@[i]
                &&& d.cells is Some == split_outcome_ok(area)
                &&& d.layout_error is Some == !split_outcome_ok(area)
                &&& d.cells matches Some(c) ==> is_grid_of(c@, area)
                &&& d.layout_error matches Some(e) ==> e@ == split_error_text(area)
            },
{
    let ghost ms = monitors@;
    let mut source = monitors;
    let mut out: Vec<MonitorDryRunDiagnostic> = Vec::new();
    while source.len() > 0
        invariant
            out@.len() + source@.len() == ms.len(),
            source@ == ms.subrange(out@.len() as int, ms.len() as int),
            forall|i: int|
                0 <= i < out@.len() ==> {
                    let d = #[trigger] out@[i];
                    let area = ms[i].work_area;
                    &&& d.monitor == ms[i]
                    &&& d.cells is Some == split_outcome_ok(area)
                    &&& d.layout_error is Some == !split_outcome_ok(area)
                    &&& d.cells matches Some(c) ==> is_grid_of(c@, area)
                    &&& d.layout_error matches Some(e) ==> e@ == split_error_text(area)
                },
        decreases source@.len(),
    {
        let ghost n: int = out@.len() as int;
        let monitor = source.remove(0);
        let d = match split_2x2(monitor.work_area) {
            Ok(cells) => MonitorDryRunDiagnostic { monitor, cells: Some(cells), layout_error: None },
            Err(e) => MonitorDryRunDiagnostic { monitor, cells: None, layout_error: Some(e.message()) },
        };
        out.push(d);
        assert(source@ =~= ms.subrange(n + 1, ms.len() as int));
    }
    out
}


#[derive(Debug, Clone)]
pub struct SessionWindowDiagnostic {
    pub runtime_session_id: RuntimeSessionId,
    pub profile_id: String,
    pub account_id: String,
    pub inspection: ProcessWindowInspection,
}

#[derive(Debug, Clone)]
pub struct SingleWindowTestResult {
    pub runtime_session_id: RuntimeSessionId,
    pub monitor_device_name: String,
    pub slot: &'static str,
    pub window: WindowActionResult,
}

#[derive(Debug, Clone)]
pub struct GroupWindowTestResult {
    pub action: &'static str,
    pub windows: Vec<SingleWindowTestResult>,
}

#[derive(Debug, Clone)]
pub struct Stage0Diagnostics {
    pub enabled: bool,
    pub feature_flag: &'static str,
    pub registry: Option<RegistrySnapshot>,
    pub registry_error: Option<String>,
    pub broker_sessions: Vec<BrokerSessionDiagnostic>,
    pub session_windows: Vec<SessionWindowDiagnostic>,
    pub window_test_restore_available_for: Vec<RuntimeSessionId>,
    pub monitors: Vec<MonitorDryRunDiagnostic>,
    pub monitor_warnings: Vec<String>,
    pub monitor_error: Option<String>,
}

/// The diagnostics while Stage 0 is off: nothing of the runtime state is
/// inspected or shown.
pub fn disabled_diagnostics() -> (d: Stage0Diagnostics)
    ensures
        !d.enabled,
        d.feature_flag@ == STAGE0_ENV_VAR@,
        d.registry is None,
        d.registry_error is None,
        d.broker_sessions@.len() == 0,
        d.session_windows@.len() == 0,
        d.window_test_restore_available_for@.len() == 0,
        d.monitors@.len() == 0,
        d.monitor_warnings@.len() == 0,
        d.monitor_error is None,
{
    Stage0Diagnostics {
        enabled: false,
        feature_flag: STAGE0_ENV_VAR,
        registry: None,
        registry_error: None,
        broker_sessions: Vec::new(),
        session_windows: Vec::new(),
        window_test_restore_available_for: Vec::new(),
        monitors: Vec::new(),
        monitor_warnings: Vec::new(),
        monitor_error: None,
    }
}

/// The window tests need Stage 0 to be on.
pub fn require_enabled(enabled: bool) -> (r: Result<(), String>)
    ensures
        r is Ok <==> enabled,
        r matches Err(e) ==> e@ == STAGE0_ENV_VAR@ + " is not enabled"@,
{
    if enabled {
        Ok(())
    } else {
        let mut e = String::from_str(STAGE0_ENV_VAR);
        crate::text::push_str(&mut e, " is not enabled");
        proof {
            reveal_strlit(" is not enabled");
        }
        Err(e)
    }
}

fn session_text(prefix: &str, id: u64, suffix: &str) -> (s: String)
    ensures
        s@ == prefix@ + crate::text::nat_digits(id as nat) + suffix@,
{
    let mut s = String::from_str(prefix);
    crate::text::push_u64_digits(&mut s, id);
    crate::text::push_str(&mut s, suffix);
    s
}

/// The verified creation time of a session's process, needed before its
/// window is touched.
pub fn creation_time_required(identity: ActiveProcessIdentity) -> (r: Result<u64, String>)
    ensures
        match identity.process_creation_time_filetime_100ns {
            Some(t) => r == Ok::<u64, String>(t),
            None => r matches Err(e) && e@ == "runtime session #"@ + crate::text::nat_digits(
                identity.runtime_session_id.0 as nat,
            ) + " has no verified process creation time"@,
        },
{
    match identity.process_creation_time_filetime_100ns {
        Some(t) => Ok(t),
        None => {
            proof {
                reveal_strlit("runtime session #");
                reveal_strlit(" has no verified process creation time");
            }
            Err(session_text("runtime session #", identity.runtime_session_id.0, " has no verified process creation time"))
        },
    }
}

/// A saved test placement still belongs to the session's process: same pid
/// and same creation time.
pub fn check_saved_placement(
    snapshot: &SavedWindowPlacement,
    runtime_session_id: RuntimeSessionId,
    pid: u32,
    creation_time: Option<u64>,
) -> (r: Result<(), String>)
    ensures
        r is Ok <==> (snapshot.pid == pid && Some(snapshot.process_creation_time_filetime_100ns) == creation_time),
        r matches Err(e) ==> e@ == "saved placement identity no longer matches runtime session #"@
            + crate::text::nat_digits(runtime_session_id.0 as nat),
{
    let same_creation = match creation_time {
        Some(t) => t == snapshot.process_creation_time_filetime_100ns,
        None => false,
    };
    if snapshot.pid == pid && same_creation {
        Ok(())
    } else {
        proof {
            reveal_strlit("saved placement identity no longer matches runtime session #");
            reveal_strlit("");
        }
        let s = session_text("saved placement identity no longer matches runtime session #", runtime_session_id.0, "");
        assert(s@ =~= "saved placement identity no longer matches runtime session #"@ + crate::text::nat_digits(
            runtime_session_id.0 as nat,
        ));
        Err(s)
    }
}

/// The six-window test needs exactly six active sessions, none of which has
/// a saved placement yet.
pub fn six_window_precheck(active: &[RuntimeSessionId], saved: &[RuntimeSessionId]) -> (r: Result<(), String>)
    ensures
        active@.len() != 6 ==> (r matches Err(e) && e@
            == "six-window position test requires exactly 6 active sessions; found "@ + crate::text::nat_digits(
            active@.len(),
        )),
        active@.len() == 6 ==> match r {
            Ok(()) => forall|i: int| 0 <= i < 6 ==> !saved@.contains(#[trigger] active@[i]),
            Err(e) => exists|i: int|
                0 <= i < 6 && saved@.contains(#[trigger] active@[i]) && (forall|k: int|
                    0 <= k < i ==> !saved@.contains(#[trigger] active@[k])) && e@ == "runtime session #"@
                    + crate::text::nat_digits(active@[i].0 as nat)
                    + " already has a saved test placement; restore it first"@,
        },
{
    if active.len() != 6 {
        let mut e = String::from_str("six-window position test requires exactly 6 active sessions; found ");
        crate::text::push_u64_digits(&mut e, active.len() as u64);
        proof {
            reveal_strlit("six-window position test requires exactly 6 active sessions; found ");
        }
        return Err(e);
    }
    let mut i: usize = 0;
    while i < 6
        invariant
            active@.len() == 6,
            i <= 6,
            forall|k: int| 0 <= k < i ==> !saved@.contains(#[trigger] active@[k]),
        decreases 6 - i,
    {
        let mut j: usize = 0;
        while j < saved.len()
            invariant
                active@.len() == 6,
                i < 6,
                j <= saved@.len(),
                forall|k: int| 0 <= k < i ==> !saved@.contains(#[trigger] active@[k]),
                forall|x: int| 0 <= x < j ==> active@[i as int] != saved@[x],
            decreases saved@.len() - j,
        {
            if active[i].0 == saved[j].0 {
                assert(saved@.contains(active@[i as int])) by {
                    assert(saved@[j as int] == active@[i as int]);
                }
                proof {
                    reveal_strlit("runtime session #");
                    reveal_strlit(" already has a saved test placement; restore it first");
                }
                return Err(session_text("runtime session #", active[i].0, " already has a saved test placement; restore it first"));
            }
            j = j + 1;
        }
        assert(!saved@.contains(active@[i as int]));
        i = i + 1;
    }
    Ok(())
}

/// Texts joined with " | ".
fn join_bar_texts(parts: &Vec<String>) -> (s: String)
    ensures
        s@ == crate::self_updater::join_bars(parts@.map_values(|x: String| x@)),
{
    let ghost ts = parts@.map_values(|x: String| x@);
    let mut s = String::new();
    let mut i: usize = 0;
    proof {
        reveal_strlit(" | ");
    }
    while i < parts.len()
        invariant
            ts == parts@.map_values(|x: String| x@),
            i <= ts.len(),
            s@ == crate::self_updater::join_bars(ts.take(i as int)),
        decreases ts.len() - i,
    {
        if i > 0 {
            crate::text::push_str(&mut s, " | ");
        }
        crate::text::push_str(&mut s, parts[i].as_str());
        proof {
            let t = ts.take(i as int + 1);
            assert(t.drop_last() =~= ts.take(i as int));
            assert(t.last() == parts@[i as int]@);
        }
        assert(s@ =~= crate::self_updater::join_bars(ts.take(i as int + 1)));
        i = i + 1;
    }
    assert(ts.take(ts.len() as int) =~= ts);
    s
}

/// The error of a failed six-window test, after its windows were put back.
pub fn six_window_failure_text(error: &str, rollback_errors: &Vec<String>) -> (s: String)
    ensures
        rollback_errors@.len() == 0 ==> s@ == "six-window position test failed and was rolled back: "@ + error@,
        rollback_errors@.len() > 0 ==> s@ == "six-window position test failed: "@ + error@ + "; rollback errors: "@
            + crate::self_updater::join_bars(rollback_errors@.map_values(|x: String| x@)),
{
    proof {
        reveal_strlit("six-window position test failed and was rolled back: ");
        reveal_strlit("six-window position test failed: ");
        reveal_strlit("; rollback errors: ");
    }
    if rollback_errors.len() == 0 {
        let mut s = String::from_str("six-window position test failed and was rolled back: ");
        crate::text::push_str(&mut s, error);
        s
    } else {
        let mut s = String::from_str("six-window position test failed: ");
        crate::text::push_str(&mut s, error);
        crate::text::push_str(&mut s, "; rollback errors: ");
        let joined = join_bar_texts(rollback_errors);
        crate::text::push_str(&mut s, joined.as_str());
        s
    }
}

/// The error of a restore-all that could not restore every window.
pub fn restore_all_failure_text(errors: &Vec<String>) -> (s: String)
    ensures
        s@ == "some windows could not be restored: "@ + crate::self_updater::join_bars(
            errors@.map_values(|x: String| x@),
        ),
{
    let mut s = String::from_str("some windows could not be restored: ");
    let joined = join_bar_texts(errors);
    crate::text::push_str(&mut s, joined.as_str());
    proof {
        reveal_strlit("some windows could not be restored: ");
    }
    s
}

/// The error of one session in a group test: `#<id>: <error>`.
pub fn session_error_text(runtime_session_id: RuntimeSessionId, error: &str) -> (s: String)
    ensures
        s@ == "#"@ + crate::text::nat_digits(runtime_session_id.0 as nat) + ": "@ + error@,
{
    proof {
        reveal_strlit("#");
        reveal_strlit(": ");
    }
    let mut s = session_text("#", runtime_session_id.0, ": ");
    crate::text::push_str(&mut s, error);
    s
}

} // verus!
