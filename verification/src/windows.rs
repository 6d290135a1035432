//! Game-window identity checks and window-control results. The Win32 calls
//! themselves are made by the application; this module decides what their
//! observations mean, and gives the behaviour of platforms without them.

use vstd::prelude::*;
use crate::layout::{rect_height, rect_width, SignedRect};
use crate::broker::BrokerWindowTarget;
use crate::sort::{SortKey, stable_sort, stably_sorted};
use crate::text::{
    hex_digits, int_digits, nat_digits, push_i64_digits, push_str, push_u64_digits, seq_lt, str_eq, str_lt,
    lemma_seq_lt_irreflexive, lemma_seq_lt_total, lemma_seq_lt_transitive,
};

verus! {

/// Window class of the SDL game window.
pub const GAME_WINDOW_CLASS: &'static str = "SDL_app";

#[derive(Debug, Clone, PartialEq, Eq)]
pub struct MonitorDescriptor {
    pub device_name: String,
    pub is_primary: bool,
    pub monitor_rect: SignedRect,
    pub work_area: SignedRect,
}

#[derive(Debug, Clone, PartialEq, Eq)]
pub struct MonitorEnumeration {
    pub monitors: Vec<MonitorDescriptor>,
    pub warnings: Vec<String>,
}

#[derive(Debug, Clone, PartialEq, Eq)]
pub struct WindowCandidateDiagnostic {
    pub hwnd: String,
    pub class_name: String,
    pub title: String,
    pub is_visible: bool,
    pub has_owner: bool,
    pub eligible_game_window: bool,
    pub exclusion_reason: Option<&'static str>,
    pub show_cmd: Option<u32>,
    pub is_minimized: Option<bool>,
    pub dpi: Option<u32>,
    pub style: String,
    pub ex_style: String,
    pub window_rect: Option<SignedRect>,
    pub normal_rect: Option<SignedRect>,
    pub client_rect_screen: Option<SignedRect>,
}

#[derive(Debug, Clone, PartialEq, Eq)]
pub struct ProcessWindowInspection {
    pub pid: u32,
    /// Decimal FILETIME ticks, kept as text to avoid JavaScript u64 precision loss.
    pub expected_process_creation_time_filetime_100ns: Option<String>,
    pub observed_process_creation_time_filetime_100ns: Option<String>,
    pub process_creation_time_matches: Option<bool>,
    pub selected_hwnd: Option<String>,
    pub management_eligible: bool,
    pub status: &'static str,
    pub candidates: Vec<WindowCandidateDiagnostic>,
    pub warnings: Vec<String>,
    /// Numeric value of `selected_hwnd`; not part of the serialized report.
    pub selected_hwnd_value: Option<usize>,
}

#[derive(Debug, Clone, PartialEq, Eq)]
pub struct SavedWindowPlacement {
    pub pid: u32,
    pub process_creation_time_filetime_100ns: u64,
    pub hwnd_value: usize,
    pub flags: u32,
    pub show_cmd: u32,
    pub min_position_x: i32,
    pub min_position_y: i32,
    pub max_position_x: i32,
    pub max_position_y: i32,
    pub normal_rect: SignedRect,
}

#[derive(Debug, Clone, PartialEq, Eq)]
pub struct WindowActionResult {
    pub action: &'static str,
    pub pid: u32,
    pub hwnd: String,
    pub requested_outer_rect: Option<SignedRect>,
    pub actual_window_rect: Option<SignedRect>,
    pub actual_normal_rect: Option<SignedRect>,
    pub actual_client_rect_screen: Option<SignedRect>,
    pub requested_outer_rect_matches: Option<bool>,
    pub requested_position_matches: Option<bool>,
    pub show_cmd: Option<u32>,
    pub is_minimized: Option<bool>,
    pub dpi: Option<u32>,
}

#[derive(Debug, Clone, PartialEq, Eq)]
pub struct WindowControlObservation {
    pub action: &'static str,
    pub pid: u32,
    pub hwnd: String,
    pub hwnd_generation: u64,
    pub is_minimized: Option<bool>,
    pub dpi: Option<u32>,
}

/// Why a window of the game process is not the game window, if it is not.
pub open spec fn exclusion_reason_text(class_name: Seq<char>, has_owner: bool) -> Option<Seq<char>> {
    if has_owner {
        Some("owned_window"@)
    } else if class_name != "SDL_app"@ {
        Some("class_not_sdl_app"@)
    } else {
        None
    }
}

/// The game window is the unowned window of class `SDL_app`; its mutable
/// title plays no part.
pub fn game_window_exclusion_reason(class_name: &str, has_owner: bool) -> (r: Option<&'static str>)
    ensures
        r is Some == exclusion_reason_text(class_name@, has_owner) is Some,
        r is Some ==> r->0@ == exclusion_reason_text(class_name@, has_owner)->0,
{
    proof {
        reveal_strlit("owned_window");
        reveal_strlit("class_not_sdl_app");
        reveal_strlit("SDL_app");
    }
    if has_owner {
        Some("owned_window")
    } else if !str_eq(class_name, GAME_WINDOW_CLASS) {
        Some("class_not_sdl_app")
    } else {
        None
    }
}

/// The class-name prefix of the launcher's own WinForms windows, which are
/// listed for diagnostics even when hidden.
pub const WINFORMS_CLASS_PREFIX: &'static str = "WindowsForms10.Window";

/// `s` starts with `prefix`.
pub open spec fn starts_with(s: Seq<char>, prefix: Seq<char>) -> bool {
    s.len() >= prefix.len() && s.take(prefix.len() as int) == prefix
}

fn str_starts_with(s: &str, prefix: &str) -> (b: bool)
    ensures
        b == starts_with(s@, prefix@),
{
    let n = prefix.unicode_len();
    if s.unicode_len() < n {
        return false;
    }
    let mut i: usize = 0;
    while i < n
        invariant
            n == prefix@.len(),
            s@.len() >= n,
            i <= n,
            forall|j: int| 0 <= j < i ==> s@[j] == prefix@[j],
        decreases n - i,
    {
        if s.get_char(i) != prefix.get_char(i) {
            assert(s@.take(n as int)[i as int] != prefix@[i as int]);
            return false;
        }
        i = i + 1;
    }
    assert(s@.take(n as int) =~= prefix@);
    true
}

/// A window of the process is listed when it is an eligible game window,
/// is visible, or is one of the launcher's WinForms windows.
pub fn lists_window_candidate(eligible_game_window: bool, is_visible: bool, class_name: &str) -> (b: bool)
    ensures
        b == (eligible_game_window || is_visible || starts_with(class_name@, "WindowsForms10.Window"@)),
{
    proof {
        reveal_strlit("WindowsForms10.Window");
    }
    eligible_game_window || is_visible || str_starts_with(class_name, WINFORMS_CLASS_PREFIX)
}

/// The `showCmd` values of a minimized window: `SW_SHOWMINIMIZED` (2),
/// `SW_MINIMIZE` (6) and `SW_SHOWMINNOACTIVE` (7).
pub open spec fn minimized_show_cmd(show_cmd: u32) -> bool {
    show_cmd == 2 || show_cmd == 6 || show_cmd == 7
}

/// Whether a window placement's `showCmd` is a minimized state; unknown when
/// the placement could not be read.
pub fn minimized_from_show_cmd(show_cmd: Option<u32>) -> (r: Option<bool>)
    ensures
        r == match show_cmd {
            Some(c) => Some(minimized_show_cmd(c)),
            None => None::<bool>,
        },
{
    match show_cmd {
        Some(c) => Some(c == 2 || c == 6 || c == 7),
        None => None,
    }
}

/// A window's DPI; 0 means it could not be read.
pub fn known_dpi(dpi: u32) -> (r: Option<u32>)
    ensures
        r == if dpi != 0 { Some(dpi) } else { None::<u32> },
{
    if dpi != 0 {
        Some(dpi)
    } else {
        None
    }
}

/// A client rectangle has an area to place on screen.
pub fn has_client_area(client: SignedRect) -> (b: bool)
    ensures
        b == (client.right > client.left && client.bottom > client.top),
{
    client.right > client.left && client.bottom > client.top
}

/// The client rectangle in screen coordinates, from its screen origin;
/// `None` when its right or bottom edge falls outside `i32`.
pub fn client_rect_at(origin_x: i32, origin_y: i32, client: SignedRect) -> (r: Option<SignedRect>)
    requires
        client.right > client.left && client.bottom > client.top,
    ensures
        match r {
            Some(rect) => rect == (SignedRect {
                left: origin_x,
                top: origin_y,
                right: (origin_x + rect_width(client)) as i32,
                bottom: (origin_y + rect_height(client)) as i32,
            }) && fits_i32(origin_x + rect_width(client)) && fits_i32(origin_y + rect_height(client)),
            None => !fits_i32(origin_x + rect_width(client)) || !fits_i32(origin_y + rect_height(client)),
        },
{
    let width = client.width();
    let height = client.height();
    let right = origin_x as i64 + width;
    let bottom = origin_y as i64 + height;
    if right < i32::MIN as i64 || right > i32::MAX as i64 || bottom < i32::MIN as i64 || bottom > i32::MAX as i64 {
        None
    } else {
        Some(SignedRect { left: origin_x, top: origin_y, right: right as i32, bottom: bottom as i32 })
    }
}

/// The window reached the wanted minimized state.
pub fn minimized_state_reached(is_minimized: Option<bool>, want: bool) -> (b: bool)
    ensures
        b == (is_minimized == Some(want)),
{
    match is_minimized {
        Some(m) => m == want,
        None => false,
    }
}

/// The window's rectangle is exactly the requested one.
pub fn rect_reached(actual: Option<SignedRect>, target: SignedRect) -> (b: bool)
    ensures
        b == (actual == Some(target)),
{
    match actual {
        Some(r) => r.left == target.left && r.top == target.top && r.right == target.right && r.bottom
            == target.bottom,
        None => false,
    }
}

/// The window's rectangle starts at the requested position.
pub fn position_reached(actual: Option<SignedRect>, left: i32, top: i32) -> (b: bool)
    ensures
        b == (actual matches Some(r) && r.left == left && r.top == top),
{
    match actual {
        Some(r) => r.left == left && r.top == top,
        None => false,
    }
}

/// A FILETIME as one 64-bit count of 100 ns intervals.
pub fn filetime_value(high: u32, low: u32) -> (r: u64)
    ensures
        r == high as int * 0x1_0000_0000 + low as int,
{
    let r = ((high as u64) << 32u64) | (low as u64);
    assert(r == high as int * 0x1_0000_0000 + low as int) by (bit_vector)
        requires
            r == ((high as u64) << 32u64) | (low as u64),
    ;
    r
}

/// How many times a window is inspected while waiting for a change.
pub const POLL_ATTEMPTS: u32 = 20;

/// The pause between two inspections, in milliseconds.
pub const POLL_INTERVAL_MS: u64 = 25;

/// Whether to inspect the window again after `attempts` re-inspections:
/// only while the wanted state is not reached and fewer than
/// `POLL_ATTEMPTS` were made (each after a `POLL_INTERVAL_MS` pause).
pub fn poll_again(attempts: u32, reached: bool) -> (b: bool)
    ensures
        b == (!reached && attempts < 20),
{
    !reached && attempts < POLL_ATTEMPTS
}

/// Status of a process's windows: the process identity must be verified and
/// exactly one eligible game window must exist before the window is managed.
pub open spec fn inspection_status_text(matches: Option<bool>, eligible: nat) -> Seq<char> {
    match matches {
        Some(false) => "process_identity_mismatch"@,
        None => "process_identity_unverified"@,
        Some(true) => if eligible == 0 {
            "pending_game_window"@
        } else if eligible > 1 {
            "ambiguous_game_windows"@
        } else {
            "ready"@
        },
    }
}

pub fn window_inspection_status(
    process_creation_time_matches: Option<bool>,
    eligible_window_count: usize,
) -> (s: &'static str)
    ensures
        s@ == inspection_status_text(process_creation_time_matches, eligible_window_count as nat),
{
    proof {
        reveal_strlit("process_identity_mismatch");
        reveal_strlit("process_identity_unverified");
        reveal_strlit("pending_game_window");
        reveal_strlit("ambiguous_game_windows");
        reveal_strlit("ready");
    }
    match process_creation_time_matches {
        Some(false) => "process_identity_mismatch",
        None => "process_identity_unverified",
        Some(true) => {
            if eligible_window_count == 0 {
                "pending_game_window"
            } else if eligible_window_count > 1 {
                "ambiguous_game_windows"
            } else {
                "ready"
            }
        },
    }
}

/// The text a window handle is shown as: "0x" and upper-case hex digits.
pub open spec fn hwnd_text(v: nat) -> Seq<char> {
    "0x"@ + hex_digits(v, true)
}

/// Renders a window handle as its diagnostic text.
pub fn hwnd_hex(v: usize) -> (s: String)
    ensures
        s@ == hwnd_text(v as nat),
{
    let mut s = String::new();
    push_str(&mut s, "0x");
    crate::text::push_hex_digits(&mut s, v as u64, true);
    proof {
        reveal_strlit("0x");
    }
    assert(s@ =~= hwnd_text(v as nat));
    s
}

/// Value of a hexadecimal digit character.
pub open spec fn hex_digit_value(c: char) -> nat {
    let u = c as int;
    if 48 <= u <= 57 {
        (u - 48) as nat
    } else if 65 <= u <= 70 {
        (u - 55) as nat
    } else if 97 <= u <= 102 {
        (u - 87) as nat
    } else {
        0
    }
}

/// Value of a sequence of hexadecimal digits.
pub open spec fn hex_value(s: Seq<char>) -> nat
    decreases s.len(),
{
    if s.len() == 0 {
        0
    } else {
        hex_value(s.drop_last()) * 16 + hex_digit_value(s.last())
    }
}

proof fn lemma_hex_char_value(d: nat)
    requires
        d < 16,
    ensures
        hex_digit_value(crate::text::hex_char(d, true)) == d,
        ({
            let u = crate::text::hex_char(d, true) as int;
            (48 <= u <= 57) || (65 <= u <= 70)
        }),
{
    if d < 10 {
        assert(crate::text::hex_char(d, true) as int == 48 + d);
    } else {
        assert(crate::text::hex_char(d, true) as int == 55 + d);
    }
}

proof fn lemma_hex_roundtrip(n: nat)
    ensures
        hex_value(hex_digits(n, true)) == n,
        hex_digits(n, true).len() >= 1,
        forall|i: int|
            0 <= i < hex_digits(n, true).len() ==> {
                let u = (#[trigger] hex_digits(n, true)[i]) as int;
                (48 <= u <= 57) || (65 <= u <= 70)
            },
    decreases n,
{
    if n < 16 {
        lemma_hex_char_value(n);
        assert(hex_digits(n, true) =~= seq![crate::text::hex_char(n, true)]);
        assert(hex_digits(n, true).drop_last() =~= Seq::<char>::empty());
        assert(hex_value(Seq::<char>::empty()) == 0);
    } else {
        lemma_hex_roundtrip(n / 16);
        lemma_hex_char_value(n % 16);
        let s = hex_digits(n, true);
        assert(s.drop_last() =~= hex_digits(n / 16, true));
        assert(s.last() == crate::text::hex_char(n % 16, true));
        assert(hex_value(s) == hex_value(s.drop_last()) * 16 + hex_digit_value(s.last()));
        assert forall|i: int| 0 <= i < s.len() implies {
            let u = (#[trigger] s[i]) as int;
            (48 <= u <= 57) || (65 <= u <= 70)
        } by {
            if i < s.len() - 1 {
                assert(s[i] == hex_digits(n / 16, true)[i]);
            }
        }
    }
}

proof fn lemma_hex_value_prefix_le(s: Seq<char>, k: int)
    requires
        0 <= k <= s.len(),
    ensures
        hex_value(s.take(k)) <= hex_value(s),
    decreases s.len(),
{
    if k < s.len() {
        assert(s.drop_last().take(k) =~= s.take(k));
        lemma_hex_value_prefix_le(s.drop_last(), k);
    } else {
        assert(s.take(k) =~= s);
    }
}

/// Parses the hex digits of a handle text after its "0x" prefix.
fn parse_hwnd(text: &str) -> (v: usize)
    requires
        exists|n: usize| text@ == #[trigger] hwnd_text(n as nat),
    ensures
        text@ == hwnd_text(v as nat),
{
    let ghost n: usize = choose|n: usize| text@ == #[trigger] hwnd_text(n as nat);
    let ghost digits = hex_digits(n as nat, true);
    proof {
        lemma_hex_roundtrip(n as nat);
        reveal_strlit("0x");
        assert(text@.skip(2) =~= digits);
    }
    let len = text.unicode_len();
    let mut value: usize = 0;
    let mut i: usize = 2;
    while i < len
        invariant
            len == text@.len(),
            2 <= i <= len,
            text@ == hwnd_text(n as nat),
            digits == text@.skip(2),
            hex_value(digits) == n,
            value == hex_value(digits.take(i - 2)),
            forall|j: int|
                0 <= j < digits.len() ==> {
                    let u = (#[trigger] digits[j]) as int;
                    (48 <= u <= 57) || (65 <= u <= 70)
                },
        decreases len - i,
    {
        let c = text.get_char(i);
        let code = c as u32;
        assert(c == digits[i - 2]);
        let d: usize = if code <= 57 {
            (code - 48) as usize
        } else {
            (code - 55) as usize
        };
        proof {
            assert(digits.take(i - 1).drop_last() =~= digits.take(i - 2));
            assert(digits.take(i - 1).last() == c);
            lemma_hex_value_prefix_le(digits, i - 1);
            assert(hex_value(digits.take(i - 1)) == value * 16 + d);
        }
        value = value * 16 + d;
        i = i + 1;
    }
    assert(digits.take(len - 2) =~= digits);
    value
}

/// A value fits an `i32`.
pub open spec fn fits_i32(v: int) -> bool {
    i32::MIN <= v <= i32::MAX
}

/// The size to request for an outer window rectangle, or why it cannot be
/// requested: each side must fit an `i32` and both must be positive.
pub open spec fn outer_size_check(t: SignedRect) -> Result<(i32, i32), Seq<char>> {
    let w = rect_width(t);
    let h = rect_height(t);
    if !fits_i32(w) {
        Err("requested window width is outside i32"@)
    } else if !fits_i32(h) {
        Err("requested window height is outside i32"@)
    } else if w <= 0 || h <= 0 {
        Err("requested outer rect must be positive: "@ + int_digits(w) + "x"@ + int_digits(h))
    } else {
        Ok((w as i32, h as i32))
    }
}

/// The rectangle a window of the saved normal size takes when moved to
/// (`left`, `top`), or why it cannot be expressed in `i32` coordinates.
pub open spec fn position_only_check(normal: SignedRect, left: i32, top: i32) -> Result<SignedRect, Seq<char>> {
    let w = rect_width(normal);
    let h = rect_height(normal);
    if !fits_i32(w) {
        Err("saved window width is outside i32"@)
    } else if !fits_i32(h) {
        Err("saved window height is outside i32"@)
    } else if !fits_i32(left + w) {
        Err("requested right coordinate is outside i32"@)
    } else if !fits_i32(top + h) {
        Err("requested bottom coordinate is outside i32"@)
    } else {
        Ok(SignedRect { left, top, right: (left + w) as i32, bottom: (top + h) as i32 })
    }
}

/// Checks the size of a requested outer rectangle; see `outer_size_check`.
pub fn outer_rect_size(target: SignedRect) -> (r: Result<(i32, i32), String>)
    ensures
        match r {
            Ok(size) => outer_size_check(target) == Ok::<(i32, i32), Seq<char>>(size),
            Err(e) => outer_size_check(target) == Err::<(i32, i32), Seq<char>>(e@),
        },
{
    let w = target.width();
    let h = target.height();
    if w < i32::MIN as i64 || w > i32::MAX as i64 {
        proof {
            reveal_strlit("requested window width is outside i32");
        }
        return Err(String::from_str("requested window width is outside i32"));
    }
    if h < i32::MIN as i64 || h > i32::MAX as i64 {
        proof {
            reveal_strlit("requested window height is outside i32");
        }
        return Err(String::from_str("requested window height is outside i32"));
    }
    if w <= 0 || h <= 0 {
        let mut msg = String::from_str("requested outer rect must be positive: ");
        push_i64_digits(&mut msg, w);
        push_str(&mut msg, "x");
        push_i64_digits(&mut msg, h);
        proof {
            reveal_strlit("requested outer rect must be positive: ");
            reveal_strlit("x");
        }
        assert(msg@ =~= "requested outer rect must be positive: "@ + int_digits(w as int) + "x"@ + int_digits(
            h as int,
        ));
        return Err(msg);
    }
    Ok((w as i32, h as i32))
}

/// Computes the target of a position-only move; see `position_only_check`.
pub fn position_only_rect(normal: SignedRect, left: i32, top: i32) -> (r: Result<SignedRect, String>)
    ensures
        match r {
            Ok(rect) => position_only_check(normal, left, top) == Ok::<SignedRect, Seq<char>>(rect),
            Err(e) => position_only_check(normal, left, top) == Err::<SignedRect, Seq<char>>(e@),
        },
{
    let w = normal.width();
    let h = normal.height();
    if w < i32::MIN as i64 || w > i32::MAX as i64 {
        proof {
            reveal_strlit("saved window width is outside i32");
        }
        return Err(String::from_str("saved window width is outside i32"));
    }
    if h < i32::MIN as i64 || h > i32::MAX as i64 {
        proof {
            reveal_strlit("saved window height is outside i32");
        }
        return Err(String::from_str("saved window height is outside i32"));
    }
    let right = left as i64 + w;
    let bottom = top as i64 + h;
    if right < i32::MIN as i64 || right > i32::MAX as i64 {
        proof {
            reveal_strlit("requested right coordinate is outside i32");
        }
        return Err(String::from_str("requested right coordinate is outside i32"));
    }
    if bottom < i32::MIN as i64 || bottom > i32::MAX as i64 {
        proof {
            reveal_strlit("requested bottom coordinate is outside i32");
        }
        return Err(String::from_str("requested bottom coordinate is outside i32"));
    }
    Ok(SignedRect { left, top, right: right as i32, bottom: bottom as i32 })
}

impl SortKey for MonitorDescriptor {
    open spec fn sorts_before(self, other: Self) -> bool {
        seq_lt(self.device_name@, other.device_name@)
    }

    fn before(&self, other: &Self) -> (b: bool) {
        str_lt(self.device_name.as_str(), other.device_name.as_str())
    }

    proof fn lemma_strict_weak_order(a: Self, b: Self, c: Self) {
        lemma_seq_lt_irreflexive(a.device_name@, b.device_name@);
        lemma_seq_lt_irreflexive(b.device_name@, c.device_name@);
        lemma_seq_lt_irreflexive(a.device_name@, c.device_name@);
        lemma_seq_lt_transitive(a.device_name@, b.device_name@, c.device_name@);
        lemma_seq_lt_total(a.device_name@, b.device_name@);
        lemma_seq_lt_total(b.device_name@, c.device_name@);
        lemma_seq_lt_total(a.device_name@, c.device_name@);
    }
}

/// The monitors of an enumeration in device-name order; monitors with the
/// same name keep their order.
pub fn monitors_by_device_name(monitors: Vec<MonitorDescriptor>) -> (r: Vec<MonitorDescriptor>)
    ensures
        stably_sorted(monitors@, r@),
{
    stable_sort(monitors)
}

/// The candidate order of an inspection report: eligible game windows
/// first, then by class name, then by handle text.
pub open spec fn candidate_before(a: WindowCandidateDiagnostic, b: WindowCandidateDiagnostic) -> bool {
    (a.eligible_game_window && !b.eligible_game_window) || (a.eligible_game_window
        == b.eligible_game_window && (seq_lt(a.class_name@, b.class_name@) || (a.class_name@
        == b.class_name@ && seq_lt(a.hwnd@, b.hwnd@))))
}

impl SortKey for WindowCandidateDiagnostic {
    open spec fn sorts_before(self, other: Self) -> bool {
        candidate_before(self, other)
    }

    fn before(&self, other: &Self) -> (b: bool) {
        if self.eligible_game_window != other.eligible_game_window {
            return self.eligible_game_window;
        }
        if str_lt(self.class_name.as_str(), other.class_name.as_str()) {
            return true;
        }
        if !str_eq(self.class_name.as_str(), other.class_name.as_str()) {
            return false;
        }
        str_lt(self.hwnd.as_str(), other.hwnd.as_str())
    }

    proof fn lemma_strict_weak_order(a: Self, b: Self, c: Self) {
        lemma_seq_lt_irreflexive(a.class_name@, b.class_name@);
        lemma_seq_lt_irreflexive(a.hwnd@, b.hwnd@);
        lemma_seq_lt_irreflexive(b.class_name@, c.class_name@);
        lemma_seq_lt_irreflexive(b.hwnd@, c.hwnd@);
        lemma_seq_lt_irreflexive(a.class_name@, c.class_name@);
        lemma_seq_lt_irreflexive(a.hwnd@, c.hwnd@);
        lemma_seq_lt_transitive(a.class_name@, b.class_name@, c.class_name@);
        lemma_seq_lt_transitive(a.hwnd@, b.hwnd@, c.hwnd@);
        lemma_seq_lt_total(a.class_name@, b.class_name@);
        lemma_seq_lt_total(b.class_name@, c.class_name@);
        lemma_seq_lt_total(a.class_name@, c.class_name@);
        lemma_seq_lt_total(a.hwnd@, b.hwnd@);
        lemma_seq_lt_total(b.hwnd@, c.hwnd@);
        lemma_seq_lt_total(a.hwnd@, c.hwnd@);
    }
}

/// Number of eligible game windows among the candidates.
pub open spec fn eligible_count(cs: Seq<WindowCandidateDiagnostic>) -> nat
    decreases cs.len(),
{
    if cs.len() == 0 {
        0
    } else {
        eligible_count(cs.drop_last()) + if cs.last().eligible_game_window {
            1nat
        } else {
            0nat
        }
    }
}

/// Every candidate's handle is rendered as `hwnd_text` of a `usize`.
pub open spec fn handles_well_formed(cs: Seq<WindowCandidateDiagnostic>) -> bool {
    forall|i: int|
        0 <= i < cs.len() ==> exists|n: usize| (#[trigger] cs[i]).hwnd@ == #[trigger] hwnd_text(n as nat)
}

/// Whether two creation-time readings agree, when both are known.
pub open spec fn creation_times_match(expected: Option<u64>, observed: Result<u64, String>) -> Option<
    bool,
> {
    match (expected, observed) {
        (Some(e), Ok(o)) => Some(e == o),
        _ => None,
    }
}

/// The report of a process's windows built from what enumeration observed.
pub open spec fn inspection_summarizes(
    r: ProcessWindowInspection,
    pid: u32,
    expected: Option<u64>,
    observed: Result<u64, String>,
    candidates: Seq<WindowCandidateDiagnostic>,
    warnings: Seq<String>,
) -> bool {
    let matches = creation_times_match(expected, observed);
    let n = eligible_count(candidates);
    &&& r.pid == pid
    &&& r.expected_process_creation_time_filetime_100ns is Some == expected is Some
    &&& expected matches Some(e) ==> r.expected_process_creation_time_filetime_100ns->0@
        == nat_digits(e as nat)
    &&& r.observed_process_creation_time_filetime_100ns is Some == observed is Ok
    &&& observed matches Ok(o) ==> r.observed_process_creation_time_filetime_100ns->0@
        == nat_digits(o as nat)
    &&& r.process_creation_time_matches == matches
    &&& stably_sorted(candidates, r.candidates@)
    &&& r.warnings@ == match observed {
        Err(e) => seq![e] + warnings,
        Ok(_) => warnings,
    }
    &&& r.status@ == inspection_status_text(matches, n)
    &&& r.management_eligible == (r.status@ == "ready"@)
    &&& (n == 1) == (r.selected_hwnd is Some)
    &&& (n == 1) == (r.selected_hwnd_value is Some)
    &&& r.selected_hwnd matches Some(h) ==> exists|i: int|
        0 <= i < candidates.len() && candidates[i].eligible_game_window && h == candidates[i].hwnd
    &&& r.selected_hwnd_value matches Some(v) ==> r.selected_hwnd->0@ == hwnd_text(v as nat)
}

fn count_eligible(cs: &Vec<WindowCandidateDiagnostic>) -> (r: (usize, usize))
    ensures
        r.0 == eligible_count(cs@),
        r.0 >= 1 ==> r.1 < cs@.len() && cs@[r.1 as int].eligible_game_window,
{
    let mut count: usize = 0;
    let mut last: usize = 0;
    let mut i: usize = 0;
    while i < cs.len()
        invariant
            i <= cs@.len(),
            count == eligible_count(cs@.take(i as int)),
            count <= i,
            count >= 1 ==> last < i && cs@[last as int].eligible_game_window,
        decreases cs@.len() - i,
    {
        assert(cs@.take(i + 1).drop_last() =~= cs@.take(i as int));
        if cs[i].eligible_game_window {
            count = count + 1;
            last = i;
        }
        i = i + 1;
    }
    assert(cs@.take(cs@.len() as int) =~= cs@);
    (count, last)
}

/// Builds the report of a process's windows from what the enumeration saw:
/// the observed creation time (or the error reading it), the candidate
/// windows and the warnings raised while enumerating.
pub fn summarize_window_inspection(
    pid: u32,
    expected: Option<u64>,
    observed: Result<u64, String>,
    candidates: Vec<WindowCandidateDiagnostic>,
    warnings: Vec<String>,
) -> (r: ProcessWindowInspection)
    requires
        handles_well_formed(candidates@),
    ensures
        inspection_summarizes(r, pid, expected, observed, candidates@, warnings@),
{
    let ghost input = candidates@;
    let matches: Option<bool> = match (expected, &observed) {
        (Some(e), Ok(o)) => Some(e == *o),
        _ => None,
    };
    let expected_text = match expected {
        Some(e) => Some(crate::text::u64_to_decimal(e)),
        None => None,
    };
    let observed_text = match &observed {
        Ok(o) => Some(crate::text::u64_to_decimal(*o)),
        Err(_) => None,
    };
    let (count, last) = count_eligible(&candidates);
    let mut selected_hwnd: Option<String> = None;
    let mut selected_hwnd_value: Option<usize> = None;
    if count == 1 {
        let h = candidates[last].hwnd.clone();
        assert(exists|n: usize| input[last as int].hwnd@ == #[trigger] hwnd_text(n as nat));
        let v = parse_hwnd(h.as_str());
        selected_hwnd = Some(h);
        selected_hwnd_value = Some(v);
    }
    let mut all_warnings: Vec<String> = Vec::new();
    match observed {
        Err(e) => {
            all_warnings.push(e);
        },
        Ok(_) => {},
    }
    let mut rest = warnings;
    let ghost w = rest@;
    all_warnings.append(&mut rest);
    let status = window_inspection_status(matches, count);
    let sorted = stable_sort(candidates);
    let management_eligible = str_eq(status, "ready");
    proof {
        reveal_strlit("ready");
    }
    ProcessWindowInspection {
        pid,
        expected_process_creation_time_filetime_100ns: expected_text,
        observed_process_creation_time_filetime_100ns: observed_text,
        process_creation_time_matches: matches,
        selected_hwnd,
        management_eligible,
        status,
        candidates: sorted,
        warnings: all_warnings,
        selected_hwnd_value,
    }
}

/// Index of the first candidate whose handle text is `h`.
pub open spec fn first_with_hwnd(cs: Seq<WindowCandidateDiagnostic>, h: Seq<char>) -> Option<int>
    decreases cs.len(),
{
    if cs.len() == 0 {
        None
    } else if cs[0].hwnd@ == h {
        Some(0)
    } else {
        match first_with_hwnd(cs.drop_first(), h) {
            Some(i) => Some(i + 1),
            None => None,
        }
    }
}

/// The candidate of the selected window, if one is selected and listed.
pub open spec fn selected_candidate_index(inspection: ProcessWindowInspection) -> Option<int> {
    match inspection.selected_hwnd {
        Some(h) => first_with_hwnd(inspection.candidates@, h@),
        None => None,
    }
}

proof fn lemma_first_with_hwnd(cs: Seq<WindowCandidateDiagnostic>, h: Seq<char>, i: int)
    requires
        0 <= i <= cs.len(),
        forall|j: int| 0 <= j < i ==> (#[trigger] cs[j]).hwnd@ != h,
    ensures
        first_with_hwnd(cs, h) == (match first_with_hwnd(cs.skip(i), h) {
            Some(x) => Some(x + i),
            None => None,
        }),
    decreases i,
{
    if i > 0 {
        assert(cs.drop_first().skip(i - 1) =~= cs.skip(i));
        lemma_first_with_hwnd(cs.drop_first(), h, i - 1);
    } else {
        assert(cs.skip(0) =~= cs);
    }
}

pub fn selected_candidate(inspection: &ProcessWindowInspection) -> (r: Option<
    &WindowCandidateDiagnostic,
>)
    ensures
        r is Some == selected_candidate_index(*inspection) is Some,
        r matches Some(c) ==> *c == inspection.candidates@[selected_candidate_index(*inspection)->0],
        selected_candidate_index(*inspection) matches Some(i) ==> 0 <= i
            < inspection.candidates@.len(),
{
    match &inspection.selected_hwnd {
        None => None,
        Some(selected) => {
            let cs = &inspection.candidates;
            let mut i: usize = 0;
            while i < cs.len()
                invariant
                    i <= cs@.len(),
                    inspection.selected_hwnd == Some(*selected),
                    cs@ == inspection.candidates@,
                    forall|j: int| 0 <= j < i ==> (#[trigger] cs@[j]).hwnd@ != selected@,
                decreases cs@.len() - i,
            {
                if cs[i].hwnd == *selected {
                    proof {
                        lemma_first_with_hwnd(cs@, selected@, i as int);
                        assert(cs@.skip(i as int)[0] == cs@[i as int]);
                        assert(cs@[i as int].hwnd@ == selected@);
                        assert(first_with_hwnd(cs@.skip(i as int), selected@) == Some(0int));
                        assert(inspection.selected_hwnd == Some(*selected));
                        assert(first_with_hwnd(cs@, selected@) == Some(i as int));
                        assert(selected_candidate_index(*inspection) == Some(i as int));
                    }
                    return Some(&cs[i]);
                }
                i = i + 1;
            }
            proof {
                lemma_first_with_hwnd(cs@, selected@, i as int);
            }
            None
        },
    }
}

/// "<prefix><number><suffix>" messages.
pub open spec fn numbered_text(prefix: Seq<char>, n: nat, suffix: Seq<char>) -> Seq<char> {
    prefix + nat_digits(n) + suffix
}

fn numbered_message(prefix: &str, n: u64, suffix: &str) -> (s: String)
    ensures
        s@ == numbered_text(prefix@, n as nat, suffix@),
{
    let mut s = String::new();
    push_str(&mut s, prefix);
    push_u64_digits(&mut s, n);
    push_str(&mut s, suffix);
    assert(s@ =~= numbered_text(prefix@, n as nat, suffix@));
    s
}

/// The error of an action after which the game window is no longer safe to
/// manage, or whose window disappeared.
pub open spec fn action_result_error(action: Seq<char>, inspection: ProcessWindowInspection) -> Seq<
    char,
> {
    if !inspection.management_eligible {
        "game window became unsafe after "@ + action + " for PID "@ + nat_digits(
            inspection.pid as nat,
        ) + ": "@ + inspection.status@
    } else {
        "selected game window disappeared after "@ + action
    }
}

/// Whether an observed rectangle has the requested top-left corner.
pub open spec fn position_matches(actual: Option<SignedRect>, requested: SignedRect) -> bool {
    actual matches Some(a) && a.left == requested.left && a.top == requested.top
}

/// Report of a window action from the inspection made after it.
pub fn window_action_result(
    action: &'static str,
    inspection: &ProcessWindowInspection,
    requested_outer_rect: Option<SignedRect>,
) -> (r: Result<WindowActionResult, String>)
    ensures
        r is Ok == (inspection.management_eligible && selected_candidate_index(*inspection) is Some),
        r matches Err(e) ==> e@ == action_result_error(action@, *inspection),
        r matches Ok(res) ==> {
            let c = inspection.candidates@[selected_candidate_index(*inspection)->0];
            &&& res.action == action && res.pid == inspection.pid && res.hwnd == c.hwnd
            &&& res.requested_outer_rect == requested_outer_rect
            &&& res.actual_window_rect == c.window_rect
            &&& res.actual_normal_rect == c.normal_rect
            &&& res.actual_client_rect_screen == c.client_rect_screen
            &&& res.requested_outer_rect_matches == match requested_outer_rect {
                Some(q) => Some(c.window_rect == Some(q)),
                None => None::<bool>,
            }
            &&& res.requested_position_matches == match requested_outer_rect {
                Some(q) => Some(position_matches(c.window_rect, q)),
                None => None::<bool>,
            }
            &&& res.show_cmd == c.show_cmd && res.is_minimized == c.is_minimized && res.dpi == c.dpi
        },
{
    if !inspection.management_eligible {
        let mut s = String::new();
        push_str(&mut s, "game window became unsafe after ");
        push_str(&mut s, action);
        push_str(&mut s, " for PID ");
        push_u64_digits(&mut s, inspection.pid as u64);
        push_str(&mut s, ": ");
        push_str(&mut s, inspection.status);
        proof {
            reveal_strlit("game window became unsafe after ");
            reveal_strlit(" for PID ");
            reveal_strlit(": ");
        }
        assert(s@ =~= action_result_error(action@, *inspection));
        return Err(s);
    }
    let candidate = match selected_candidate(inspection) {
        Some(c) => c,
        None => {
            let mut s = String::new();
            push_str(&mut s, "selected game window disappeared after ");
            push_str(&mut s, action);
            proof {
                reveal_strlit("selected game window disappeared after ");
            }
            assert(s@ =~= action_result_error(action@, *inspection));
            return Err(s);
        },
    };
    let outer_matches = match requested_outer_rect {
        Some(q) => Some(
            match candidate.window_rect {
                Some(w) => w.left == q.left && w.top == q.top && w.right == q.right && w.bottom
                    == q.bottom,
                None => false,
            },
        ),
        None => None,
    };
    let position = match requested_outer_rect {
        Some(q) => Some(
            match candidate.window_rect {
                Some(w) => w.left == q.left && w.top == q.top,
                None => false,
            },
        ),
        None => None,
    };
    Ok(
        WindowActionResult {
            action,
            pid: inspection.pid,
            hwnd: candidate.hwnd.clone(),
            requested_outer_rect,
            actual_window_rect: candidate.window_rect,
            actual_normal_rect: candidate.normal_rect,
            actual_client_rect_screen: candidate.client_rect_screen,
            requested_outer_rect_matches: outer_matches,
            requested_position_matches: position,
            show_cmd: candidate.show_cmd,
            is_minimized: candidate.is_minimized,
            dpi: candidate.dpi,
        },
    )
}

/// Observation of a controlled broker window, from the inspection made
/// after the control.
pub fn control_observation(
    action: &'static str,
    target: BrokerWindowTarget,
    inspection: &ProcessWindowInspection,
) -> (r: Result<WindowControlObservation, String>)
    ensures
        r is Ok == selected_candidate_index(*inspection) is Some,
        r matches Err(e) ==> e@ == numbered_text("PID "@, target.pid as nat, " selected window disappeared"@),
        r matches Ok(o) ==> {
            let c = inspection.candidates@[selected_candidate_index(*inspection)->0];
            &&& o.action == action && o.pid == target.pid && o.hwnd == c.hwnd
            &&& o.hwnd_generation == target.hwnd_generation
            &&& o.is_minimized == c.is_minimized && o.dpi == c.dpi
        },
{
    match selected_candidate(inspection) {
        Some(candidate) => Ok(
            WindowControlObservation {
                action,
                pid: target.pid,
                hwnd: candidate.hwnd.clone(),
                hwnd_generation: target.hwnd_generation,
                is_minimized: candidate.is_minimized,
                dpi: candidate.dpi,
            },
        ),
        None => Err(numbered_message("PID ", target.pid as u64, " selected window disappeared")),
    }
}

/// Message of a window operation on a platform without Win32 windows.
pub open spec fn unsupported_text(what: Seq<char>, pid: u32) -> Seq<char> {
    what + " is available only on Windows (pid "@ + nat_digits(pid as nat) + ")"@
}

fn unsupported_message(what: &str, pid: u32) -> (s: String)
    ensures
        s@ == unsupported_text(what@, pid),
{
    let mut s = String::new();
    push_str(&mut s, what);
    push_str(&mut s, " is available only on Windows (pid ");
    push_u64_digits(&mut s, pid as u64);
    push_str(&mut s, ")");
    proof {
        reveal_strlit(" is available only on Windows (pid ");
        reveal_strlit(")");
    }
    assert(s@ =~= unsupported_text(what@, pid));
    s
}

/// Minimizing a broker window needs Win32; elsewhere it fails.
pub fn minimize_broker_window(target: BrokerWindowTarget) -> (r: Result<WindowControlObservation, String>)
    ensures
        r matches Err(e) && e@ == unsupported_text("window minimize"@, target.pid),
{
    Err(unsupported_message("window minimize", target.pid))
}

/// Restoring a broker window needs Win32; elsewhere it fails.
pub fn restore_broker_window(target: BrokerWindowTarget) -> (r: Result<WindowControlObservation, String>)
    ensures
        r matches Err(e) && e@ == unsupported_text("window restore"@, target.pid),
{
    Err(unsupported_message("window restore", target.pid))
}

/// Raising a broker window needs Win32; elsewhere it fails.
pub fn raise_broker_window(target: BrokerWindowTarget) -> (r: Result<WindowControlObservation, String>)
    ensures
        r matches Err(e) && e@ == unsupported_text("window raise"@, target.pid),
{
    Err(unsupported_message("window raise", target.pid))
}

/// Closing a broker window needs Win32; elsewhere it fails.
pub fn close_broker_window(target: BrokerWindowTarget) -> (r: Result<WindowControlObservation, String>)
    ensures
        r matches Err(e) && e@ == unsupported_text("window close"@, target.pid),
{
    Err(unsupported_message("window close", target.pid))
}

/// Message of the process creation time reading on a platform without
/// Win32.
pub open spec fn creation_time_unsupported_text(pid: u32) -> Seq<char> {
    "process creation time diagnostics are available only on Windows (pid "@ + nat_digits(pid as nat) + ")"@
}

/// Reading a process creation time needs Win32; elsewhere it fails.
pub fn query_process_creation_time(pid: u32) -> (r: Result<u64, String>)
    ensures
        r matches Err(e) && e@ == creation_time_unsupported_text(pid),
{
    let mut s = String::new();
    push_str(&mut s, "process creation time diagnostics are available only on Windows (pid ");
    push_u64_digits(&mut s, pid as u64);
    push_str(&mut s, ")");
    proof {
        reveal_strlit("process creation time diagnostics are available only on Windows (pid ");
        reveal_strlit(")");
    }
    assert(s@ =~= creation_time_unsupported_text(pid));
    Err(s)
}

/// Capturing a game window needs Win32; elsewhere it fails.
pub fn capture_game_window(pid: u32, process_creation_time_filetime_100ns: u64) -> (r: Result<
    SavedWindowPlacement,
    String,
>)
    ensures
        r matches Err(e) && e@ == unsupported_text("window capture"@, pid),
{
    Err(unsupported_message("window capture", pid))
}

/// Moving a game window without resizing needs Win32; elsewhere it fails.
pub fn apply_test_position_only(snapshot: &SavedWindowPlacement, left: i32, top: i32) -> (r: Result<
    WindowActionResult,
    String,
>)
    ensures
        r matches Err(e) && e@ == unsupported_text("window positioning"@, snapshot.pid),
{
    Err(unsupported_message("window positioning", snapshot.pid))
}

/// Moving and resizing a game window needs Win32; elsewhere it fails.
pub fn apply_test_outer_rect(snapshot: &SavedWindowPlacement, target: SignedRect) -> (r: Result<
    WindowActionResult,
    String,
>)
    ensures
        r matches Err(e) && e@ == unsupported_text("window movement"@, snapshot.pid),
{
    Err(unsupported_message("window movement", snapshot.pid))
}

/// Restoring a saved placement needs Win32; elsewhere it fails.
pub fn restore_saved_window(snapshot: &SavedWindowPlacement) -> (r: Result<WindowActionResult, String>)
    ensures
        r matches Err(e) && e@ == unsupported_text("window restoration"@, snapshot.pid),
{
    Err(unsupported_message("window restoration", snapshot.pid))
}

/// Without Win32 windows a process cannot be inspected: the report says so
/// and never makes the process eligible for management.
pub fn inspect_process_windows(pid: u32, expected_process_creation_time_filetime_100ns: Option<u64>) -> (r:
    ProcessWindowInspection)
    ensures
        r.pid == pid,
        r.expected_process_creation_time_filetime_100ns is Some
            == expected_process_creation_time_filetime_100ns is Some,
        expected_process_creation_time_filetime_100ns matches Some(e)
            ==> r.expected_process_creation_time_filetime_100ns->0@ == nat_digits(e as nat),
        r.observed_process_creation_time_filetime_100ns is None,
        r.process_creation_time_matches is None,
        r.selected_hwnd is None,
        r.selected_hwnd_value is None,
        !r.management_eligible,
        r.status@ == "unsupported_platform"@,
        r.candidates@.len() == 0,
        r.warnings@.len() == 1,
        r.warnings@[0]@ == "window diagnostics are available only on Windows"@,
{
    let mut warnings = Vec::new();
    warnings.push(String::from_str("window diagnostics are available only on Windows"));
    ProcessWindowInspection {
        pid,
        expected_process_creation_time_filetime_100ns: match expected_process_creation_time_filetime_100ns {
            Some(e) => Some(crate::text::u64_to_decimal(e)),
            None => None,
        },
        observed_process_creation_time_filetime_100ns: None,
        process_creation_time_matches: None,
        selected_hwnd: None,
        management_eligible: false,
        status: "unsupported_platform",
        candidates: Vec::new(),
        warnings,
        selected_hwnd_value: None,
    }
}

/// Enumerating monitors needs Win32; elsewhere it fails.
pub fn enumerate_monitors() -> (r: Result<MonitorEnumeration, String>)
    ensures
        r matches Err(e) && e@ == "Stage 0 monitor diagnostics are available only on Windows"@,
{
    Err(String::from_str("Stage 0 monitor diagnostics are available only on Windows"))
}

} // verus!
