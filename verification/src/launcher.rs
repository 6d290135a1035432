//! Launch planning: which accounts a MULTI LOGIN starts, the window tile of
//! each, the ClassicUO command line, and the plans of group window control.

use vstd::prelude::*;
use crate::multiclient::ManagedTile;
use crate::layout::{SignedRect, grid_slot, split_outcome_ok};
use crate::multiclient::{
    areas_fit, best_secondary, first_unfit_from, preset_rects, secondary_managed_tiles,
    split_error_text, tile_error_text, tile_of,
};
use crate::broker::{BrokerWindowTarget, GroupControlAction, action_name, parse_action};
use crate::sort::{SortKey, stable_sort, stably_sorted};
use crate::windows::{MonitorEnumeration, WindowControlObservation};
use crate::profile::{
    Account, EncryptionType, Profile, SecondaryLayoutPreset, SecondarySlot, encryption_number,
    preset_allows, slot_name, slot_order,
};
use crate::text::{
    int_digits, is_whitespace_char, is_ws, nat_digits, needs_quoting_char, push_i64_digits, push_str, str_eq, trimmed,
};

verus! {

/// Most accounts a MULTI LOGIN starts.
pub const MAX_MULTI_ACCOUNTS: usize = 6;

/// Whether the account at `index` takes part in MULTI LOGIN: its own
/// setting, or for legacy accounts without one, whether it is among the
/// first six.
pub open spec fn multi_enabled_at(a: Account, index: int) -> bool {
    match a.multi_enabled {
        Some(v) => v,
        None => index < 6,
    }
}

/// Indices of the MULTI-enabled accounts among the first `n`.
pub open spec fn enabled_indices(accounts: Seq<Account>, n: int) -> Seq<int>
    decreases n,
{
    if n <= 0 {
        Seq::empty()
    } else {
        let prev = enabled_indices(accounts, n - 1);
        if multi_enabled_at(accounts[n - 1], n - 1) {
            prev.push(n - 1)
        } else {
            prev
        }
    }
}

/// Indices of the accounts a MULTI LOGIN selects: the first six enabled ones.
pub open spec fn selected_indices(accounts: Seq<Account>) -> Seq<int> {
    let e = enabled_indices(accounts, accounts.len() as int);
    if e.len() > 6 {
        e.take(6)
    } else {
        e
    }
}

proof fn lemma_enabled_indices_bounds(accounts: Seq<Account>, m: int)
    ensures
        enabled_indices(accounts, m).len() <= if m < 0 { 0 } else { m },
        forall|i: int|
            0 <= i < enabled_indices(accounts, m).len() ==> 0 <= #[trigger] enabled_indices(
                accounts,
                m,
            )[i] < m,
    decreases m,
{
    if m > 0 {
        lemma_enabled_indices_bounds(accounts, m - 1);
    }
}

proof fn lemma_enabled_indices_extend(accounts: Seq<Account>, n: int, m: int)
    requires
        0 <= n <= m,
    ensures
        enabled_indices(accounts, n).len() <= enabled_indices(accounts, m).len(),
        enabled_indices(accounts, m).take(enabled_indices(accounts, n).len() as int)
            == enabled_indices(accounts, n),
    decreases m - n,
{
    if m > n {
        lemma_enabled_indices_extend(accounts, n, m - 1);
        let a = enabled_indices(accounts, n);
        let b = enabled_indices(accounts, m - 1);
        assert(b.take(a.len() as int) == a);
        if multi_enabled_at(accounts[m - 1], m - 1) {
            assert(b.push(m - 1).take(a.len() as int) =~= b.take(a.len() as int));
        }
    } else {
        assert(enabled_indices(accounts, n).take(enabled_indices(accounts, n).len() as int)
            =~= enabled_indices(accounts, n));
    }
}

/// Interprets an account's MULTI LOGIN setting at its position.
pub fn is_account_multi_enabled(account: &Account, index: usize) -> (b: bool)
    ensures
        b == multi_enabled_at(*account, index as int),
{
    match account.multi_enabled {
        Some(v) => v,
        None => index < 6,
    }
}

/// The accounts of a profile that a MULTI LOGIN starts: the enabled ones,
/// in profile order, at most six.
pub fn selected_multi_accounts(profile: &Profile) -> (r: Vec<&Account>)
    ensures
        r@.len() == selected_indices(profile.server.accounts@).len(),
        r@.len() <= MAX_MULTI_ACCOUNTS,
        forall|i: int|
            0 <= i < r@.len() ==> *(#[trigger] r@[i]) == profile.server.accounts@[selected_indices(
                profile.server.accounts@,
            )[i]],
{
    let accounts = &profile.server.accounts;
    let ghost accs = accounts@;
    let mut r: Vec<&Account> = Vec::new();
    let mut i: usize = 0;
    while i < accounts.len()
        invariant
            accs == accounts@,
            accs == profile.server.accounts@,
            i <= accs.len(),
            r@.len() == enabled_indices(accs, i as int).len(),
            r@.len() < 6,
            forall|j: int|
                0 <= j < r@.len() ==> *(#[trigger] r@[j]) == accs[enabled_indices(accs, i as int)[j]],
        decreases accs.len() - i,
    {
        if is_account_multi_enabled(&accounts[i], i) {
            r.push(&accounts[i]);
            assert(enabled_indices(accs, i as int + 1) == enabled_indices(accs, i as int).push(
                i as int,
            ));
            if r.len() == 6 {
                proof {
                    lemma_enabled_indices_extend(accs, i as int + 1, accs.len() as int);
                    let full = enabled_indices(accs, accs.len() as int);
                    let pre = enabled_indices(accs, i as int + 1);
                    assert(full.take(6) == pre);
                    if full.len() == 6 {
                        assert(full.take(6) =~= full);
                    }
                    assert(selected_indices(accs) == pre);
                }
                return r;
            }
        }
        i = i + 1;
    }
    proof {
        assert(selected_indices(accs) == enabled_indices(accs, accs.len() as int));
    }
    r
}

/// The HUD leader of a MULTI selection: its first account.
pub fn hud_leader_account_id<'a>(selected: &[&'a Account]) -> (r: Option<&'a str>)
    ensures
        match r {
            Some(id) => selected@.len() > 0 && id@ == selected@[0].id@,
            None => selected@.len() == 0,
        },
{
    if selected.len() == 0 {
        None
    } else {
        Some(selected[0].id.as_str())
    }
}

/// The `-ggo_managed_tile` value of a tile: "x=..;y=..;w=..;h=..".
pub open spec fn tile_value_text(t: ManagedTile) -> Seq<char> {
    "x="@ + int_digits(t.left as int) + ";y="@ + int_digits(t.top as int) + ";w="@ + int_digits(
        t.width as int,
    ) + ";h="@ + int_digits(t.height as int)
}

pub fn managed_tile_value(tile: ManagedTile) -> (s: String)
    ensures
        s@ == tile_value_text(tile),
{
    let mut s = String::new();
    push_str(&mut s, "x=");
    push_i64_digits(&mut s, tile.left as i64);
    push_str(&mut s, ";y=");
    push_i64_digits(&mut s, tile.top as i64);
    push_str(&mut s, ";w=");
    push_i64_digits(&mut s, tile.width as i64);
    push_str(&mut s, ";h=");
    push_i64_digits(&mut s, tile.height as i64);
    proof {
        reveal_strlit("x=");
        reveal_strlit(";y=");
        reveal_strlit(";w=");
        reveal_strlit(";h=");
    }
    assert(s@ =~= tile_value_text(tile));
    s
}

/// The texts of a list of strings.
pub open spec fn texts(v: Seq<String>) -> Seq<Seq<char>> {
    v.map_values(|s: String| s@)
}

/// Appends one argument.
pub fn push_arg(out: &mut Vec<String>, arg: &str)
    ensures
        texts(final(out)@) == texts(old(out)@).push(arg@),
{
    out.push(String::from_str(arg));
    assert(texts(final(out)@) =~= texts(old(out)@).push(arg@));
}

fn push_owned(out: &mut Vec<String>, arg: String)
    ensures
        texts(final(out)@) == texts(old(out)@).push(arg@),
{
    out.push(arg);
    assert(texts(final(out)@) =~= texts(old(out)@).push(arg@));
}

/// Appends a key and its value as two arguments.
pub fn push_kv(out: &mut Vec<String>, key: &str, val: &str)
    ensures
        texts(final(out)@) == texts(old(out)@).push(key@).push(val@),
{
    push_arg(out, key);
    push_arg(out, val);
}

/// Arguments joined by single spaces.
pub open spec fn join_spaces(parts: Seq<Seq<char>>) -> Seq<char>
    decreases parts.len(),
{
    if parts.len() == 0 {
        Seq::empty()
    } else if parts.len() == 1 {
        parts[0]
    } else {
        join_spaces(parts.drop_last()) + " "@ + parts.last()
    }
}

/// Joins arguments with single spaces, as `[String]::join(" ")` does.
pub fn join_args(parts: &Vec<String>) -> (s: String)
    ensures
        s@ == join_spaces(texts(parts@)),
{
    let ghost ts = texts(parts@);
    let mut s = String::new();
    let mut i: usize = 0;
    proof {
        reveal_strlit(" ");
    }
    while i < parts.len()
        invariant
            ts == texts(parts@),
            i <= parts@.len(),
            s@ == join_spaces(ts.take(i as int)),
        decreases parts@.len() - i,
    {
        if i > 0 {
            push_str(&mut s, " ");
        }
        push_str(&mut s, parts[i].as_str());
        proof {
            let t = ts.take(i as int + 1);
            assert(t.drop_last() =~= ts.take(i as int));
            assert(t.last() == parts@[i as int]@);
            if i == 0 {
                assert(s@ =~= join_spaces(t));
            } else {
                assert(s@ =~= join_spaces(t));
            }
        }
        i = i + 1;
    }
    assert(ts.take(parts@.len() as int) =~= ts);
    s
}

/// `n` backslashes.
pub open spec fn backslashes(n: nat) -> Seq<char> {
    Seq::new(n, |i: int| '\\')
}

/// The inside of a quoted argument from position `i`, with `pending`
/// backslashes read but not yet written: a run of backslashes is written as
/// is unless a double quote or the closing quote follows it, in which case
/// it is doubled; a double quote is escaped with one more backslash.
pub open spec fn quote_body(cs: Seq<char>, i: int, pending: nat) -> Seq<char>
    decreases cs.len() - i,
{
    if i < 0 || i >= cs.len() {
        backslashes(2 * pending)
    } else if cs[i] == '\\' {
        quote_body(cs, i + 1, pending + 1)
    } else if cs[i] == '"' {
        backslashes(2 * pending + 1) + seq!['"'] + quote_body(cs, i + 1, 0)
    } else {
        backslashes(pending) + seq![cs[i]] + quote_body(cs, i + 1, 0)
    }
}

/// Whether an argument must be quoted: it holds whitespace or a double quote.
pub open spec fn needs_quoting(s: Seq<char>) -> bool {
    exists|i: int| 0 <= i < s.len() && needs_quoting_char(#[trigger] s[i])
}

/// An argument quoted by the rules that `CommandLineToArgvW` reads.
pub open spec fn quoted_arg(s: Seq<char>) -> Seq<char> {
    if needs_quoting(s) {
        seq!['"'] + quote_body(s, 0, 0) + seq!['"']
    } else {
        s
    }
}

/// Reads one argument from a command line the way `CommandLineToArgvW`
/// treats backslashes and double quotes: `2n` backslashes before a quote
/// give `n` backslashes and the quote opens or closes a quoted part;
/// `2n + 1` backslashes before a quote give `n` backslashes and a literal
/// quote; other backslashes are literal; outside quotes a space or a tab
/// ends the argument. Gives the argument and the text left after it.
pub open spec fn argv_read(cs: Seq<char>, quoted: bool, pending: nat) -> (Seq<char>, Seq<char>)
    decreases cs.len(),
{
    if cs.len() == 0 {
        (backslashes(pending), cs)
    } else if cs[0] == '\\' {
        argv_read(cs.drop_first(), quoted, pending + 1)
    } else if cs[0] == '"' {
        if pending % 2 == 0 {
            let r = argv_read(cs.drop_first(), !quoted, 0);
            (backslashes(pending / 2) + r.0, r.1)
        } else {
            let r = argv_read(cs.drop_first(), quoted, 0);
            (backslashes(pending / 2) + seq!['"'] + r.0, r.1)
        }
    } else if !quoted && (cs[0] == ' ' || cs[0] == '\t') {
        (backslashes(pending), cs)
    } else {
        let r = argv_read(cs.drop_first(), quoted, 0);
        (backslashes(pending) + seq![cs[0]] + r.0, r.1)
    }
}

proof fn lemma_argv_read_backslashes(k: nat, x: Seq<char>, quoted: bool, p: nat)
    ensures
        argv_read(backslashes(k) + x, quoted, p) == argv_read(x, quoted, p + k),
    decreases k,
{
    if k == 0 {
        assert(backslashes(0) + x =~= x);
    } else {
        let y = backslashes(k) + x;
        assert(y[0] == '\\');
        assert(y.drop_first() =~= backslashes((k - 1) as nat) + x);
        lemma_argv_read_backslashes((k - 1) as nat, x, quoted, p + 1);
    }
}

proof fn lemma_argv_read_plain(s: Seq<char>, i: int, p: nat)
    requires
        0 <= i <= s.len(),
        !needs_quoting(s),
    ensures
        argv_read(s.skip(i), false, p) == (backslashes(p) + s.skip(i), Seq::<char>::empty()),
    decreases s.len() - i,
{
    let t = s.skip(i);
    if i == s.len() {
        assert(t =~= Seq::<char>::empty());
        assert(backslashes(p) + t =~= backslashes(p));
    } else {
        assert(t[0] == s[i]);
        assert(!needs_quoting_char(s[i]));
        assert(t.drop_first() =~= s.skip(i + 1));
        if s[i] == '\\' {
            lemma_argv_read_plain(s, i + 1, p + 1);
            assert(backslashes(p + 1) + s.skip(i + 1) =~= backslashes(p) + t);
        } else {
            lemma_argv_read_plain(s, i + 1, 0);
            assert(backslashes(p) + seq![s[i]] + (backslashes(0) + s.skip(i + 1)) =~= backslashes(p) + t);
        }
    }
}

proof fn lemma_argv_read_quote_body(s: Seq<char>, i: int, p: nat)
    requires
        0 <= i <= s.len(),
    ensures
        argv_read(quote_body(s, i, p) + seq!['"'], true, 0) == (backslashes(p) + s.skip(i), Seq::<char>::empty()),
    decreases s.len() - i,
{
    let close = seq!['"'];
    if i == s.len() {
        assert(quote_body(s, i, p) == backslashes(2 * p));
        lemma_argv_read_backslashes(2 * p, close, true, 0);
        assert(close.drop_first() =~= Seq::<char>::empty());
        assert((2 * p) / 2 == p);
        assert(argv_read(Seq::<char>::empty(), false, 0) == (backslashes(0), Seq::<char>::empty()));
        assert(argv_read(close, true, 2 * p) == (backslashes(p) + backslashes(0), Seq::<char>::empty()));
        assert(s.skip(i) =~= Seq::<char>::empty());
        assert(backslashes(p) + backslashes(0) =~= backslashes(p) + s.skip(i));
    } else if s[i] == '\\' {
        lemma_argv_read_quote_body(s, i + 1, p + 1);
        assert(backslashes(p + 1) + s.skip(i + 1) =~= backslashes(p) + s.skip(i));
    } else if s[i] == '"' {
        let rest = quote_body(s, i + 1, 0);
        lemma_argv_read_quote_body(s, i + 1, 0);
        let x = seq!['"'] + rest + close;
        assert(quote_body(s, i, p) + close =~= backslashes(2 * p + 1) + x);
        lemma_argv_read_backslashes(2 * p + 1, x, true, 0);
        assert(x.drop_first() =~= rest + close);
        assert((2 * p + 1) / 2 == p);
        assert((2 * p + 1) % 2 == 1);
        assert(backslashes(p) + seq!['"'] + (backslashes(0) + s.skip(i + 1)) =~= backslashes(p) + s.skip(i));
    } else {
        let rest = quote_body(s, i + 1, 0);
        lemma_argv_read_quote_body(s, i + 1, 0);
        let x = seq![s[i]] + rest + close;
        assert(quote_body(s, i, p) + close =~= backslashes(p) + x);
        lemma_argv_read_backslashes(p, x, true, 0);
        assert(x[0] == s[i]);
        assert(x.drop_first() =~= rest + close);
        assert(backslashes(p) + seq![s[i]] + (backslashes(0) + s.skip(i + 1)) =~= backslashes(p) + s.skip(i));
    }
}

/// A quoted argument reads back, by the rules of `CommandLineToArgvW`, as
/// exactly the quoted text and nothing after it (for any non-empty
/// argument; an empty one is written as nothing).
pub proof fn lemma_quoted_arg_reads_back(s: Seq<char>)
    requires
        s.len() > 0,
    ensures
        argv_read(quoted_arg(s), false, 0) == (s, Seq::<char>::empty()),
{
    if needs_quoting(s) {
        let body = quote_body(s, 0, 0);
        let full = seq!['"'] + body + seq!['"'];
        assert(full[0] == '"');
        assert(full.drop_first() =~= body + seq!['"']);
        lemma_argv_read_quote_body(s, 0, 0);
        assert(s.skip(0) =~= s);
        assert(backslashes(0) + (backslashes(0) + s) =~= s);
    } else {
        lemma_argv_read_plain(s, 0, 0);
        assert(s.skip(0) =~= s);
        assert(backslashes(0) + s =~= s);
    }
}

fn push_backslashes(out: &mut String, n: usize)
    ensures
        final(out)@ == old(out)@ + backslashes(n as nat),
{
    let mut k: usize = 0;
    while k < n
        invariant
            k <= n,
            out@ == old(out)@ + backslashes(k as nat),
        decreases n - k,
    {
        out.push('\\');
        k = k + 1;
        assert(out@ =~= old(out)@ + backslashes(k as nat));
    }
}

/// Quotes one command-line argument for `CommandLineToArgvW`: an argument
/// without whitespace or double quotes is left as it is; otherwise it is
/// wrapped in double quotes, inner quotes are escaped and the backslashes
/// before a quote (or before the closing quote) are doubled.
pub fn q(s: &str) -> (r: String)
    ensures
        r@ == quoted_arg(s@),
{
    let n = s.unicode_len();
    let mut i: usize = 0;
    let mut needs = false;
    while i < n
        invariant
            n == s@.len(),
            i <= n,
            !needs ==> forall|j: int| 0 <= j < i ==> !needs_quoting_char(#[trigger] s@[j]),
            needs ==> needs_quoting(s@),
        decreases n - i,
    {
        let c = s.get_char(i);
        if is_whitespace_char(c) || c == '"' {
            needs = true;
        }
        i = i + 1;
    }
    if !needs {
        return String::from_str(s);
    }
    let ghost cs = s@;
    let mut out = String::new();
    out.push('"');
    let mut pending: usize = 0;
    let mut i: usize = 0;
    while i < n
        invariant
            cs == s@,
            n == cs.len(),
            i <= n,
            pending <= i,
            out@ + quote_body(cs, i as int, pending as nat) == seq!['"'] + quote_body(cs, 0, 0),
        decreases n - i,
    {
        let c = s.get_char(i);
        let ghost before = out@;
        let ghost p = pending as nat;
        if c == '\\' {
            pending = pending + 1;
        } else if c == '"' {
            push_backslashes(&mut out, pending);
            push_backslashes(&mut out, pending);
            out.push('\\');
            out.push('"');
            pending = 0;
            proof {
                assert(backslashes(p) + backslashes(p) + seq!['\\'] =~= backslashes(2 * p + 1));
                assert(out@ =~= before + backslashes(2 * p + 1) + seq!['"']);
                assert(out@ + quote_body(cs, i as int + 1, 0) =~= before + quote_body(cs, i as int, p));
            }
        } else {
            push_backslashes(&mut out, pending);
            out.push(c);
            pending = 0;
            proof {
                assert(out@ + quote_body(cs, i as int + 1, 0) =~= before + quote_body(cs, i as int, p));
            }
        }
        i = i + 1;
    }
    let ghost before = out@;
    let ghost p = pending as nat;
    push_backslashes(&mut out, pending);
    push_backslashes(&mut out, pending);
    out.push('"');
    proof {
        assert(backslashes(p) + backslashes(p) =~= backslashes(2 * p));
        assert(out@ =~= before + quote_body(cs, n as int, p) + seq!['"']);
        assert(out@ =~= seq!['"'] + quote_body(cs, 0, 0) + seq!['"']);
    }
    out
}


/// The window tile of each MULTI account, `None` where the window is not
/// placed, and why no tiles were applied, if so.
#[derive(Debug, Clone, PartialEq, Eq)]
pub struct ManagedTilePlan {
    pub tiles: Vec<Option<ManagedTile>>,
    pub warning: Option<String>,
}

/// The slots of a list of accounts.
pub open spec fn slots_of(accounts: Seq<&Account>) -> Seq<Option<SecondarySlot>> {
    accounts.map_values(|a: &Account| a.secondary_slot)
}

/// The first slot problem among the first `n` accounts: its position, and
/// whether it repeats an earlier slot (`true`) or is not offered by the
/// preset (`false`).
pub open spec fn slot_problem_in(
    slots: Seq<Option<SecondarySlot>>,
    preset: SecondaryLayoutPreset,
    n: int,
) -> Option<(int, bool)>
    decreases n,
{
    if n <= 0 {
        None
    } else {
        match slot_problem_in(slots, preset, n - 1) {
            Some(p) => Some(p),
            None => match slots[n - 1] {
                None => None,
                Some(s) => if !preset_allows(preset, s) {
                    Some((n - 1, false))
                } else if exists|j: int| 0 <= j < n - 1 && slots[j] == Some(s) {
                    Some((n - 1, true))
                } else {
                    None
                },
            },
        }
    }
}

pub open spec fn slot_problem(slots: Seq<Option<SecondarySlot>>, preset: SecondaryLayoutPreset) -> Option<
    (int, bool),
> {
    slot_problem_in(slots, preset, slots.len() as int)
}

/// The message of a slot problem.
pub open spec fn slot_problem_text(slot: SecondarySlot, repeated: bool) -> Seq<char> {
    if repeated {
        "세컨 모니터 배치 슬롯 "@ + slot_name(slot)
            + "이(가) 중복 지정되었습니다. 프로필 편집에서 각 계정에 서로 다른 슬롯을 선택해주세요."@
    } else {
        "현재 보조 모니터 프리셋에서는 "@ + slot_name(slot) + " 슬롯을 사용할 수 없습니다."@
    }
}

/// The warning given when no secondary monitor is found.
pub open spec fn no_monitor_warning_text() -> Seq<char> {
    "보조 모니터를 찾지 못해 이번 실행에서는 창 자동 배치를 적용하지 않았습니다. 저장된 슬롯 설정은 유지됩니다."@
}

/// Whether any account has a slot.
pub open spec fn any_slot(slots: Seq<Option<SecondarySlot>>) -> bool {
    exists|i: int| 0 <= i < slots.len() && (#[trigger] slots[i]) is Some
}

/// A plan that places no window, with or without the missing-monitor warning.
pub open spec fn unmanaged_plan(plan: ManagedTilePlan, n: int, warned: bool) -> bool {
    &&& plan.tiles@.len() == n
    &&& forall|i: int| 0 <= i < n ==> (#[trigger] plan.tiles@[i]) is None
    &&& if warned {
        plan.warning matches Some(w) && w@ == no_monitor_warning_text()
    } else {
        plan.warning is None
    }
}

/// The tile named `name` in a slot/tile list (the first with that name).
pub open spec fn lookup_tile(available: Seq<(&'static str, ManagedTile)>, name: Seq<char>) -> Option<
    ManagedTile,
>
    decreases available.len(),
{
    if available.len() == 0 {
        None
    } else if available[0].0@ == name {
        Some(available[0].1)
    } else {
        lookup_tile(available.drop_first(), name)
    }
}

/// The tile a slot gets on a work area divided by a preset.
pub open spec fn slot_tile(preset: SecondaryLayoutPreset, area: SignedRect, slot: Option<SecondarySlot>) -> Option<
    ManagedTile,
> {
    match slot {
        None => None,
        Some(s) => if (slot_order(s) as int) < preset_rects(preset, area).len() {
            tile_of(preset_rects(preset, area)[slot_order(s) as int])
        } else {
            None
        },
    }
}

fn find_tile(available: &Vec<(&'static str, ManagedTile)>, name: &str) -> (r: Option<ManagedTile>)
    ensures
        r == lookup_tile(available@, name@),
{
    let mut i: usize = 0;
    assert(available@.skip(0) =~= available@);
    while i < available.len()
        invariant
            i <= available@.len(),
            lookup_tile(available@, name@) == lookup_tile(available@.skip(i as int), name@),
        decreases available@.len() - i,
    {
        let ghost rest = available@.skip(i as int);
        assert(rest.drop_first() =~= available@.skip(i as int + 1));
        if crate::text::str_eq(available[i].0, name) {
            return Some(available[i].1);
        }
        i = i + 1;
    }
    None
}

/// The tiles of the accounts' slots from the tiles of the secondary
/// monitor; with no secondary monitor, no window is placed and the plan
/// says why (the slots stay saved).
pub fn managed_tile_plan_from_available(
    selected: &[&Account],
    available_tiles: Option<&Vec<(&'static str, ManagedTile)>>,
) -> (plan: ManagedTilePlan)
    ensures
        match available_tiles {
            None => unmanaged_plan(plan, selected@.len() as int, true),
            Some(av) => plan.warning is None && plan.tiles@.len() == selected@.len() && forall|i: int|
                0 <= i < selected@.len() ==> #[trigger] plan.tiles@[i] == match slots_of(selected@)[i] {
                    None => None,
                    Some(s) => lookup_tile(av@, slot_name(s)),
                },
        },
{
    let n = selected.len();
    let mut tiles: Vec<Option<ManagedTile>> = Vec::new();
    let mut i: usize = 0;
    while i < n
        invariant
            n == selected@.len(),
            i <= n,
            tiles@.len() == i,
            forall|j: int|
                0 <= j < i ==> #[trigger] tiles@[j] == match available_tiles {
                    None => None,
                    Some(av) => match slots_of(selected@)[j] {
                        None => None,
                        Some(s) => lookup_tile(av@, slot_name(s)),
                    },
                },
        decreases n - i,
    {
        let t = match available_tiles {
            None => None,
            Some(av) => match selected[i].secondary_slot {
                None => None,
                Some(slot) => find_tile(av, slot.as_str()),
            },
        };
        tiles.push(t);
        i = i + 1;
    }
    match available_tiles {
        None => {
            let w = String::from_str(
                "보조 모니터를 찾지 못해 이번 실행에서는 창 자동 배치를 적용하지 않았습니다. 저장된 슬롯 설정은 유지됩니다.",
            );
            proof {
                reveal_strlit(
                    "보조 모니터를 찾지 못해 이번 실행에서는 창 자동 배치를 적용하지 않았습니다. 저장된 슬롯 설정은 유지됩니다.",
                );
            }
            ManagedTilePlan { tiles, warning: Some(w) }
        },
        Some(_) => ManagedTilePlan { tiles, warning: None },
    }
}


proof fn lemma_grid_slot_names(s: SecondarySlot)
    ensures
        grid_slot(slot_order(s) as int) == slot_name(s),
        forall|j: int| 0 <= j < 5 && j != slot_order(s) ==> grid_slot(j) != slot_name(s),
{
    reveal_strlit("r0c0");
    reveal_strlit("r0c1");
    reveal_strlit("r1c0");
    reveal_strlit("r1c1");
    reveal_strlit("center");
    assert("r0c0"@[3] != "r0c1"@[3]);
    assert("r0c0"@[1] != "r1c0"@[1]);
    assert("r0c0"@[1] != "r1c1"@[1]);
    assert("r0c1"@[1] != "r1c0"@[1]);
    assert("r0c1"@[1] != "r1c1"@[1]);
    assert("r1c0"@[3] != "r1c1"@[3]);
    assert("center"@[0] != "r0c0"@[0]);
    assert("center"@[0] != "r0c1"@[0]);
    assert("center"@[0] != "r1c0"@[0]);
    assert("center"@[0] != "r1c1"@[0]);
}

proof fn lemma_lookup_at(av: Seq<(&'static str, ManagedTile)>, name: Seq<char>, k: int)
    requires
        0 <= k < av.len(),
        av[k].0@ == name,
        forall|j: int| 0 <= j < k ==> (#[trigger] av[j]).0@ != name,
    ensures
        lookup_tile(av, name) == Some(av[k].1),
    decreases k,
{
    if k > 0 {
        assert forall|j: int| 0 <= j < k - 1 implies (#[trigger] av.drop_first()[j]).0@ != name by {
            assert(av.drop_first()[j] == av[j + 1]);
        }
        lemma_lookup_at(av.drop_first(), name, k - 1);
    }
}

/// The slot checks of a MULTI LOGIN: a slot the preset does not offer or a
/// slot given twice is an error; otherwise, whether any account has a slot
/// (and so whether the monitors are needed at all).
pub fn check_secondary_slots(selected: &[&Account], preset: SecondaryLayoutPreset) -> (r: Result<bool, String>)
    ensures
        match slot_problem(slots_of(selected@), preset) {
            Some((i, repeated)) => r matches Err(e) && slots_of(selected@)[i] matches Some(s) && e@
                == slot_problem_text(s, repeated),
            None => r == Ok::<bool, String>(any_slot(slots_of(selected@))),
        },
{
    let ghost slots = slots_of(selected@);
    let mut any = false;
    let mut i: usize = 0;
    while i < selected.len()
        invariant
            slots == slots_of(selected@),
            i <= selected@.len(),
            slot_problem_in(slots, preset, i as int) is None,
            any == exists|j: int| 0 <= j < i && (#[trigger] slots[j]) is Some,
        decreases selected@.len() - i,
    {
        match selected[i].secondary_slot {
            None => {},
            Some(slot) => {
                any = true;
                if !preset.allows(slot) {
                    let mut msg = String::from_str("현재 보조 모니터 프리셋에서는 ");
                    push_str(&mut msg, slot.as_str());
                    push_str(&mut msg, " 슬롯을 사용할 수 없습니다.");
                    proof {
                        reveal_strlit("현재 보조 모니터 프리셋에서는 ");
                        reveal_strlit(" 슬롯을 사용할 수 없습니다.");
                        lemma_slot_problem_stays(slots, preset, i as int + 1, slots.len() as int);
                    }
                    return Err(msg);
                }
                let mut j: usize = 0;
                while j < i
                    invariant
                        slots == slots_of(selected@),
                        i < selected@.len(),
                        j <= i,
                        slots[i as int] == Some(slot),
                        preset_allows(preset, slot),
                        slot_problem_in(slots, preset, i as int) is None,
                        forall|x: int| 0 <= x < j ==> slots[x] != Some(slot),
                    decreases i - j,
                {
                    if selected[j].secondary_slot == Some(slot) {
                        let mut msg = String::from_str("세컨 모니터 배치 슬롯 ");
                        push_str(&mut msg, slot.as_str());
                        push_str(
                            &mut msg,
                            "이(가) 중복 지정되었습니다. 프로필 편집에서 각 계정에 서로 다른 슬롯을 선택해주세요.",
                        );
                        proof {
                            reveal_strlit("세컨 모니터 배치 슬롯 ");
                            reveal_strlit(
                                "이(가) 중복 지정되었습니다. 프로필 편집에서 각 계정에 서로 다른 슬롯을 선택해주세요.",
                            );
                            assert(slots[j as int] == Some(slot));
                            assert(slot_problem_in(slots, preset, i as int + 1) == Some((i as int, true)));
                            lemma_slot_problem_stays(slots, preset, i as int + 1, slots.len() as int);
                        }
                        return Err(msg);
                    }
                    j = j + 1;
                }
            },
        }
        i = i + 1;
    }
    proof {
        assert(any == any_slot(slots));
    }
    Ok(any)
}

proof fn lemma_slot_problem_stays(
    slots: Seq<Option<SecondarySlot>>,
    preset: SecondaryLayoutPreset,
    n: int,
    m: int,
)
    requires
        0 < n <= m,
        slot_problem_in(slots, preset, n) is Some,
    ensures
        slot_problem_in(slots, preset, m) == slot_problem_in(slots, preset, n),
    decreases m - n,
{
    if m > n {
        lemma_slot_problem_stays(slots, preset, n, m - 1);
    }
}

/// The tiles of the secondary monitor for the accounts of a MULTI LOGIN,
/// all checked before anything is launched: a slot the preset does not offer
/// or a slot given twice is an error; accounts without slots need no
/// monitor; with no secondary monitor, no window is placed.
pub fn managed_tiles_for_accounts(
    selected: &[&Account],
    preset: SecondaryLayoutPreset,
    monitors: Result<MonitorEnumeration, String>,
) -> (r: Result<ManagedTilePlan, String>)
    requires
        monitors matches Ok(en) ==> areas_fit(en.monitors@),
    ensures
        match slot_problem(slots_of(selected@), preset) {
            Some((i, repeated)) => r matches Err(e) && slots_of(selected@)[i] matches Some(s) && e@
                == slot_problem_text(s, repeated),
            None => if !any_slot(slots_of(selected@)) {
                r matches Ok(plan) && unmanaged_plan(plan, selected@.len() as int, false)
            } else {
                match monitors {
                    Err(e) => r matches Err(e2) && e2 == e,
                    Ok(en) => match best_secondary(en.monitors@) {
                        None => r matches Ok(plan) && unmanaged_plan(plan, selected@.len() as int, true),
                        Some(b) => {
                            let area = en.monitors@[b].work_area;
                            if !split_outcome_ok(area) {
                                r matches Err(e) && e@ == split_error_text(area)
                            } else {
                                match first_unfit_from(preset_rects(preset, area), 0) {
                                    Some(k) => r matches Err(e) && e@ == tile_error_text(
                                        preset_rects(preset, area)[k],
                                    ),
                                    None => r matches Ok(plan) && plan.warning is None
                                        && plan.tiles@.len() == selected@.len() && forall|i: int|
                                        0 <= i < selected@.len() ==> #[trigger] plan.tiles@[i]
                                            == slot_tile(preset, area, slots_of(selected@)[i]),
                                }
                            }
                        },
                    },
                }
            },
        },
{
    let any = match check_secondary_slots(selected, preset) {
        Err(e) => {
            return Err(e);
        },
        Ok(any) => any,
    };
    if !any {
        let mut tiles: Vec<Option<ManagedTile>> = Vec::new();
        let mut i: usize = 0;
        while i < selected.len()
            invariant
                i <= selected@.len(),
                tiles@.len() == i,
                forall|j: int| 0 <= j < i ==> (#[trigger] tiles@[j]) is None,
            decreases selected@.len() - i,
        {
            tiles.push(None);
            i = i + 1;
        }
        return Ok(ManagedTilePlan { tiles, warning: None });
    }
    let ghost mons = monitors;
    let available = match secondary_managed_tiles(preset, monitors) {
        Err(e) => {
            return Err(e);
        },
        Ok(a) => a,
    };
    let plan = match &available {
        None => managed_tile_plan_from_available(selected, None),
        Some(av) => managed_tile_plan_from_available(selected, Some(av)),
    };
    proof {
        if let Some(av) = available {
            let en = mons->Ok_0;
            let b = best_secondary(en.monitors@)->Some_0;
            let area = en.monitors@[b].work_area;
            assert forall|i: int| 0 <= i < selected@.len() implies #[trigger] plan.tiles@[i] == slot_tile(
                preset,
                area,
                slots_of(selected@)[i],
            ) by {
                if let Some(s) = slots_of(selected@)[i] {
                    lemma_slot_problem_none_allows(slots_of(selected@), preset, slots_of(selected@).len() as int, i);
                    lemma_grid_slot_names(s);
                    let k = slot_order(s) as int;
                    assert(k < preset_rects(preset, area).len());
                    assert forall|j: int| 0 <= j < k implies (#[trigger] av@[j]).0@ != slot_name(s) by {
                        assert(av@[j].0@ == grid_slot(j));
                    }
                    lemma_lookup_at(av@, slot_name(s), k);
                }
            }
        }
    }
    Ok(plan)
}

proof fn lemma_slot_problem_none_allows(
    slots: Seq<Option<SecondarySlot>>,
    preset: SecondaryLayoutPreset,
    n: int,
    i: int,
)
    requires
        0 <= i < n <= slots.len(),
        slot_problem_in(slots, preset, n) is None,
    ensures
        slots[i] matches Some(s) ==> preset_allows(preset, s),
    decreases n,
{
    if n - 1 > i {
        lemma_slot_problem_none_allows(slots, preset, n - 1, i);
    }
}


/// `-uopath <dir>` when the UO folder is set.
pub open spec fn uo_args(profile: Profile) -> Seq<Seq<char>> {
    let uo = trimmed(profile.uo_path@);
    if uo.len() > 0 {
        seq!["-uopath"@, quoted_arg(uo)]
    } else {
        Seq::empty()
    }
}

/// `-ip <address> -port <port>` when the server address is set.
pub open spec fn server_args(profile: Profile) -> Seq<Seq<char>> {
    let addr = trimmed(profile.server.address@);
    if addr.len() > 0 {
        seq!["-ip"@, quoted_arg(addr), "-port"@, nat_digits(profile.server.port as nat)]
    } else {
        Seq::empty()
    }
}

/// `-clientversion <version>` when a client version is set; otherwise
/// ClassicUO detects it.
pub open spec fn version_args(profile: Profile) -> Seq<Seq<char>> {
    match profile.client_version {
        Some(v) => if trimmed(v@).len() > 0 {
            seq!["-clientversion"@, quoted_arg(trimmed(v@))]
        } else {
            Seq::empty()
        },
        None => Seq::empty(),
    }
}

/// Whether the client logs in by itself: an account with a user name is
/// given.
pub open spec fn logs_in(account: Option<&Account>) -> bool {
    match account {
        Some(a) => trimmed(a.username@).len() > 0,
        None => false,
    }
}

/// The login arguments of an account: `-account` with the user name,
/// `-password` with the plain text of the stored password, and the
/// character to select when one is named.
pub open spec fn account_args(account: Option<&Account>, password: Seq<char>) -> Seq<Seq<char>> {
    match account {
        Some(a) => if trimmed(a.username@).len() > 0 {
            seq!["-account"@, quoted_arg(trimmed(a.username@))] + (if trimmed(
                a.password_encrypted@,
            ).len() > 0 && password.len() > 0 {
                seq!["-password"@, quoted_arg(password)]
            } else {
                Seq::empty()
            }) + (match a.character_name {
                Some(c) => if trimmed(c@).len() > 0 {
                    seq!["-lastcharactername"@, quoted_arg(trimmed(c@))]
                } else {
                    Seq::empty()
                },
                None => Seq::empty(),
            })
        } else {
            Seq::empty()
        },
        None => Seq::empty(),
    }
}

/// The fixed client options; auto-login when an account logs in.
pub open spec fn fixed_args(autologin: bool, encryption: EncryptionType) -> Seq<Seq<char>> {
    seq![
        "-saveaccount"@,
        "False"@,
        "-autologin"@,
        if autologin {
            "True"@
        } else {
            "False"@
        },
        "-reconnect"@,
        "False"@,
        "-reconnect_time"@,
        "1000"@,
        "-music"@,
        "True"@,
        "-music_volume"@,
        "50"@,
        "-skiploginscreen"@,
        "-profiler"@,
        "False"@,
        "-use_verdata"@,
        "False"@,
        "-encryption"@,
        encryption_number(encryption),
        "-force_driver"@,
        "3"@,
    ]
}

/// `-ggo_managed_tile <tile>` for a placed window.
pub open spec fn tile_args(tile: Option<ManagedTile>) -> Seq<Seq<char>> {
    match tile {
        Some(t) => seq!["-ggo_managed_tile"@, tile_value_text(t)],
        None => Seq::empty(),
    }
}

/// The plugin and the closing options.
pub open spec fn plugin_args(plugin: Seq<char>) -> Seq<Seq<char>> {
    seq!["-plugins"@, quoted_arg(plugin), "-shard_type"@, "0"@, "-skipupdate"@]
}

/// The ClassicUO arguments, in order.
pub open spec fn cuo_arg_list(
    profile: Profile,
    plugin: Seq<char>,
    account: Option<&Account>,
    password: Seq<char>,
    tile: Option<ManagedTile>,
) -> Seq<Seq<char>> {
    uo_args(profile) + server_args(profile) + version_args(profile) + account_args(account, password)
        + fixed_args(logs_in(account), profile.server.encryption) + tile_args(tile)
        + plugin_args(plugin)
}

fn push_quoted(out: &mut Vec<String>, key: &str, value: &str)
    ensures
        texts(final(out)@) == texts(old(out)@) + seq![key@, quoted_arg(value@)],
{
    push_arg(out, key);
    push_owned(out, q(value));
    assert(texts(final(out)@) =~= texts(old(out)@) + seq![key@, quoted_arg(value@)]);
}

fn push_account_args(out: &mut Vec<String>, account: Option<&Account>, password: &str) -> (target: bool)
    ensures
        texts(final(out)@) == texts(old(out)@) + account_args(account, password@),
        target == logs_in(account),
{
    let ghost start = texts(out@);
    let mut target = false;
    if let Some(a) = account {
        let user = a.username.as_str().trim();
        if user.unicode_len() > 0 {
            push_quoted(out, "-account", user);
            target = true;
            let ghost after_user = texts(out@);
            if a.password_encrypted.as_str().trim().unicode_len() > 0 && password.unicode_len() > 0 {
                push_quoted(out, "-password", password);
            }
            let ghost after_password = texts(out@);
            if let Some(c) = &a.character_name {
                let name = c.as_str().trim();
                if name.unicode_len() > 0 {
                    push_quoted(out, "-lastcharactername", name);
                }
            }
            proof {
                reveal_strlit("-account");
                reveal_strlit("-password");
                reveal_strlit("-lastcharactername");
            }
            assert(texts(out@) =~= start + account_args(account, password@));
        } else {
            assert(texts(out@) =~= start + account_args(account, password@));
        }
    } else {
        assert(texts(out@) =~= start + account_args(account, password@));
    }
    target
}

fn push_fixed_args(out: &mut Vec<String>, autologin: bool, encryption: EncryptionType)
    ensures
        texts(final(out)@) == texts(old(out)@) + fixed_args(autologin, encryption),
{
    let ghost start = texts(out@);
    push_kv(out, "-saveaccount", "False");
    push_kv(
        out,
        "-autologin",
        if autologin {
            "True"
        } else {
            "False"
        },
    );
    push_kv(out, "-reconnect", "False");
    push_kv(out, "-reconnect_time", "1000");
    push_kv(out, "-music", "True");
    push_kv(out, "-music_volume", "50");
    push_arg(out, "-skiploginscreen");
    push_kv(out, "-profiler", "False");
    push_kv(out, "-use_verdata", "False");
    push_kv(out, "-encryption", encryption.cuo_number());
    push_kv(out, "-force_driver", "3");
    assert(texts(out@) =~= start + fixed_args(autologin, encryption));
}

/// Builds the ClassicUO command line: the arguments of `cuo_arg_list`
/// joined by spaces. `password` is the plain text of the account's stored
/// password.
pub fn build_cuo_args(
    profile: &Profile,
    plugin_path: &str,
    account: Option<&Account>,
    password: &str,
    managed_tile: Option<ManagedTile>,
) -> (s: String)
    ensures
        s@ == join_spaces(cuo_arg_list(*profile, plugin_path@, account, password@, managed_tile)),
{
    let mut out: Vec<String> = Vec::new();
    let ghost start = texts(out@);
    assert(start =~= Seq::<Seq<char>>::empty());
    let uo = profile.uo_path.as_str().trim();
    if uo.unicode_len() > 0 {
        push_quoted(&mut out, "-uopath", uo);
    }
    proof {
        reveal_strlit("-uopath");
    }
    assert(texts(out@) =~= uo_args(*profile));
    let addr = profile.server.address.as_str().trim();
    if addr.unicode_len() > 0 {
        push_quoted(&mut out, "-ip", addr);
        push_arg(&mut out, "-port");
        push_owned(&mut out, crate::text::u64_to_decimal(profile.server.port as u64));
    }
    proof {
        reveal_strlit("-ip");
        reveal_strlit("-port");
    }
    assert(texts(out@) =~= uo_args(*profile) + server_args(*profile));
    if let Some(v) = &profile.client_version {
        let v = v.as_str().trim();
        if v.unicode_len() > 0 {
            push_quoted(&mut out, "-clientversion", v);
        }
    }
    proof {
        reveal_strlit("-clientversion");
    }
    assert(texts(out@) =~= uo_args(*profile) + server_args(*profile) + version_args(*profile));
    let target = push_account_args(&mut out, account, password);
    push_fixed_args(&mut out, target, profile.server.encryption);
    if let Some(tile) = managed_tile {
        push_arg(&mut out, "-ggo_managed_tile");
        push_owned(&mut out, managed_tile_value(tile));
    }
    proof {
        reveal_strlit("-ggo_managed_tile");
    }
    let ghost before_plugin = texts(out@);
    push_quoted(&mut out, "-plugins", plugin_path);
    push_kv(&mut out, "-shard_type", "0");
    push_arg(&mut out, "-skipupdate");
    proof {
        reveal_strlit("-plugins");
        reveal_strlit("-shard_type");
        reveal_strlit("0");
        reveal_strlit("-skipupdate");
    }
    assert(texts(out@) =~= cuo_arg_list(*profile, plugin_path@, account, password@, managed_tile));
    join_args(&out)
}


/// The key that orders group members: their slot's order (accounts without
/// a slot after all slots).
pub open spec fn slot_key(a: &Account) -> int {
    match a.secondary_slot {
        Some(s) => slot_order(s) as int,
        None => 5,
    }
}

impl<'a> SortKey for &'a Account {
    open spec fn sorts_before(self, other: Self) -> bool {
        slot_key(self) < slot_key(other)
    }

    fn before(&self, other: &Self) -> (b: bool) {
        let a: u8 = match self.secondary_slot {
            Some(s) => s.order(),
            None => 5,
        };
        let c: u8 = match other.secondary_slot {
            Some(s) => s.order(),
            None => 5,
        };
        a < c
    }

    proof fn lemma_strict_weak_order(a: Self, b: Self, c: Self) {
    }
}

/// Whether an account is a secondary-group member of a MULTI selection:
/// it has a slot and is not the HUD leader (the first account).
pub open spec fn is_secondary_member(a: &Account, leader_id: Seq<char>) -> bool {
    a.secondary_slot is Some && a.id@ != leader_id
}

/// The accounts that a secondary-group action applies to, before ordering.
pub open spec fn secondary_members(selected: Seq<&Account>) -> Seq<&Account> {
    if selected.len() == 0 {
        Seq::empty()
    } else {
        selected.filter(|a: &Account| is_secondary_member(a, selected[0].id@))
    }
}

pub open spec fn no_secondary_text() -> Seq<char> {
    "현재 MULTI 대상에 보조 모니터 슬롯이 지정된 계정이 없습니다."@
}

pub open spec fn unsupported_group_action_text(action: Seq<char>) -> Seq<char> {
    "지원하지 않는 보조창 그룹 동작입니다: "@ + action
}

/// The plan of a secondary-group action on a profile's MULTI accounts: the
/// members (accounts with a slot, the leader excepted) in slot order, and
/// the action. No members, or an unknown action, is an error.
pub fn secondary_group_plan<'a>(profile: &'a Profile, action: &str) -> (r: Result<
    (GroupControlAction, Vec<&'a Account>),
    String,
>)
    ensures
        ({
            let selected = selected_indices(profile.server.accounts@).map_values(
                |i: int| &profile.server.accounts@[i],
            );
            let members = secondary_members(selected);
            if members.len() == 0 {
                r matches Err(e) && e@ == no_secondary_text()
            } else {
                match parse_action(action@) {
                    None => r matches Err(e) && e@ == unsupported_group_action_text(action@),
                    Some(a) => r matches Ok(plan) && plan.0 == a && stably_sorted(members, plan.1@),
                }
            }
        }),
{
    let selected = selected_multi_accounts(profile);
    let ghost sel = selected_indices(profile.server.accounts@).map_values(
        |i: int| &profile.server.accounts@[i],
    );
    assert(selected@ =~= sel);
    let ghost pred = |a: &Account| is_secondary_member(a, sel[0].id@);
    let mut members: Vec<&Account> = Vec::new();
    if selected.len() > 0 {
        let leader = selected[0].id.as_str();
        let mut i: usize = 0;
        assert(sel.take(0).filter(pred) =~= Seq::<&Account>::empty()) by {
            reveal(Seq::filter);
        }
        while i < selected.len()
            invariant
                selected@ == sel,
                sel.len() > 0,
                leader@ == sel[0].id@,
                i <= sel.len(),
                members@ == sel.take(i as int).filter(pred),
                forall|a: &Account| #[trigger] pred(a) == is_secondary_member(a, sel[0].id@),
            decreases sel.len() - i,
        {
            proof {
                crate::settings::lemma_filter_take_step(sel, i as int, pred);
            }
            let a = selected[i];
            if a.secondary_slot.is_some() && !crate::text::str_eq(a.id.as_str(), leader) {
                members.push(a);
            }
            i = i + 1;
        }
        assert(sel.take(sel.len() as int) =~= sel);
        assert(pred =~= (|a: &Account| is_secondary_member(a, sel[0].id@)));
    }
    if members.len() == 0 {
        return Err(String::from_str("현재 MULTI 대상에 보조 모니터 슬롯이 지정된 계정이 없습니다."));
    }
    let parsed = GroupControlAction::parse(action);
    match parsed {
        None => {
            let mut e = String::from_str("지원하지 않는 보조창 그룹 동작입니다: ");
            push_str(&mut e, action);
            proof {
                reveal_strlit("지원하지 않는 보조창 그룹 동작입니다: ");
            }
            Err(e)
        },
        Some(a) => {
            let sorted = stable_sort(members);
            Ok((a, sorted))
        },
    }
}

/// What became of one member of a group action.
#[derive(Debug, Clone)]
pub enum GroupStepOutcome {
    /// The member's window was not ready for control.
    Pending(String),
    /// The action was applied.
    Succeeded(WindowControlObservation),
    /// The action failed.
    Failed(String),
}

#[derive(Debug, Clone)]
pub struct GroupControlAccountResult {
    pub account_id: String,
    pub slot: &'static str,
    pub status: &'static str,
    pub message: Option<String>,
    pub window: Option<WindowControlObservation>,
}

#[derive(Debug, Clone)]
pub struct GroupControlResult {
    pub action: &'static str,
    pub succeeded_count: usize,
    pub pending_count: usize,
    pub failed_count: usize,
    pub accounts: Vec<GroupControlAccountResult>,
}

/// The status word of an outcome.
pub open spec fn outcome_status(o: GroupStepOutcome) -> Seq<char> {
    match o {
        GroupStepOutcome::Pending(_) => "pending"@,
        GroupStepOutcome::Succeeded(_) => "success"@,
        GroupStepOutcome::Failed(_) => "failed"@,
    }
}

/// What to do for one member of a group action, from the lookup of its
/// broker window target.
#[derive(Debug)]
pub enum GroupMemberStep {
    /// The window is not ready: the member's row is pending with this message.
    Pending(String),
    /// Apply the action to this window; after a successful restore, also
    /// re-apply the member's managed tile when `reapply_tile` holds.
    Operate { target: BrokerWindowTarget, reapply_tile: bool },
}

/// A member whose window target could not be looked up is pending; any
/// other is operated on, and only a restore re-applies the managed tile.
pub fn group_member_step(action: GroupControlAction, target: Result<BrokerWindowTarget, String>) -> (r:
    GroupMemberStep)
    ensures
        match target {
            Err(e) => r matches GroupMemberStep::Pending(m) && m == e,
            Ok(t) => r == (GroupMemberStep::Operate {
                target: t,
                reapply_tile: action == GroupControlAction::RestorePreset,
            }),
        },
{
    match target {
        Err(e) => GroupMemberStep::Pending(e),
        Ok(t) => GroupMemberStep::Operate { target: t, reapply_tile: action == GroupControlAction::RestorePreset },
    }
}

/// The number of outcomes of each kind: (success, pending, failed).
pub open spec fn outcome_counts(os: Seq<GroupStepOutcome>) -> (nat, nat, nat)
    decreases os.len(),
{
    if os.len() == 0 {
        (0, 0, 0)
    } else {
        let c = outcome_counts(os.drop_last());
        match os.last() {
            GroupStepOutcome::Succeeded(_) => (c.0 + 1, c.1, c.2),
            GroupStepOutcome::Pending(_) => (c.0, c.1 + 1, c.2),
            GroupStepOutcome::Failed(_) => (c.0, c.1, c.2 + 1),
        }
    }
}

/// The result row of one member.
pub open spec fn account_result_describes(r: GroupControlAccountResult, a: &Account, o: GroupStepOutcome) -> bool {
    &&& r.account_id@ == a.id@
    &&& a.secondary_slot matches Some(s) && r.slot@ == slot_name(s)
    &&& r.status@ == outcome_status(o)
    &&& match o {
        GroupStepOutcome::Pending(m) => crate::session::optional_text(r.message) == Some(m@) && r.window is None,
        GroupStepOutcome::Failed(m) => crate::session::optional_text(r.message) == Some(m@) && r.window is None,
        GroupStepOutcome::Succeeded(w) => r.message is None && r.window == Some(w),
    }
}

/// The result of a secondary-group action: one row per member, in order,
/// and the number of rows of each status.
pub fn group_control_result(
    action: GroupControlAction,
    members: &[&Account],
    outcomes: Vec<GroupStepOutcome>,
) -> (r: GroupControlResult)
    requires
        members@.len() == outcomes@.len(),
        forall|i: int| 0 <= i < members@.len() ==> (#[trigger] members@[i]).secondary_slot is Some,
    ensures
        r.action@ == action_name(action),
        r.accounts@.len() == members@.len(),
        forall|i: int|
            0 <= i < members@.len() ==> account_result_describes(
                #[trigger] r.accounts@[i],
                members@[i],
                outcomes@[i],
            ),
        r.succeeded_count == outcome_counts(outcomes@).0,
        r.pending_count == outcome_counts(outcomes@).1,
        r.failed_count == outcome_counts(outcomes@).2,
        r.succeeded_count + r.pending_count + r.failed_count == r.accounts@.len(),
{
    proof {
        reveal_strlit("pending");
        reveal_strlit("success");
        reveal_strlit("failed");
    }
    let ghost os = outcomes@;
    let mut rest = outcomes;
    let mut accounts: Vec<GroupControlAccountResult> = Vec::new();
    let mut succeeded: usize = 0;
    let mut pending: usize = 0;
    let mut failed: usize = 0;
    let mut i: usize = 0;
    assert(os.skip(0) =~= os);
    assert(os.take(0) =~= Seq::<GroupStepOutcome>::empty());
    while i < members.len()
        invariant
            members@.len() == os.len(),
            forall|j: int| 0 <= j < members@.len() ==> (#[trigger] members@[j]).secondary_slot is Some,
            i <= os.len(),
            rest@ == os.skip(i as int),
            accounts@.len() == i,
            forall|j: int| 0 <= j < i ==> account_result_describes(#[trigger] accounts@[j], members@[j], os[j]),
            outcome_counts(os.take(i as int)) == (succeeded as nat, pending as nat, failed as nat),
            succeeded + pending + failed == i,
        decreases os.len() - i,
    {
        let ghost prefix = os.take(i as int + 1);
        assert(prefix.drop_last() =~= os.take(i as int));
        let o = rest.remove(0);
        assert(o == os[i as int]);
        assert(prefix.last() == o);
        let a = members[i];
        let slot = match a.secondary_slot {
            Some(s) => s.as_str(),
            None => "",
        };
        let row = match o {
            GroupStepOutcome::Pending(m) => {
                pending = pending + 1;
                GroupControlAccountResult { account_id: a.id.clone(), slot, status: "pending", message: Some(m), window: None }
            },
            GroupStepOutcome::Succeeded(w) => {
                succeeded = succeeded + 1;
                GroupControlAccountResult { account_id: a.id.clone(), slot, status: "success", message: None, window: Some(w) }
            },
            GroupStepOutcome::Failed(m) => {
                failed = failed + 1;
                GroupControlAccountResult { account_id: a.id.clone(), slot, status: "failed", message: Some(m), window: None }
            },
        };
        accounts.push(row);
        i = i + 1;
        assert(rest@ =~= os.skip(i as int));
    }
    assert(os.take(os.len() as int) =~= os);
    GroupControlResult { action: action.as_str(), succeeded_count: succeeded, pending_count: pending, failed_count: failed, accounts }
}

/// The checks before a MULTI LOGIN: the profile has accounts and some are
/// selected; the selected accounts are returned.
pub fn multi_launch_selection(profile: &Profile) -> (r: Result<Vec<&Account>, String>)
    ensures
        profile.server.accounts@.len() == 0 ==> (r matches Err(e) && e@
            == "등록된 계정이 없습니다. Edit Profile에서 계정을 추가해주세요."@),
        profile.server.accounts@.len() > 0 && selected_indices(profile.server.accounts@).len() == 0 ==> (r matches Err(
            e,
        ) && e@ == "MULTI LOGIN 대상 계정이 없습니다. Edit Profile에서 계정을 선택해주세요."@),
        profile.server.accounts@.len() > 0 && selected_indices(profile.server.accounts@).len() > 0 ==> (r matches Ok(
            sel,
        ) && sel@ == selected_indices(profile.server.accounts@).map_values(
            |i: int| &profile.server.accounts@[i],
        )),
{
    if profile.server.accounts.len() == 0 {
        return Err(String::from_str("등록된 계정이 없습니다. Edit Profile에서 계정을 추가해주세요."));
    }
    let selected = selected_multi_accounts(profile);
    if selected.len() == 0 {
        return Err(String::from_str("MULTI LOGIN 대상 계정이 없습니다. Edit Profile에서 계정을 선택해주세요."));
    }
    assert(selected@ =~= selected_indices(profile.server.accounts@).map_values(
        |i: int| &profile.server.accounts@[i],
    ));
    Ok(selected)
}

/// One client of a MULTI LOGIN to launch.
#[derive(Debug, Clone, Copy, PartialEq, Eq, Structural)]
pub struct LaunchStep {
    /// Position of the account in the selection.
    pub index: usize,
    pub tile: Option<ManagedTile>,
    pub hud_leader: bool,
    pub hud_order: u8,
    pub managed_z_order: Option<u8>,
}

/// Whether the account at a selection index was reserved for launch.
pub open spec fn is_reserved(selected: Seq<&Account>, reserved: Seq<String>, i: int) -> bool {
    exists|j: int| 0 <= j < reserved.len() && (#[trigger] reserved[j])@ == selected[i].id@
}

/// Whether the account at a selection index has the centre slot.
pub open spec fn is_center_at(selected: Seq<&Account>, i: int) -> bool {
    selected[i].secondary_slot == Some(SecondarySlot::Center)
}

/// The selection indices launched, in launch order: the reserved accounts
/// in selection order, those with the centre slot last (it overlaps the
/// other cells, so its window ends up on top).
pub open spec fn launch_order(selected: Seq<&Account>, reserved: Seq<String>) -> Seq<int> {
    let all = Seq::new(selected.len(), |i: int| i);
    all.filter(|i: int| is_reserved(selected, reserved, i) && !is_center_at(selected, i)) + all.filter(
        |i: int| is_reserved(selected, reserved, i) && is_center_at(selected, i),
    )
}

/// The HUD order of an account: the position of the first selected account
/// with its id.
pub open spec fn hud_position(selected: Seq<&Account>, i: int) -> int {
    choose|k: int|
        0 <= k <= i && selected[k].id@ == selected[i].id@ && forall|j: int|
            0 <= j < k ==> selected[j].id@ != selected[i].id@
}

/// A launch step for the account at selection index `i`.
pub open spec fn step_describes(
    st: LaunchStep,
    selected: Seq<&Account>,
    tiles: Seq<Option<ManagedTile>>,
    i: int,
) -> bool {
    &&& st.index == i
    &&& st.tile == tiles[i]
    &&& st.hud_leader == (selected[i].id@ == selected[0].id@)
    &&& st.hud_order == hud_position(selected, i)
    &&& st.managed_z_order == match selected[i].secondary_slot {
        Some(s) => Some(slot_order(s)),
        None => None,
    }
}

fn is_reserved_exec(selected: &[&Account], reserved: &[String], i: usize) -> (b: bool)
    requires
        i < selected@.len(),
    ensures
        b == is_reserved(selected@, reserved@, i as int),
{
    let mut j: usize = 0;
    while j < reserved.len()
        invariant
            i < selected@.len(),
            j <= reserved@.len(),
            forall|k: int| 0 <= k < j ==> (#[trigger] reserved@[k])@ != selected@[i as int].id@,
        decreases reserved@.len() - j,
    {
        if crate::text::str_eq(reserved[j].as_str(), selected[i].id.as_str()) {
            return true;
        }
        j = j + 1;
    }
    false
}

fn hud_position_exec(selected: &[&Account], i: usize) -> (k: u8)
    requires
        i < selected@.len(),
        selected@.len() <= MAX_MULTI_ACCOUNTS,
    ensures
        k == hud_position(selected@, i as int),
{
    let mut k: usize = 0;
    while k < i
        invariant
            k <= i < selected@.len(),
            selected@.len() <= MAX_MULTI_ACCOUNTS,
            forall|j: int| 0 <= j < k ==> selected@[j].id@ != selected@[i as int].id@,
        decreases i - k,
    {
        if crate::text::str_eq(selected[k].id.as_str(), selected[i].id.as_str()) {
            proof {
                lemma_hud_position_is(selected@, i as int, k as int);
            }
            return k as u8;
        }
        k = k + 1;
    }
    proof {
        lemma_hud_position_is(selected@, i as int, k as int);
    }
    k as u8
}

proof fn lemma_hud_position_is(sel: Seq<&Account>, i: int, w: int)
    requires
        0 <= w <= i < sel.len(),
        sel[w].id@ == sel[i].id@,
        forall|j: int| 0 <= j < w ==> sel[j].id@ != sel[i].id@,
    ensures
        hud_position(sel, i) == w,
{
    let c = hud_position(sel, i);
    if c < w {
        assert(sel[c].id@ == sel[i].id@);
    } else if c > w {
        assert(sel[w].id@ != sel[i].id@);
    }
}

proof fn lemma_first_same_id(sel: Seq<&Account>, i: int, k: int) -> (w: int)
    requires
        0 <= k <= i < sel.len(),
        forall|j: int| 0 <= j < k ==> sel[j].id@ != sel[i].id@,
    ensures
        k <= w <= i,
        sel[w].id@ == sel[i].id@,
        forall|j: int| 0 <= j < w ==> sel[j].id@ != sel[i].id@,
    decreases i - k,
{
    if sel[k].id@ == sel[i].id@ {
        k
    } else {
        lemma_first_same_id(sel, i, k + 1)
    }
}

/// The HUD roles depend on the accounts' ids and their order alone: two
/// selections with the same ids in the same order, whatever their window
/// slots, give every position the same HUD leader flag and HUD order.
pub proof fn lemma_hud_roles_ignore_window_slots(a: Seq<&Account>, b: Seq<&Account>, i: int)
    requires
        a.len() == b.len(),
        0 <= i < a.len(),
        forall|j: int| 0 <= j < a.len() ==> (#[trigger] a[j]).id@ == b[j].id@,
    ensures
        (a[i].id@ == a[0].id@) == (b[i].id@ == b[0].id@),
        hud_position(a, i) == hud_position(b, i),
{
    assert(a[0].id@ == b[0].id@);
    assert(a[i].id@ == b[i].id@);
    let w = lemma_first_same_id(a, i, 0);
    lemma_hud_position_is(a, i, w);
    assert forall|j: int| 0 <= j < w implies b[j].id@ != b[i].id@ by {
        assert(a[j].id@ == b[j].id@);
    }
    assert(a[w].id@ == b[w].id@);
    lemma_hud_position_is(b, i, w);
}

/// The clients a MULTI LOGIN launches, in launch order, from the selected
/// accounts, their tiles and the accounts reserved for launch (accounts
/// already running are not reserved). The first selected account leads
/// the HUD.
pub fn multi_launch_plan(
    selected: &[&Account],
    tiles: &[Option<ManagedTile>],
    reserved: &[String],
) -> (plan: Vec<LaunchStep>)
    requires
        tiles@.len() == selected@.len(),
        selected@.len() <= MAX_MULTI_ACCOUNTS,
    ensures
        plan@.len() == launch_order(selected@, reserved@).len(),
        forall|k: int|
            0 <= k < plan@.len() ==> step_describes(
                #[trigger] plan@[k],
                selected@,
                tiles@,
                launch_order(selected@, reserved@)[k],
            ),
{
    let ghost sel = selected@;
    let ghost all = Seq::new(sel.len(), |i: int| i);
    let ghost first = |i: int| is_reserved(sel, reserved@, i) && !is_center_at(sel, i);
    let ghost second = |i: int| is_reserved(sel, reserved@, i) && is_center_at(sel, i);
    let mut plan: Vec<LaunchStep> = Vec::new();
    let mut pass: usize = 0;
    while pass < 2
        invariant
            sel == selected@,
            all == Seq::new(sel.len(), |i: int| i),
            tiles@.len() == sel.len(),
            sel.len() <= MAX_MULTI_ACCOUNTS,
            pass <= 2,
            forall|i: int| #[trigger] first(i) == (is_reserved(sel, reserved@, i) && !is_center_at(sel, i)),
            forall|i: int| #[trigger] second(i) == (is_reserved(sel, reserved@, i) && is_center_at(sel, i)),
            plan@.len() == (if pass == 0 {
                0
            } else if pass == 1 {
                all.filter(first).len() as int
            } else {
                (all.filter(first) + all.filter(second)).len() as int
            }),
            forall|k: int|
                0 <= k < plan@.len() ==> step_describes(
                    #[trigger] plan@[k],
                    sel,
                    tiles@,
                    (all.filter(first) + all.filter(second))[k],
                ),
        decreases 2 - pass,
    {
        let want_center = pass == 1;
        let ghost p = if want_center { second } else { first };
        let ghost base = plan@;
        let mut i: usize = 0;
        assert(all.take(0).filter(p) =~= Seq::<int>::empty()) by {
            reveal(Seq::filter);
        }
        while i < selected.len()
            invariant
                sel == selected@,
                all == Seq::new(sel.len(), |i: int| i),
                tiles@.len() == sel.len(),
                sel.len() <= MAX_MULTI_ACCOUNTS,
                i <= sel.len(),
                p == if want_center { second } else { first },
                forall|x: int| #[trigger] first(x) == (is_reserved(sel, reserved@, x) && !is_center_at(sel, x)),
                forall|x: int| #[trigger] second(x) == (is_reserved(sel, reserved@, x) && is_center_at(sel, x)),
                plan@.len() == base.len() + all.take(i as int).filter(p).len(),
                plan@.take(base.len() as int) == base,
                forall|k: int|
                    0 <= k < all.take(i as int).filter(p).len() ==> step_describes(
                        #[trigger] plan@[base.len() + k],
                        sel,
                        tiles@,
                        all.take(i as int).filter(p)[k],
                    ),
            decreases sel.len() - i,
        {
            proof {
                crate::settings::lemma_filter_take_step(all, i as int, p);
            }
            let center = selected[i].secondary_slot == Some(SecondarySlot::Center);
            if center == want_center && is_reserved_exec(selected, reserved, i) {
                let leader = crate::text::str_eq(selected[i].id.as_str(), selected[0].id.as_str());
                let hud_order = hud_position_exec(selected, i);
                let z = match selected[i].secondary_slot {
                    Some(s) => Some(s.order()),
                    None => None,
                };
                let ghost before = plan@;
                plan.push(LaunchStep { index: i, tile: tiles[i], hud_leader: leader, hud_order, managed_z_order: z });
                assert(plan@.take(base.len() as int) =~= before.take(base.len() as int));
            }
            i = i + 1;
        }
        assert(all.take(sel.len() as int) =~= all);
        proof {
            let f = all.filter(first);
            let g = all.filter(second);
            if pass == 0 {
                assert forall|k: int| 0 <= k < plan@.len() implies step_describes(
                    #[trigger] plan@[k],
                    sel,
                    tiles@,
                    (f + g)[k],
                ) by {
                    assert(plan@[k] == plan@[base.len() + k]);
                }
            } else {
                assert forall|k: int| 0 <= k < plan@.len() implies step_describes(
                    #[trigger] plan@[k],
                    sel,
                    tiles@,
                    (f + g)[k],
                ) by {
                    if k < base.len() {
                        assert(plan@[k] == plan@.take(base.len() as int)[k]);
                    } else {
                        assert(plan@[base.len() + (k - base.len())] == plan@[k]);
                    }
                }
            }
        }
        pass = pass + 1;
    }
    assert(first =~= (|i: int| is_reserved(sel, reserved@, i) && !is_center_at(sel, i)));
    assert(second =~= (|i: int| is_reserved(sel, reserved@, i) && is_center_at(sel, i)));
    plan
}

/// The text shown for a Windows error code of an elevated launch.
pub fn explain_win_error(code: u32) -> (s: &'static str)
    ensures
        s@ == (if code == 2 {
            "파일을 찾을 수 없음 (ERROR_FILE_NOT_FOUND)"@
        } else if code == 3 {
            "경로를 찾을 수 없음 (ERROR_PATH_NOT_FOUND)"@
        } else if code == 5 {
            "접근 거부됨 (ERROR_ACCESS_DENIED)"@
        } else if code == 740 {
            "권한 상승 필요 — UAC 프롬프트 거부됨 (ERROR_ELEVATION_REQUIRED)"@
        } else if code == 1223 {
            "사용자가 UAC 프롬프트 취소 (ERROR_CANCELLED)"@
        } else {
            "원인 미상"@
        }),
{
    if code == 2 {
        "파일을 찾을 수 없음 (ERROR_FILE_NOT_FOUND)"
    } else if code == 3 {
        "경로를 찾을 수 없음 (ERROR_PATH_NOT_FOUND)"
    } else if code == 5 {
        "접근 거부됨 (ERROR_ACCESS_DENIED)"
    } else if code == 740 {
        "권한 상승 필요 — UAC 프롬프트 거부됨 (ERROR_ELEVATION_REQUIRED)"
    } else if code == 1223 {
        "사용자가 UAC 프롬프트 취소 (ERROR_CANCELLED)"
    } else {
        "원인 미상"
    }
}


/// Position of the first profile with an id, if any.
pub open spec fn profile_index(ps: Seq<Profile>, id: Seq<char>) -> Option<int> {
    if exists|i: int| 0 <= i < ps.len() && (#[trigger] ps[i]).id@ == id {
        Some(
            choose|i: int|
                0 <= i < ps.len() && (#[trigger] ps[i]).id@ == id && forall|k: int|
                    0 <= k < i ==> (#[trigger] ps[k]).id@ != id,
        )
    } else {
        None
    }
}

/// Position of the first enabled plugin, if any.
pub open spec fn enabled_plugin_index(ps: Seq<crate::settings::PluginEntry>) -> Option<int> {
    if exists|i: int| 0 <= i < ps.len() && (#[trigger] ps[i]).enabled {
        Some(
            choose|i: int|
                0 <= i < ps.len() && (#[trigger] ps[i]).enabled && forall|k: int|
                    0 <= k < i ==> !(#[trigger] ps[k]).enabled,
        )
    } else {
        None
    }
}

/// What a launch uses from the settings: the profile (by id), the first
/// enabled plugin and the profile's ClassicUO folder (trimmed, not empty).
pub open spec fn launch_selection(s: crate::settings::Settings, profile_id: Seq<char>) -> Result<
    (int, int, Seq<char>),
    Seq<char>,
> {
    match profile_index(s.profiles@, profile_id) {
        None => Err("프로필 "@ + profile_id + " 못 찾음"@),
        Some(i) => match enabled_plugin_index(s.plugins@) {
            None => Err("선택된 플러그인이 없습니다. 플러그인을 먼저 등록/선택해주세요."@),
            Some(j) => match s.profiles@[i].cuo_path {
                Some(c) if trimmed(c@).len() > 0 => Ok((i, j, trimmed(c@))),
                _ => Err("CUO 경로가 비어있습니다. Edit Profile에서 설정해주세요."@),
            },
        },
    }
}

/// Picks what a launch uses from the settings (see `launch_selection`):
/// the profile's index, the enabled plugin's index and the ClassicUO
/// folder. Whether the folder, its executable and the plugin file exist is
/// for the caller to check.
pub fn select_launch(s: &crate::settings::Settings, profile_id: &str) -> (r: Result<(usize, usize, String), String>)
    ensures
        match launch_selection(*s, profile_id@) {
            Ok((i, j, dir)) => r matches Ok((a, b, d)) && a == i && b == j && d@ == dir,
            Err(e) => r matches Err(x) && x@ == e,
        },
{
    let mut i: usize = 0;
    let mut found: Option<usize> = None;
    while i < s.profiles.len()
        invariant_except_break
            found is None,
        invariant
            i <= s.profiles@.len(),
            forall|k: int| 0 <= k < i ==> (#[trigger] s.profiles@[k]).id@ != profile_id@,
        ensures
            match found {
                Some(x) => x == i && i < s.profiles@.len() && s.profiles@[i as int].id@ == profile_id@,
                None => i == s.profiles@.len(),
            },
        decreases s.profiles@.len() - i,
    {
        if str_eq(s.profiles[i].id.as_str(), profile_id) {
            found = Some(i);
            break;
        }
        i = i + 1;
    }
    let pi = match found {
        Some(x) => x,
        None => {
            let mut e = String::from_str("프로필 ");
            push_str(&mut e, profile_id);
            push_str(&mut e, " 못 찾음");
            proof {
                reveal_strlit("프로필 ");
                reveal_strlit(" 못 찾음");
            }
            return Err(e);
        },
    };
    proof {
        let ps = s.profiles@;
        let c = choose|c: int|
            0 <= c < ps.len() && (#[trigger] ps[c]).id@ == profile_id@ && forall|k: int|
                0 <= k < c ==> (#[trigger] ps[k]).id@ != profile_id@;
        assert(ps[pi as int].id@ == profile_id@);
        if c < pi as int {
        } else if (pi as int) < c {
        }
        assert(profile_index(ps, profile_id@) == Some(pi as int));
    }
    let mut j: usize = 0;
    let mut plugin: Option<usize> = None;
    while j < s.plugins.len()
        invariant_except_break
            plugin is None,
        invariant
            j <= s.plugins@.len(),
            forall|k: int| 0 <= k < j ==> !(#[trigger] s.plugins@[k]).enabled,
        ensures
            match plugin {
                Some(x) => x == j && j < s.plugins@.len() && s.plugins@[j as int].enabled,
                None => j == s.plugins@.len(),
            },
        decreases s.plugins@.len() - j,
    {
        if s.plugins[j].enabled {
            plugin = Some(j);
            break;
        }
        j = j + 1;
    }
    let pj = match plugin {
        Some(x) => x,
        None => {
            return Err(String::from_str("선택된 플러그인이 없습니다. 플러그인을 먼저 등록/선택해주세요."));
        },
    };
    proof {
        let ps = s.plugins@;
        let c = choose|c: int|
            0 <= c < ps.len() && (#[trigger] ps[c]).enabled && forall|k: int| 0 <= k < c ==> !(#[trigger] ps[k]).enabled;
        assert(ps[pj as int].enabled);
        if c < pj as int {
        } else if (pj as int) < c {
        }
        assert(enabled_plugin_index(ps) == Some(pj as int));
    }
    match &s.profiles[pi].cuo_path {
        Some(c) => {
            let t = c.as_str().trim();
            if t.unicode_len() > 0 {
                Ok((pi, pj, String::from_str(t)))
            } else {
                Err(String::from_str("CUO 경로가 비어있습니다. Edit Profile에서 설정해주세요."))
            }
        },
        None => Err(String::from_str("CUO 경로가 비어있습니다. Edit Profile에서 설정해주세요.")),
    }
}

/// The start of the ClassicUO command line: the client folder (when set) as
/// `-uopath <folder>`, then `-ip <address> -port <port>` (when an address is
/// set).
pub proof fn lemma_cuo_args_start_with_folder_and_server(
    profile: Profile,
    plugin: Seq<char>,
    account: Option<&Account>,
    password: Seq<char>,
    tile: Option<ManagedTile>,
)
    ensures
        ({
            let args = cuo_arg_list(profile, plugin, account, password, tile);
            let u = uo_args(profile).len() as int;
            &&& trimmed(profile.uo_path@).len() > 0 ==> (u == 2 && args[0] == "-uopath"@ && args[1] == quoted_arg(
                trimmed(profile.uo_path@),
            ))
            &&& trimmed(profile.uo_path@).len() == 0 ==> u == 0
            &&& trimmed(profile.server.address@).len() > 0 ==> (args[u] == "-ip"@ && args[u + 1] == quoted_arg(
                trimmed(profile.server.address@),
            ) && args[u + 2] == "-port"@ && args[u + 3] == nat_digits(profile.server.port as nat))
        }),
{
    let a = uo_args(profile);
    let b = server_args(profile);
    let r2 = version_args(profile) + account_args(account, password) + fixed_args(
        logs_in(account),
        profile.server.encryption,
    ) + tile_args(tile) + plugin_args(plugin);
    let args = cuo_arg_list(profile, plugin, account, password, tile);
    assert(args =~= a + (b + r2));
    let u = a.len() as int;
    lemma_concat_at(a, b + r2, 0);
    lemma_concat_at(a, b + r2, 1);
    if trimmed(profile.server.address@).len() > 0 {
        assert(b.len() == 4);
        lemma_concat_prefix_of(a, b, r2, u);
        lemma_concat_prefix_of(a, b, r2, u + 1);
        lemma_concat_prefix_of(a, b, r2, u + 2);
        lemma_concat_prefix_of(a, b, r2, u + 3);
    }
}

/// The login part of the ClassicUO command line: an account that logs in
/// gives `-account <user>` (and `-password <text>` when it has a stored
/// password whose plain text is known), and the fixed options that follow
/// begin `-saveaccount False -autologin X`, with `X` `True` exactly when an
/// account logs in.
pub proof fn lemma_cuo_args_log_in_only_with_an_account(
    profile: Profile,
    plugin: Seq<char>,
    account: Option<&Account>,
    password: Seq<char>,
    tile: Option<ManagedTile>,
)
    ensures
        ({
            let args = cuo_arg_list(profile, plugin, account, password, tile);
            let acc = (uo_args(profile).len() + server_args(profile).len() + version_args(profile).len()) as int;
            let fx = (acc + account_args(account, password).len()) as int;
            let user = match account {
                Some(a) => trimmed(a.username@),
                None => Seq::<char>::empty(),
            };
            &&& user.len() > 0 ==> (args[acc] == "-account"@ && args[acc + 1] == quoted_arg(
                trimmed(account->Some_0.username@),
            ))
            &&& user.len() > 0 && trimmed(account->Some_0.password_encrypted@).len() > 0 && password.len() > 0
                ==> (args[acc + 2] == "-password"@ && args[acc + 3] == quoted_arg(password))
            &&& user.len() == 0 ==> fx == acc
            &&& args[fx] == "-saveaccount"@ && args[fx + 1] == "False"@ && args[fx + 2] == "-autologin"@
            &&& args[fx + 3] == (if user.len() > 0 {
                "True"@
            } else {
                "False"@
            })
        }),
{
    let h = uo_args(profile) + server_args(profile) + version_args(profile);
    let d = account_args(account, password);
    let f = fixed_args(logs_in(account), profile.server.encryption);
    let r = tile_args(tile) + plugin_args(plugin);
    let args = cuo_arg_list(profile, plugin, account, password, tile);
    assert(args =~= h + (d + (f + r)));
    let acc = h.len() as int;
    assert(f.len() == 21);
    if logs_in(account) {
        assert(d[0] == "-account"@);
        lemma_concat_prefix_of(h, d, f + r, acc);
        lemma_concat_prefix_of(h, d, f + r, acc + 1);
        if trimmed(account->Some_0.password_encrypted@).len() > 0 && password.len() > 0 {
            assert(d[2] == "-password"@);
            lemma_concat_prefix_of(h, d, f + r, acc + 2);
            lemma_concat_prefix_of(h, d, f + r, acc + 3);
        }
    }
    let fx = acc + d.len();
    assert(h + (d + (f + r)) =~= (h + d) + (f + r));
    lemma_concat_prefix_of(h + d, f, r, fx);
    lemma_concat_prefix_of(h + d, f, r, fx + 1);
    lemma_concat_prefix_of(h + d, f, r, fx + 2);
    lemma_concat_prefix_of(h + d, f, r, fx + 3);
    lemma_concat_at(h + d, f + r, fx);
}

/// The end of the ClassicUO command line: a placed window gives
/// `-ggo_managed_tile <tile>` just before the closing
/// `-plugins <plugin> -shard_type 0 -skipupdate`.
pub proof fn lemma_cuo_args_end_with_tile_and_plugin(
    profile: Profile,
    plugin: Seq<char>,
    account: Option<&Account>,
    password: Seq<char>,
    tile: Option<ManagedTile>,
)
    ensures
        ({
            let args = cuo_arg_list(profile, plugin, account, password, tile);
            let n = args.len() as int;
            &&& n >= 5
            &&& args[n - 5] == "-plugins"@ && args[n - 4] == quoted_arg(plugin)
            &&& args[n - 3] == "-shard_type"@ && args[n - 2] == "0"@ && args[n - 1] == "-skipupdate"@
            &&& (tile matches Some(t) ==> n >= 7 && args[n - 7] == "-ggo_managed_tile"@ && args[n - 6]
                == tile_value_text(t))
        }),
{
    let h = uo_args(profile) + server_args(profile) + version_args(profile) + account_args(account, password)
        + fixed_args(logs_in(account), profile.server.encryption);
    let t = tile_args(tile);
    let p = plugin_args(plugin);
    let args = cuo_arg_list(profile, plugin, account, password, tile);
    assert(args =~= h + (t + p));
    let n = args.len() as int;
    assert(p.len() == 5);
    let m = h.len() + t.len();
    lemma_concat_prefix_of(h, t, p, n - 5);
    lemma_concat_prefix_of(h, t, p, n - 4);
    lemma_concat_prefix_of(h, t, p, n - 3);
    lemma_concat_prefix_of(h, t, p, n - 2);
    lemma_concat_prefix_of(h, t, p, n - 1);
    if tile is Some {
        assert(t.len() == 2);
        lemma_concat_at(h, t + p, n - 7);
        lemma_concat_at(h, t + p, n - 6);
        lemma_concat_at(t, p, 0);
        lemma_concat_at(t, p, 1);
    }
}

proof fn lemma_concat_at(x: Seq<Seq<char>>, y: Seq<Seq<char>>, k: int)
    ensures
        0 <= k < x.len() ==> (x + y)[k] == x[k],
        x.len() <= k < x.len() + y.len() ==> (x + y)[k] == y[k - x.len()],
{
}

proof fn lemma_concat_prefix_of(x: Seq<Seq<char>>, y: Seq<Seq<char>>, z: Seq<Seq<char>>, k: int)
    ensures
        x.len() <= k < x.len() + y.len() ==> (x + (y + z))[k] == y[k - x.len()],
        x.len() + y.len() <= k < x.len() + y.len() + z.len() ==> (x + (y + z))[k] == z[k - x.len() - y.len()],
{
    lemma_concat_at(x, y + z, k);
    lemma_concat_at(y, z, k - x.len());
}

/// Without a client version (or with a blank one) the command line goes on
/// from the server arguments straight to the login arguments, or to the
/// fixed options when no account logs in: no `-clientversion` is given and
/// ClassicUO detects the version.
pub proof fn lemma_no_client_version_without_one(
    profile: Profile,
    plugin: Seq<char>,
    account: Option<&Account>,
    password: Seq<char>,
    tile: Option<ManagedTile>,
)
    requires
        match profile.client_version {
            Some(v) => trimmed(v@).len() == 0,
            None => true,
        },
    ensures
        ({
            let args = cuo_arg_list(profile, plugin, account, password, tile);
            let k = (uo_args(profile).len() + server_args(profile).len()) as int;
            &&& args.len() > k
            &&& args[k] == if (match account {
                Some(a) => trimmed(a.username@).len() > 0,
                None => false,
            }) {
                "-account"@
            } else {
                "-saveaccount"@
            }
        }),
{
    let a = uo_args(profile);
    let b = server_args(profile);
    let c = version_args(profile);
    let d = account_args(account, password);
    let f = fixed_args(logs_in(account), profile.server.encryption);
    let rest = tile_args(tile) + plugin_args(plugin);
    let args = cuo_arg_list(profile, plugin, account, password, tile);
    assert(c.len() == 0);
    assert(args =~= a + b + (d + f + rest));
    let k = (a.len() + b.len()) as int;
    assert(args[k] == (d + f + rest)[0]);
    if logs_in(account) {
        assert(d[0] == "-account"@);
    } else {
        assert(d.len() == 0);
        assert((d + f + rest)[0] == f[0]);
    }
}

/// A profile that names a client version (not blank) passes it to the
/// client: the argument right after the server arguments is
/// `-clientversion`, followed by the trimmed version.
pub proof fn lemma_client_version_follows_server_args(
    profile: Profile,
    plugin: Seq<char>,
    account: Option<&Account>,
    password: Seq<char>,
    tile: Option<ManagedTile>,
)
    requires
        profile.client_version matches Some(v) && trimmed(v@).len() > 0,
    ensures
        ({
            let args = cuo_arg_list(profile, plugin, account, password, tile);
            let k = (uo_args(profile).len() + server_args(profile).len()) as int;
            &&& args.len() > k + 1
            &&& args[k] == "-clientversion"@
            &&& args[k + 1] == quoted_arg(trimmed(profile.client_version->Some_0@))
        }),
{
    let a = uo_args(profile);
    let b = server_args(profile);
    let c = version_args(profile);
    let rest = account_args(account, password) + fixed_args(logs_in(account), profile.server.encryption)
        + tile_args(tile) + plugin_args(plugin);
    let args = cuo_arg_list(profile, plugin, account, password, tile);
    assert(args =~= a + b + c + rest);
    let k = (a.len() + b.len()) as int;
    assert(c.len() == 2);
    assert((a + b + c + rest)[k] == c[0]);
    assert((a + b + c + rest)[k + 1] == c[1]);
}

} // verus!
