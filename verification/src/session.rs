//! Runtime sessions of launched clients: which accounts are running,
//! reserved for a launch in progress, or launched without a process handle.
//!
//! Process handles stay with the application, which polls them and reports
//! each exit here; the registry holds the bookkeeping.

use vstd::prelude::*;
use std::collections::VecDeque;
use crate::text::{nat_digits, push_str, push_u64_digits, u64_to_decimal};

verus! {

pub const RECENT_EXIT_CAPACITY: usize = 32;

pub const RECENT_UNTRACKED_CAPACITY: usize = 16;

#[derive(Debug, Clone, Copy, PartialEq, Eq, PartialOrd, Ord, Hash, Structural)]
pub struct RuntimeSessionId(pub u64);

/// A profile/account pair as plain text.
pub type AccountKeyView = (Seq<char>, Seq<char>);

#[derive(Debug)]
struct AccountKey {
    profile_id: String,
    account_id: String,
}

impl AccountKey {
    spec fn view_key(&self) -> AccountKeyView {
        (self.profile_id@, self.account_id@)
    }
}

#[derive(Debug)]
struct SessionEntry {
    runtime_session_id: RuntimeSessionId,
    profile_id: String,
    account_id: String,
    pid: u32,
    process_creation_time_filetime_100ns: Option<u64>,
    process_creation_time_error: Option<String>,
    launcher_observed_spawn_time_unix_ms: u64,
}

#[derive(Debug, Clone)]
pub struct ActiveSessionDiagnostic {
    pub runtime_session_id: RuntimeSessionId,
    pub profile_id: String,
    pub account_id: String,
    pub pid: u32,
    /// Decimal FILETIME ticks, kept as text to avoid JavaScript u64 precision loss.
    pub process_creation_time_filetime_100ns: Option<String>,
    pub process_creation_time_error: Option<String>,
    pub launcher_observed_spawn_time_unix_ms: u64,
}

#[derive(Debug, Clone)]
pub struct RecentExitDiagnostic {
    pub runtime_session_id: RuntimeSessionId,
    pub profile_id: String,
    pub account_id: String,
    pub pid: u32,
    pub process_creation_time_filetime_100ns: Option<String>,
    pub process_creation_time_error: Option<String>,
    pub launcher_observed_spawn_time_unix_ms: u64,
    pub launcher_observed_exit_time_unix_ms: u64,
    pub exit_code: Option<i32>,
    pub success: bool,
}

#[derive(Debug, Clone)]
pub struct UntrackedLaunchDiagnostic {
    pub code: &'static str,
    pub profile_id: String,
    pub account_id: Option<String>,
    pub launcher_observed_spawn_time_unix_ms: u64,
}

#[derive(Debug, Clone)]
pub struct RegistryWarning {
    pub code: &'static str,
    pub profile_id: Option<String>,
    pub account_id: Option<String>,
    pub runtime_session_ids: Vec<RuntimeSessionId>,
    pub message: String,
}

#[derive(Debug, Clone)]
pub struct RegistrySnapshot {
    pub active_sessions: Vec<ActiveSessionDiagnostic>,
    pub recent_exits: Vec<RecentExitDiagnostic>,
    pub untracked_launches: Vec<UntrackedLaunchDiagnostic>,
    pub warnings: Vec<RegistryWarning>,
}

#[derive(Debug, Clone, Copy, PartialEq, Eq, Structural)]
pub struct ActiveProcessIdentity {
    pub runtime_session_id: RuntimeSessionId,
    pub pid: u32,
    pub process_creation_time_filetime_100ns: Option<u64>,
}

#[derive(Debug, Default, Clone, Copy, PartialEq, Eq, Structural)]
pub struct AccountStateCounts {
    pub selected: usize,
    pub active: usize,
    pub pending: usize,
    pub untracked: usize,
    pub missing: usize,
}

/// The registry of runtime sessions.
#[derive(Debug)]
pub struct SessionRegistry {
    next_runtime_session_id: u64,
    active: Vec<SessionEntry>,
    pending_accounts: Vec<AccountKey>,
    untracked_active_accounts: Vec<AccountKey>,
    recent_exits: VecDeque<RecentExitDiagnostic>,
    untracked_launches: VecDeque<UntrackedLaunchDiagnostic>,
}

spec fn key_set(keys: Seq<AccountKey>) -> Set<AccountKeyView> {
    Set::new(
        |k: AccountKeyView|
            exists|i: int| 0 <= i < keys.len() && (#[trigger] keys[i]).view_key() == k,
    )
}

fn key_matches(k: &AccountKey, profile_id: &str, account_id: &str) -> (b: bool)
    ensures
        b == (k.view_key() == (profile_id@, account_id@)),
{
    crate::text::str_eq(k.profile_id.as_str(), profile_id) && crate::text::str_eq(
        k.account_id.as_str(),
        account_id,
    )
}

fn keys_contain(keys: &Vec<AccountKey>, profile_id: &str, account_id: &str) -> (b: bool)
    ensures
        b == key_set(keys@).contains((profile_id@, account_id@)),
{
    let mut i: usize = 0;
    while i < keys.len()
        invariant
            i <= keys@.len(),
            forall|j: int| 0 <= j < i ==> (#[trigger] keys@[j]).view_key() != (profile_id@, account_id@),
        decreases keys@.len() - i,
    {
        if key_matches(&keys[i], profile_id, account_id) {
            return true;
        }
        i = i + 1;
    }
    false
}

fn keys_remove(keys: &mut Vec<AccountKey>, profile_id: &str, account_id: &str)
    ensures
        key_set(final(keys)@) == key_set(old(keys)@).remove((profile_id@, account_id@)),
{
    let ghost k: AccountKeyView = (profile_id@, account_id@);
    let ghost start = key_set(keys@);
    let mut i: usize = 0;
    while i < keys.len()
        invariant
            i <= keys@.len(),
            k == (profile_id@, account_id@),
            forall|j: int| 0 <= j < i ==> (#[trigger] keys@[j]).view_key() != k,
            key_set(keys@).remove(k) == start.remove(k),
        decreases keys@.len() - i,
    {
        let matched = key_matches(&keys[i], profile_id, account_id);
        let ghost before = keys@;
        assert(matched == (before[i as int].view_key() == k));
        if matched {
            keys.remove(i);
            assert(key_set(keys@).remove(k) =~= key_set(before).remove(k)) by {
                assert forall|x: AccountKeyView| key_set(before).remove(k).contains(x) implies key_set(
                    keys@,
                ).remove(k).contains(x) by {
                    let w = choose|w: int| 0 <= w < before.len() && (#[trigger] before[w]).view_key() == x;
                    assert(x != k);
                    if w < i {
                        assert(keys@[w] == before[w]);
                        assert(keys@[w].view_key() == x);
                    } else if w > i {
                        assert(keys@[w - 1] == before[w]);
                        assert(keys@[w - 1].view_key() == x);
                    } else {
                        assert(before[w].view_key() == k);
                    }
                    assert(key_set(keys@).contains(x));
                }
                assert forall|x: AccountKeyView| key_set(keys@).remove(k).contains(x) implies key_set(
                    before,
                ).remove(k).contains(x) by {
                    let w = choose|w: int| 0 <= w < keys@.len() && (#[trigger] keys@[w]).view_key() == x;
                    if w < i {
                        assert(keys@[w] == before[w]);
                    } else {
                        assert(keys@[w] == before[w + 1]);
                    }
                }
            }
            assert forall|j: int| 0 <= j < i implies (#[trigger] keys@[j]).view_key() != k by {
                assert(keys@[j] == before[j]);
            }
        } else {
            i = i + 1;
        }
    }
    assert(key_set(keys@) =~= key_set(keys@).remove(k));
}

fn keys_insert(keys: &mut Vec<AccountKey>, profile_id: &str, account_id: &str)
    ensures
        key_set(final(keys)@) == key_set(old(keys)@).insert((profile_id@, account_id@)),
{
    let ghost before = keys@;
    if !keys_contain(keys, profile_id, account_id) {
        keys.push(AccountKey { profile_id: String::from_str(profile_id), account_id: String::from_str(account_id) });
        assert(keys@[before.len() as int].view_key() == (profile_id@, account_id@));
        assert forall|x: AccountKeyView| key_set(before).contains(x) implies key_set(keys@).contains(x) by {
            let w = choose|w: int| 0 <= w < before.len() && (#[trigger] before[w]).view_key() == x;
            assert(keys@[w] == before[w]);
        }
        assert forall|x: AccountKeyView| key_set(keys@).contains(x) implies #[trigger] key_set(before).insert(
            (profile_id@, account_id@),
        ).contains(x) by {
            let w = choose|w: int| 0 <= w < keys@.len() && (#[trigger] keys@[w]).view_key() == x;
            if w < before.len() {
                assert(keys@[w] == before[w]);
            }
        }
        assert(key_set(keys@) =~= key_set(before).insert((profile_id@, account_id@)));
    } else {
        assert(key_set(keys@) =~= key_set(before).insert((profile_id@, account_id@)));
    }
}

/// Appends to a bounded queue, dropping the oldest entry when it is full.
pub open spec fn bounded_push<T>(q: Seq<T>, capacity: nat, value: T) -> Seq<T> {
    if q.len() == capacity && q.len() > 0 {
        q.drop_first().push(value)
    } else {
        q.push(value)
    }
}

pub fn push_bounded<T>(queue: &mut VecDeque<T>, capacity: usize, value: T)
    ensures
        final(queue)@ == bounded_push(old(queue)@, capacity as nat, value),
{
    if queue.len() == capacity && queue.len() > 0 {
        let _ = queue.pop_front();
    }
    queue.push_back(value);
    assert(final(queue)@ =~= bounded_push(old(queue)@, capacity as nat, value));
}

impl SessionRegistry {
    /// Key of each active session, in runtime-session order.
    pub closed spec fn active_keys(&self) -> Seq<AccountKeyView> {
        self.active@.map_values(|e: SessionEntry| (e.profile_id@, e.account_id@))
    }

    /// Runtime session ids of the active sessions, ascending.
    pub closed spec fn active_ids(&self) -> Seq<u64> {
        self.active@.map_values(|e: SessionEntry| e.runtime_session_id.0)
    }

    /// Pids of the active sessions.
    pub closed spec fn active_pids(&self) -> Seq<u32> {
        self.active@.map_values(|e: SessionEntry| e.pid)
    }

    /// Creation times of the active sessions' processes, where read.
    pub closed spec fn active_creation_times(&self) -> Seq<Option<u64>> {
        self.active@.map_values(|e: SessionEntry| e.process_creation_time_filetime_100ns)
    }

    /// Why the creation time of each active session's process could not be read.
    pub closed spec fn active_creation_errors(&self) -> Seq<Option<Seq<char>>> {
        self.active@.map_values(|e: SessionEntry| optional_text(e.process_creation_time_error))
    }

    /// When the launcher saw each active session's process start.
    pub closed spec fn active_spawn_times(&self) -> Seq<u64> {
        self.active@.map_values(|e: SessionEntry| e.launcher_observed_spawn_time_unix_ms)
    }

    /// Accounts reserved by a launch in progress.
    pub closed spec fn pending(&self) -> Set<AccountKeyView> {
        key_set(self.pending_accounts@)
    }

    /// Accounts launched through the elevation fallback, with no process handle.
    pub closed spec fn untracked(&self) -> Set<AccountKeyView> {
        key_set(self.untracked_active_accounts@)
    }

    /// The id the next registered session gets.
    pub closed spec fn next_id(&self) -> u64 {
        self.next_runtime_session_id
    }

    pub closed spec fn recent_exits_view(&self) -> Seq<RecentExitDiagnostic> {
        self.recent_exits@
    }

    pub closed spec fn untracked_launches_view(&self) -> Seq<UntrackedLaunchDiagnostic> {
        self.untracked_launches@
    }

    /// Internal consistency: active sessions are in ascending id order below
    /// the next id, and the recent-history queues stay within their bounds.
    pub closed spec fn wf(&self) -> bool {
        &&& self.next_runtime_session_id >= 1
        &&& forall|i: int, j: int|
            0 <= i < j < self.active@.len() ==> (#[trigger] self.active@[i]).runtime_session_id.0
                < (#[trigger] self.active@[j]).runtime_session_id.0
        &&& forall|i: int|
            0 <= i < self.active@.len() ==> (#[trigger] self.active@[i]).runtime_session_id.0
                < self.next_runtime_session_id
        &&& self.recent_exits@.len() <= RECENT_EXIT_CAPACITY
        &&& self.untracked_launches@.len() <= RECENT_UNTRACKED_CAPACITY
    }

    /// Whether some active session runs this account.
    pub open spec fn is_active(&self, k: AccountKeyView) -> bool {
        self.active_keys().contains(k)
    }

    /// An account with no session, reservation or untracked launch.
    pub open spec fn is_missing(&self, k: AccountKeyView) -> bool {
        !self.is_active(k) && !self.pending().contains(k) && !self.untracked().contains(k)
    }

    pub fn new() -> (r: Self)
        ensures
            r.wf(),
            r.active_keys().len() == 0,
            r.pending() == Set::<AccountKeyView>::empty(),
            r.untracked() == Set::<AccountKeyView>::empty(),
            r.next_id() == 1,
            r.recent_exits_view().len() == 0,
            r.untracked_launches_view().len() == 0,
    {
        let r = SessionRegistry {
            next_runtime_session_id: 1,
            active: Vec::new(),
            pending_accounts: Vec::new(),
            untracked_active_accounts: Vec::new(),
            recent_exits: VecDeque::new(),
            untracked_launches: VecDeque::new(),
        };
        assert(r.pending() =~= Set::<AccountKeyView>::empty());
        assert(r.untracked() =~= Set::<AccountKeyView>::empty());
        assert(r.active_keys() =~= Seq::<AccountKeyView>::empty());
        r
    }
}

/// An id equal to `ids[j]` occurs before index `j`.
pub open spec fn has_earlier_equal(ids: Seq<String>, j: int) -> bool {
    exists|i: int| 0 <= i < j && (#[trigger] ids[i])@ == ids[j]@
}

/// Index of the first id that repeats an earlier one, from index `j` on.
pub open spec fn first_duplicate_from(ids: Seq<String>, j: int) -> Option<int>
    decreases ids.len() - j,
{
    if j < 0 || j >= ids.len() {
        None
    } else if has_earlier_equal(ids, j) {
        Some(j)
    } else {
        first_duplicate_from(ids, j + 1)
    }
}

pub open spec fn first_duplicate(ids: Seq<String>) -> Option<int> {
    first_duplicate_from(ids, 0)
}

/// Number of ids processed before a duplicate stops the reservation.
pub open spec fn checked_prefix_len(ids: Seq<String>) -> int {
    match first_duplicate(ids) {
        Some(d) => d,
        None => ids.len() as int,
    }
}

/// The ids a reservation takes: those before the first duplicate whose
/// account is missing (not running, reserved or launched untracked).
pub open spec fn fresh_ids(reg: SessionRegistry, profile: Seq<char>, ids: Seq<String>) -> Seq<String> {
    ids.take(checked_prefix_len(ids)).filter(|id: String| reg.is_missing((profile, id@)))
}

/// The profile/account keys of a list of account ids.
pub open spec fn keys_for(profile: Seq<char>, ids: Seq<String>) -> Set<AccountKeyView> {
    Set::new(|k: AccountKeyView| exists|i: int| 0 <= i < ids.len() && k == (profile, (#[trigger] ids[i])@))
}

/// Message of a MULTI LOGIN selection that names an account twice.
pub open spec fn duplicate_selection_text(id: Seq<char>) -> Seq<char> {
    "duplicate account id in MULTI LOGIN selection: "@ + id
}

/// The text of an optional string.
pub open spec fn optional_text(v: Option<String>) -> Option<Seq<char>> {
    match v {
        Some(s) => Some(s@),
        None => None,
    }
}

/// The decimal text of an optional number.
pub open spec fn optional_decimal(v: Option<u64>) -> Option<Seq<char>> {
    match v {
        Some(x) => Some(nat_digits(x as nat)),
        None => None,
    }
}

/// Two registries hold the same active sessions and the same next id.
pub open spec fn same_active(a: SessionRegistry, b: SessionRegistry) -> bool {
    &&& a.active_keys() == b.active_keys()
    &&& a.active_ids() == b.active_ids()
    &&& a.active_pids() == b.active_pids()
    &&& a.active_creation_times() == b.active_creation_times()
    &&& a.active_creation_errors() == b.active_creation_errors()
    &&& a.active_spawn_times() == b.active_spawn_times()
    &&& a.next_id() == b.next_id()
}

/// Two registries agree on everything but their reservations.
pub open spec fn same_but_pending(a: SessionRegistry, b: SessionRegistry) -> bool {
    &&& same_active(a, b)
    &&& a.untracked() == b.untracked()
    &&& a.recent_exits_view() == b.recent_exits_view()
    &&& a.untracked_launches_view() == b.untracked_launches_view()
}

/// What reserving a MULTI selection does: the missing accounts before the
/// first duplicate are reserved and returned, in selection order; a
/// duplicate makes the whole request fail after that.
pub open spec fn reserve_outcome(
    old: SessionRegistry,
    new: SessionRegistry,
    profile: Seq<char>,
    ids: Seq<String>,
    r: Result<Vec<String>, String>,
) -> bool {
    &&& same_but_pending(old, new)
    &&& new.pending() == old.pending().union(keys_for(profile, fresh_ids(old, profile, ids)))
    &&& match first_duplicate(ids) {
        Some(d) => r matches Err(e) && e@ == duplicate_selection_text(ids[d]@),
        None => r matches Ok(v) && v@ == fresh_ids(old, profile, ids),
    }
}

/// Counts of a selection's distinct accounts by state:
/// (selected, active, pending, untracked, missing).
pub open spec fn state_counts(reg: SessionRegistry, profile: Seq<char>, ids: Seq<String>) -> (
    nat,
    nat,
    nat,
    nat,
    nat,
)
    decreases ids.len(),
{
    if ids.len() == 0 {
        (0, 0, 0, 0, 0)
    } else {
        let c = state_counts(reg, profile, ids.drop_last());
        let k = (profile, ids.last()@);
        if has_earlier_equal(ids, ids.len() - 1) {
            c
        } else if reg.is_active(k) {
            (c.0 + 1, c.1 + 1, c.2, c.3, c.4)
        } else if reg.pending().contains(k) {
            (c.0 + 1, c.1, c.2 + 1, c.3, c.4)
        } else if reg.untracked().contains(k) {
            (c.0 + 1, c.1, c.2, c.3 + 1, c.4)
        } else {
            (c.0 + 1, c.1, c.2, c.3, c.4 + 1)
        }
    }
}

/// "runtime session #<id> is not active"
pub open spec fn not_active_text(id: u64) -> Seq<char> {
    "runtime session #"@ + nat_digits(id as nat) + " is not active"@
}

fn earlier_equal(ids: &[String], j: usize) -> (b: bool)
    requires
        j < ids@.len(),
    ensures
        b == has_earlier_equal(ids@, j as int),
{
    let mut i: usize = 0;
    while i < j
        invariant
            i <= j < ids@.len(),
            forall|x: int| 0 <= x < i ==> (#[trigger] ids@[x])@ != ids@[j as int]@,
        decreases j - i,
    {
        if ids[i] == ids[j] {
            return true;
        }
        i = i + 1;
    }
    false
}

proof fn lemma_first_duplicate_skip(ids: Seq<String>, j: int)
    requires
        0 <= j <= ids.len(),
        forall|x: int| 0 <= x < j ==> !has_earlier_equal(ids, x),
    ensures
        first_duplicate(ids) == first_duplicate_from(ids, j),
    decreases j,
{
    if j > 0 {
        lemma_first_duplicate_skip(ids, j - 1);
    }
}

impl SessionRegistry {
    fn is_active_exec(&self, profile_id: &str, account_id: &str) -> (b: bool)
        ensures
            b == self.is_active((profile_id@, account_id@)),
    {
        let mut i: usize = 0;
        while i < self.active.len()
            invariant
                i <= self.active@.len(),
                forall|j: int|
                    0 <= j < i ==> (#[trigger] self.active@[j]).profile_id@ != profile_id@
                        || self.active@[j].account_id@ != account_id@,
            decreases self.active@.len() - i,
        {
            if crate::text::str_eq(self.active[i].profile_id.as_str(), profile_id)
                && crate::text::str_eq(self.active[i].account_id.as_str(), account_id) {
                assert(self.active_keys()[i as int] == (profile_id@, account_id@));
                return true;
            }
            i = i + 1;
        }
        assert(!self.active_keys().contains((profile_id@, account_id@))) by {
            if self.active_keys().contains((profile_id@, account_id@)) {
                let w = choose|w: int| 0 <= w < self.active_keys().len() && self.active_keys()[w] == (profile_id@, account_id@);
                assert(self.active@[w].profile_id@ == profile_id@);
            }
        }
        false
    }

    /// Reserves the missing accounts of a MULTI selection so that a repeated
    /// request cannot launch them twice; returns the reserved ids.
    pub fn reserve_missing_accounts(&mut self, profile_id: &str, account_ids: &[String]) -> (r: Result<
        Vec<String>,
        String,
    >)
        requires
            old(self).wf(),
        ensures
            final(self).wf(),
            reserve_outcome(*old(self), *final(self), profile_id@, account_ids@, r),
    {
        let ghost old_self = *self;
        let ghost ids = account_ids@;
        let ghost pred = |id: String| old_self.is_missing((profile_id@, id@));
        let mut reserved: Vec<String> = Vec::new();
        let mut j: usize = 0;
        assert(ids.take(0).filter(pred) =~= Seq::<String>::empty()) by {
            reveal(Seq::filter);
        }
        assert(keys_for(profile_id@, Seq::<String>::empty()) =~= Set::<AccountKeyView>::empty());
        assert(self.pending() =~= old_self.pending().union(keys_for(profile_id@, reserved@)));
        while j < account_ids.len()
            invariant
                j <= ids.len(),
                ids == account_ids@,
                old_self == *old(self),
                self.wf(),
                same_but_pending(old_self, *self),
                forall|x: int| 0 <= x < j ==> !has_earlier_equal(ids, x),
                reserved@ == ids.take(j as int).filter(pred),
                forall|x: int| 0 <= x < reserved@.len() ==> exists|y: int| 0 <= y < j && (#[trigger] reserved@[x])@ == (#[trigger] ids[y])@,
                self.pending() == old_self.pending().union(keys_for(profile_id@, reserved@)),
                forall|id: String| #[trigger] pred(id) == old_self.is_missing((profile_id@, id@)),
            decreases ids.len() - j,
        {
            proof {
                crate::settings::lemma_filter_take_step(ids, j as int, pred);
            }
            if earlier_equal(account_ids, j) {
                proof {
                    lemma_first_duplicate_skip(ids, j as int);
                    assert(first_duplicate(ids) == Some(j as int));
                    assert(checked_prefix_len(ids) == j);
                }
                let mut msg = String::from_str("duplicate account id in MULTI LOGIN selection: ");
                crate::text::push_str(&mut msg, account_ids[j].as_str());
                proof {
                    reveal_strlit("duplicate account id in MULTI LOGIN selection: ");
                    assert(ids.take(j as int) =~= ids.take(checked_prefix_len(ids)));
                    assert(pred =~= (|id: String| old_self.is_missing((profile_id@, id@))));
                    assert(msg@ == duplicate_selection_text(ids[j as int]@));
                }
                return Err(msg);
            }
            let id = &account_ids[j];
            let ghost k = (profile_id@, id@);
            assert(!keys_for(profile_id@, reserved@).contains(k)) by {
                if keys_for(profile_id@, reserved@).contains(k) {
                    let x = choose|x: int| 0 <= x < reserved@.len() && k == (profile_id@, (#[trigger] reserved@[x])@);
                    let y = choose|y: int| 0 <= y < j && (#[trigger] reserved@[x])@ == (#[trigger] ids[y])@;
                    assert(has_earlier_equal(ids, j as int));
                }
            }
            let active = self.is_active_exec(profile_id, id.as_str());
            let pending = keys_contain(&self.pending_accounts, profile_id, id.as_str());
            let untracked = keys_contain(&self.untracked_active_accounts, profile_id, id.as_str());
            assert(self.is_active(k) == old_self.is_active(k));
            assert(self.pending().contains(k) == old_self.pending().contains(k));
            if !(active || pending || untracked) {
                let ghost before = reserved@;
                keys_insert(&mut self.pending_accounts, profile_id, id.as_str());
                reserved.push(id.clone());
                assert(keys_for(profile_id@, reserved@) =~= keys_for(profile_id@, before).insert(k)) by {
                    assert(reserved@[before.len() as int] == *id);
                    assert forall|kk: AccountKeyView| keys_for(profile_id@, before).contains(kk) implies keys_for(profile_id@, reserved@).contains(kk) by {
                        let x = choose|x: int| 0 <= x < before.len() && kk == (profile_id@, (#[trigger] before[x])@);
                        assert(reserved@[x] == before[x]);
                    }
                    assert forall|kk: AccountKeyView| keys_for(profile_id@, reserved@).contains(kk) implies #[trigger] keys_for(profile_id@, before).insert(k).contains(kk) by {
                        let x = choose|x: int| 0 <= x < reserved@.len() && kk == (profile_id@, (#[trigger] reserved@[x])@);
                        if x < before.len() {
                            assert(reserved@[x] == before[x]);
                        }
                    }
                }
                assert(self.pending() =~= old_self.pending().union(keys_for(profile_id@, reserved@)));
                assert forall|x: int| 0 <= x < reserved@.len() implies exists|y: int| 0 <= y < j + 1 && (#[trigger] reserved@[x])@ == (#[trigger] ids[y])@ by {
                    if x < before.len() {
                        assert(reserved@[x] == before[x]);
                        let y = choose|y: int| 0 <= y < j && (#[trigger] before[x])@ == (#[trigger] ids[y])@;
                        assert(reserved@[x]@ == ids[y]@);
                    } else {
                        assert(reserved@[x]@ == ids[j as int]@);
                    }
                }
            }
            j = j + 1;
        }
        proof {
            lemma_first_duplicate_skip(ids, j as int);
            assert(first_duplicate(ids) is None);
            assert(ids.take(j as int) =~= ids.take(checked_prefix_len(ids)));
            assert(pred =~= (|id: String| old_self.is_missing((profile_id@, id@))));
        }
        Ok(reserved)
    }

    /// Drops the reservation of an account whose launch did not happen.
    pub fn release_reservation(&mut self, profile_id: &str, account_id: &str)
        requires
            old(self).wf(),
        ensures
            final(self).wf(),
            same_but_pending(*old(self), *final(self)),
            final(self).pending() == old(self).pending().remove((profile_id@, account_id@)),
    {
        keys_remove(&mut self.pending_accounts, profile_id, account_id);
    }

    /// Counts the distinct accounts of a selection by state; an account is
    /// counted once, in the first state that applies of active, pending,
    /// untracked and missing.
    pub fn account_states(&self, profile_id: &str, account_ids: &[String]) -> (c: AccountStateCounts)
        ensures
            state_counts(*self, profile_id@, account_ids@) == (
                c.selected as nat,
                c.active as nat,
                c.pending as nat,
                c.untracked as nat,
                c.missing as nat,
            ),
            c.active + c.pending + c.untracked + c.missing == c.selected,
            c.selected == distinct_ids(account_ids@).len(),
    {
        proof {
            lemma_state_counts_partition(*self, profile_id@, account_ids@);
            lemma_state_counts_selected_distinct(*self, profile_id@, account_ids@);
        }
        let ghost ids = account_ids@;
        let mut counts = AccountStateCounts { selected: 0, active: 0, pending: 0, untracked: 0, missing: 0 };
        let mut j: usize = 0;
        while j < account_ids.len()
            invariant
                j <= ids.len(),
                ids == account_ids@,
                counts.selected <= j,
                counts.active <= counts.selected,
                counts.pending <= counts.selected,
                counts.untracked <= counts.selected,
                counts.missing <= counts.selected,
                state_counts(*self, profile_id@, ids.take(j as int)) == (
                    counts.selected as nat,
                    counts.active as nat,
                    counts.pending as nat,
                    counts.untracked as nat,
                    counts.missing as nat,
                ),
            decreases ids.len() - j,
        {
            let ghost prefix = ids.take(j as int + 1);
            proof {
                assert(prefix.drop_last() =~= ids.take(j as int));
                assert(prefix.last() == ids[j as int]);
                assert(has_earlier_equal(prefix, j as int) == has_earlier_equal(ids, j as int)) by {
                    if has_earlier_equal(ids, j as int) {
                        let w = choose|w: int| 0 <= w < j && (#[trigger] ids[w])@ == ids[j as int]@;
                        assert(prefix[w] == ids[w]);
                    }
                    if has_earlier_equal(prefix, j as int) {
                        let w = choose|w: int| 0 <= w < j && (#[trigger] prefix[w])@ == prefix[j as int]@;
                        assert(prefix[w] == ids[w]);
                    }
                }
            }
            if !earlier_equal(account_ids, j) {
                let id = account_ids[j].as_str();
                counts.selected = counts.selected + 1;
                if self.is_active_exec(profile_id, id) {
                    counts.active = counts.active + 1;
                } else if keys_contain(&self.pending_accounts, profile_id, id) {
                    counts.pending = counts.pending + 1;
                } else if keys_contain(&self.untracked_active_accounts, profile_id, id) {
                    counts.untracked = counts.untracked + 1;
                } else {
                    counts.missing = counts.missing + 1;
                }
            }
            j = j + 1;
        }
        assert(ids.take(ids.len() as int) =~= ids);
        counts
    }
}


/// What registering a spawned client does: the session joins the active
/// ones under the next id, and the account's reservation is released.
pub open spec fn registered(
    old: SessionRegistry,
    new: SessionRegistry,
    k: AccountKeyView,
    pid: u32,
    creation: Result<u64, String>,
    spawn_ms: u64,
) -> bool {
    &&& new.next_id() == old.next_id() + 1
    &&& new.active_keys() == old.active_keys().push(k)
    &&& new.active_ids() == old.active_ids().push(old.next_id())
    &&& new.active_pids() == old.active_pids().push(pid)
    &&& new.active_creation_times() == old.active_creation_times().push(
        match creation {
            Ok(v) => Some(v),
            Err(_) => None,
        },
    )
    &&& new.active_creation_errors() == old.active_creation_errors().push(
        match creation {
            Ok(_) => None,
            Err(e) => Some(e@),
        },
    )
    &&& new.active_spawn_times() == old.active_spawn_times().push(spawn_ms)
    &&& new.pending() == old.pending().remove(k)
    &&& new.untracked() == old.untracked()
    &&& new.recent_exits_view() == old.recent_exits_view()
    &&& new.untracked_launches_view() == old.untracked_launches_view()
}

/// The diagnostic of an untracked (elevated) launch.
pub open spec fn untracked_launch_describes(
    d: UntrackedLaunchDiagnostic,
    profile: Seq<char>,
    account: Option<Seq<char>>,
    spawn_ms: u64,
) -> bool {
    &&& d.code@ == "untracked_elevated_fallback"@
    &&& d.profile_id@ == profile
    &&& optional_text(d.account_id) == account
    &&& d.launcher_observed_spawn_time_unix_ms == spawn_ms
}

/// The record of the exit of the `i`-th active session of `reg`.
pub open spec fn exit_describes(
    d: RecentExitDiagnostic,
    reg: SessionRegistry,
    i: int,
    exit_code: Option<i32>,
    success: bool,
    exit_ms: u64,
) -> bool {
    &&& d.runtime_session_id.0 == reg.active_ids()[i]
    &&& (d.profile_id@, d.account_id@) == reg.active_keys()[i]
    &&& d.pid == reg.active_pids()[i]
    &&& optional_text(d.process_creation_time_filetime_100ns) == optional_decimal(
        reg.active_creation_times()[i],
    )
    &&& optional_text(d.process_creation_time_error) == reg.active_creation_errors()[i]
    &&& d.launcher_observed_spawn_time_unix_ms == reg.active_spawn_times()[i]
    &&& d.launcher_observed_exit_time_unix_ms == exit_ms
    &&& d.exit_code == exit_code
    &&& d.success == success
}

/// What recording the exit of the `i`-th active session does.
pub open spec fn exit_recorded(
    old: SessionRegistry,
    new: SessionRegistry,
    i: int,
    exit_code: Option<i32>,
    success: bool,
    exit_ms: u64,
) -> bool {
    &&& new.active_keys() == old.active_keys().remove(i)
    &&& new.active_ids() == old.active_ids().remove(i)
    &&& new.active_pids() == old.active_pids().remove(i)
    &&& new.active_creation_times() == old.active_creation_times().remove(i)
    &&& new.active_creation_errors() == old.active_creation_errors().remove(i)
    &&& new.active_spawn_times() == old.active_spawn_times().remove(i)
    &&& new.next_id() == old.next_id()
    &&& new.pending() == old.pending()
    &&& new.untracked() == old.untracked()
    &&& new.untracked_launches_view() == old.untracked_launches_view()
    &&& new.recent_exits_view().len() > 0
    &&& new.recent_exits_view() == bounded_push(
        old.recent_exits_view(),
        RECENT_EXIT_CAPACITY as nat,
        new.recent_exits_view().last(),
    )
    &&& exit_describes(new.recent_exits_view().last(), old, i, exit_code, success, exit_ms)
}

/// The diagnostic of the `i`-th active session of `reg`.
pub open spec fn active_describes(d: ActiveSessionDiagnostic, reg: SessionRegistry, i: int) -> bool {
    &&& d.runtime_session_id.0 == reg.active_ids()[i]
    &&& (d.profile_id@, d.account_id@) == reg.active_keys()[i]
    &&& d.pid == reg.active_pids()[i]
    &&& optional_text(d.process_creation_time_filetime_100ns) == optional_decimal(
        reg.active_creation_times()[i],
    )
    &&& optional_text(d.process_creation_time_error) == reg.active_creation_errors()[i]
    &&& d.launcher_observed_spawn_time_unix_ms == reg.active_spawn_times()[i]
}

fn copy_text(v: &Option<String>) -> (r: Option<String>)
    ensures
        r == *v,
{
    match v {
        Some(s) => Some(s.clone()),
        None => None,
    }
}

fn decimal_text(v: Option<u64>) -> (r: Option<String>)
    ensures
        optional_text(r) == optional_decimal(v),
{
    match v {
        Some(x) => Some(u64_to_decimal(x)),
        None => None,
    }
}

fn copy_exit(d: &RecentExitDiagnostic) -> (r: RecentExitDiagnostic)
    ensures
        r == *d,
{
    RecentExitDiagnostic {
        runtime_session_id: d.runtime_session_id,
        profile_id: d.profile_id.clone(),
        account_id: d.account_id.clone(),
        pid: d.pid,
        process_creation_time_filetime_100ns: copy_text(&d.process_creation_time_filetime_100ns),
        process_creation_time_error: copy_text(&d.process_creation_time_error),
        launcher_observed_spawn_time_unix_ms: d.launcher_observed_spawn_time_unix_ms,
        launcher_observed_exit_time_unix_ms: d.launcher_observed_exit_time_unix_ms,
        exit_code: d.exit_code,
        success: d.success,
    }
}

fn copy_untracked(d: &UntrackedLaunchDiagnostic) -> (r: UntrackedLaunchDiagnostic)
    ensures
        r == *d,
{
    UntrackedLaunchDiagnostic {
        code: d.code,
        profile_id: d.profile_id.clone(),
        account_id: copy_text(&d.account_id),
        launcher_observed_spawn_time_unix_ms: d.launcher_observed_spawn_time_unix_ms,
    }
}

impl SessionRegistry {
    fn index_of(&self, runtime_session_id: RuntimeSessionId) -> (r: Option<usize>)
        ensures
            match r {
                Some(i) => i < self.active_ids().len() && self.active_ids()[i as int]
                    == runtime_session_id.0,
                None => !self.active_ids().contains(runtime_session_id.0),
            },
    {
        let mut i: usize = 0;
        while i < self.active.len()
            invariant
                i <= self.active@.len(),
                forall|j: int|
                    0 <= j < i ==> (#[trigger] self.active@[j]).runtime_session_id.0
                        != runtime_session_id.0,
            decreases self.active@.len() - i,
        {
            if self.active[i].runtime_session_id.0 == runtime_session_id.0 {
                return Some(i);
            }
            i = i + 1;
        }
        assert(!self.active_ids().contains(runtime_session_id.0)) by {
            if self.active_ids().contains(runtime_session_id.0) {
                let w = choose|w: int|
                    0 <= w < self.active_ids().len() && self.active_ids()[w]
                        == runtime_session_id.0;
                assert(self.active@[w].runtime_session_id.0 == runtime_session_id.0);
            }
        }
        None
    }

    /// The pid and process creation time of an active runtime session.
    pub fn active_process_identity(&self, runtime_session_id: RuntimeSessionId) -> (r: Result<
        ActiveProcessIdentity,
        String,
    >)
        ensures
            match r {
                Ok(identity) => exists|i: int|
                    0 <= i < self.active_ids().len() && self.active_ids()[i] == runtime_session_id.0
                        && identity == (ActiveProcessIdentity {
                        runtime_session_id,
                        pid: self.active_pids()[i],
                        process_creation_time_filetime_100ns: self.active_creation_times()[i],
                    }),
                Err(e) => !self.active_ids().contains(runtime_session_id.0) && e@ == not_active_text(
                    runtime_session_id.0,
                ),
            },
    {
        match self.index_of(runtime_session_id) {
            Some(i) => {
                let entry = &self.active[i];
                Ok(
                    ActiveProcessIdentity {
                        runtime_session_id,
                        pid: entry.pid,
                        process_creation_time_filetime_100ns: entry.process_creation_time_filetime_100ns,
                    },
                )
            },
            None => {
                let mut msg = String::from_str("runtime session #");
                push_u64_digits(&mut msg, runtime_session_id.0);
                push_str(&mut msg, " is not active");
                proof {
                    reveal_strlit("runtime session #");
                    reveal_strlit(" is not active");
                }
                assert(msg@ =~= not_active_text(runtime_session_id.0));
                Err(msg)
            },
        }
    }

    /// Records a spawned client under the next runtime session id. The
    /// creation time is what reading it from the process gave.
    pub fn register(
        &mut self,
        profile_id: &str,
        account_id: &str,
        pid: u32,
        process_creation_time: Result<u64, String>,
        launcher_observed_spawn_time_unix_ms: u64,
    ) -> (r: Result<RuntimeSessionId, String>)
        requires
            old(self).wf(),
        ensures
            final(self).wf(),
            old(self).next_id() == u64::MAX ==> (r matches Err(e) && e@
                == "runtime session id counter exhausted"@) && *final(self) == *old(self),
            old(self).next_id() < u64::MAX ==> r == Ok::<RuntimeSessionId, String>(
                RuntimeSessionId(old(self).next_id()),
            ) && registered(
                *old(self),
                *final(self),
                (profile_id@, account_id@),
                pid,
                process_creation_time,
                launcher_observed_spawn_time_unix_ms,
            ),
    {
        let runtime_session_id = RuntimeSessionId(self.next_runtime_session_id);
        if self.next_runtime_session_id == u64::MAX {
            let msg = String::from_str("runtime session id counter exhausted");
            proof {
                reveal_strlit("runtime session id counter exhausted");
            }
            return Err(msg);
        }
        let ghost before = *self;
        self.next_runtime_session_id = self.next_runtime_session_id + 1;
        let (creation, creation_error) = match process_creation_time {
            Ok(value) => (Some(value), None),
            Err(error) => (None, Some(error)),
        };
        keys_remove(&mut self.pending_accounts, profile_id, account_id);
        let entry = SessionEntry {
            runtime_session_id,
            profile_id: String::from_str(profile_id),
            account_id: String::from_str(account_id),
            pid,
            process_creation_time_filetime_100ns: creation,
            process_creation_time_error: creation_error,
            launcher_observed_spawn_time_unix_ms,
        };
        self.active.push(entry);
        proof {
            assert(self.active@ == before.active@.push(entry));
            assert(self.active_keys() =~= before.active_keys().push((profile_id@, account_id@)));
            assert(self.active_ids() =~= before.active_ids().push(before.next_id()));
            assert(self.active_pids() =~= before.active_pids().push(pid));
            assert(self.active_creation_times() =~= before.active_creation_times().push(creation));
            assert(self.active_creation_errors() =~= before.active_creation_errors().push(
                optional_text(creation_error),
            ));
            assert(self.active_spawn_times() =~= before.active_spawn_times().push(
                launcher_observed_spawn_time_unix_ms,
            ));
        }
        Ok(runtime_session_id)
    }

    /// Records a launch through the elevation fallback, which gives no
    /// process handle: its account stays occupied for this run.
    pub fn record_untracked_elevated_fallback(
        &mut self,
        profile_id: &str,
        account_id: Option<&str>,
        launcher_observed_spawn_time_unix_ms: u64,
    )
        requires
            old(self).wf(),
        ensures
            final(self).wf(),
            same_active(*old(self), *final(self)),
            final(self).recent_exits_view() == old(self).recent_exits_view(),
            match account_id {
                Some(a) => final(self).pending() == old(self).pending().remove((profile_id@, a@))
                    && final(self).untracked() == old(self).untracked().insert((profile_id@, a@)),
                None => final(self).pending() == old(self).pending() && final(self).untracked()
                    == old(self).untracked(),
            },
            final(self).untracked_launches_view().len() > 0,
            final(self).untracked_launches_view() == bounded_push(
                old(self).untracked_launches_view(),
                RECENT_UNTRACKED_CAPACITY as nat,
                final(self).untracked_launches_view().last(),
            ),
            untracked_launch_describes(
                final(self).untracked_launches_view().last(),
                profile_id@,
                match account_id {
                    Some(a) => Some(a@),
                    None => None,
                },
                launcher_observed_spawn_time_unix_ms,
            ),
    {
        let account_text = match account_id {
            Some(a) => {
                keys_remove(&mut self.pending_accounts, profile_id, a);
                keys_insert(&mut self.untracked_active_accounts, profile_id, a);
                Some(String::from_str(a))
            },
            None => None,
        };
        let d = UntrackedLaunchDiagnostic {
            code: "untracked_elevated_fallback",
            profile_id: String::from_str(profile_id),
            account_id: account_text,
            launcher_observed_spawn_time_unix_ms,
        };
        push_bounded(&mut self.untracked_launches, RECENT_UNTRACKED_CAPACITY, d);
        proof {
            reveal_strlit("untracked_elevated_fallback");
        }
    }

    /// Records that the process of an active session has exited: the session
    /// leaves the active ones and joins the recent exits. Returns whether the
    /// session was active.
    pub fn record_exit(
        &mut self,
        runtime_session_id: RuntimeSessionId,
        exit_code: Option<i32>,
        success: bool,
        launcher_observed_exit_time_unix_ms: u64,
    ) -> (found: bool)
        requires
            old(self).wf(),
        ensures
            final(self).wf(),
            found == old(self).active_ids().contains(runtime_session_id.0),
            !found ==> *final(self) == *old(self),
            found ==> exists|i: int|
                0 <= i < old(self).active_ids().len() && old(self).active_ids()[i]
                    == runtime_session_id.0 && exit_recorded(
                    *old(self),
                    *final(self),
                    i,
                    exit_code,
                    success,
                    launcher_observed_exit_time_unix_ms,
                ),
    {
        match self.index_of(runtime_session_id) {
            None => false,
            Some(i) => {
                let ghost before = *self;
                let entry = self.active.remove(i);
                proof {
                    assert(self.active@ == before.active@.remove(i as int));
                    assert(self.active_keys() =~= before.active_keys().remove(i as int));
                    assert(self.active_ids() =~= before.active_ids().remove(i as int));
                    assert(self.active_pids() =~= before.active_pids().remove(i as int));
                    assert(self.active_creation_times() =~= before.active_creation_times().remove(
                        i as int,
                    ));
                    assert(self.active_creation_errors() =~= before.active_creation_errors().remove(
                        i as int,
                    ));
                    assert(self.active_spawn_times() =~= before.active_spawn_times().remove(
                        i as int,
                    ));
                    assert forall|a: int, b: int|
                        0 <= a < b < self.active@.len() implies (#[trigger] self.active@[a]).runtime_session_id.0
                        < (#[trigger] self.active@[b]).runtime_session_id.0 by {
                        if a < i {
                            if b < i {
                            } else {
                                assert(self.active@[b] == before.active@[b + 1]);
                            }
                        } else {
                            assert(self.active@[a] == before.active@[a + 1]);
                            assert(self.active@[b] == before.active@[b + 1]);
                        }
                    }
                    assert forall|a: int| 0 <= a < self.active@.len() implies (#[trigger] self.active@[a]).runtime_session_id.0
                        < self.next_runtime_session_id by {
                        if a >= i {
                            assert(self.active@[a] == before.active@[a + 1]);
                        }
                    }
                }
                let d = RecentExitDiagnostic {
                    runtime_session_id,
                    profile_id: entry.profile_id,
                    account_id: entry.account_id,
                    pid: entry.pid,
                    process_creation_time_filetime_100ns: decimal_text(
                        entry.process_creation_time_filetime_100ns,
                    ),
                    process_creation_time_error: entry.process_creation_time_error,
                    launcher_observed_spawn_time_unix_ms: entry.launcher_observed_spawn_time_unix_ms,
                    launcher_observed_exit_time_unix_ms,
                    exit_code,
                    success,
                };
                push_bounded(&mut self.recent_exits, RECENT_EXIT_CAPACITY, d);
                assert(exit_describes(d, before, i as int, exit_code, success, launcher_observed_exit_time_unix_ms));
                true
            },
        }
    }
}


/// The runtime session ids, in order, of the sessions among the first `n`
/// whose key is `k`.
pub open spec fn ids_for_key(keys: Seq<AccountKeyView>, ids: Seq<u64>, k: AccountKeyView, n: int) -> Seq<
    RuntimeSessionId,
>
    decreases n,
{
    if n <= 0 {
        Seq::empty()
    } else {
        let prev = ids_for_key(keys, ids, k, n - 1);
        if keys[n - 1] == k {
            prev.push(RuntimeSessionId(ids[n - 1]))
        } else {
            prev
        }
    }
}

/// No key before position `i` equals the key at `i`.
pub open spec fn first_occurrence(keys: Seq<AccountKeyView>, i: int) -> bool {
    forall|j: int| 0 <= j < i ==> keys[j] != keys[i]
}

/// The keys held by more than one session, in order of first occurrence
/// among the first `n` positions.
pub open spec fn shared_keys(keys: Seq<AccountKeyView>, ids: Seq<u64>, n: int) -> Seq<AccountKeyView>
    decreases n,
{
    if n <= 0 {
        Seq::empty()
    } else {
        let prev = shared_keys(keys, ids, n - 1);
        if first_occurrence(keys, n - 1) && ids_for_key(keys, ids, keys[n - 1], keys.len() as int).len()
            > 1 {
            prev.push(keys[n - 1])
        } else {
            prev
        }
    }
}

/// The keys of a registry held by more than one active session.
pub open spec fn duplicate_keys(reg: SessionRegistry) -> Seq<AccountKeyView> {
    shared_keys(reg.active_keys(), reg.active_ids(), reg.active_keys().len() as int)
}

/// The warning about several active sessions sharing the key `k`.
pub open spec fn duplicate_warning_describes(w: RegistryWarning, k: AccountKeyView, reg: SessionRegistry) -> bool {
    let ids = ids_for_key(reg.active_keys(), reg.active_ids(), k, reg.active_keys().len() as int);
    &&& w.code@ == "duplicate_account"@
    &&& optional_text(w.profile_id) == Some(k.0)
    &&& optional_text(w.account_id) == Some(k.1)
    &&& w.runtime_session_ids@ == ids
    &&& w.message@ == nat_digits(ids.len()) + " active sessions share the same profile_id/account_id"@
}

impl SessionRegistry {
    fn seen_before(&self, i: usize) -> (b: bool)
        requires
            i < self.active@.len(),
        ensures
            b == !first_occurrence(self.active_keys(), i as int),
    {
        let mut j: usize = 0;
        while j < i
            invariant
                i < self.active@.len(),
                j <= i,
                forall|x: int| 0 <= x < j ==> self.active_keys()[x] != self.active_keys()[i as int],
            decreases i - j,
        {
            if crate::text::str_eq(self.active[j].profile_id.as_str(), self.active[i].profile_id.as_str())
                && crate::text::str_eq(
                self.active[j].account_id.as_str(),
                self.active[i].account_id.as_str(),
            ) {
                assert(self.active_keys()[j as int] == self.active_keys()[i as int]);
                return true;
            }
            j = j + 1;
        }
        false
    }

    fn ids_sharing_key(&self, i: usize) -> (r: Vec<RuntimeSessionId>)
        requires
            i < self.active@.len(),
        ensures
            r@ == ids_for_key(
                self.active_keys(),
                self.active_ids(),
                self.active_keys()[i as int],
                self.active_keys().len() as int,
            ),
    {
        let ghost k = self.active_keys()[i as int];
        let mut r: Vec<RuntimeSessionId> = Vec::new();
        let mut j: usize = 0;
        while j < self.active.len()
            invariant
                i < self.active@.len(),
                j <= self.active@.len(),
                k == self.active_keys()[i as int],
                r@ == ids_for_key(self.active_keys(), self.active_ids(), k, j as int),
            decreases self.active@.len() - j,
        {
            if crate::text::str_eq(self.active[j].profile_id.as_str(), self.active[i].profile_id.as_str())
                && crate::text::str_eq(
                self.active[j].account_id.as_str(),
                self.active[i].account_id.as_str(),
            ) {
                r.push(self.active[j].runtime_session_id);
            }
            j = j + 1;
        }
        r
    }

    /// The warning for an active session whose process could not be polled.
    pub fn try_wait_failed_warning(&self, runtime_session_id: RuntimeSessionId, message: String) -> (w:
        Option<RegistryWarning>)
        ensures
            match w {
                Some(w) => exists|i: int|
                    0 <= i < self.active_ids().len() && self.active_ids()[i] == runtime_session_id.0 && {
                        &&& w.code@ == "try_wait_failed"@
                        &&& optional_text(w.profile_id) == Some(self.active_keys()[i].0)
                        &&& optional_text(w.account_id) == Some(self.active_keys()[i].1)
                        &&& w.runtime_session_ids@ == seq![runtime_session_id]
                        &&& w.message == message
                    },
                None => !self.active_ids().contains(runtime_session_id.0),
            },
    {
        match self.index_of(runtime_session_id) {
            None => None,
            Some(i) => {
                let mut ids: Vec<RuntimeSessionId> = Vec::new();
                ids.push(runtime_session_id);
                proof {
                    reveal_strlit("try_wait_failed");
                    assert(ids@ =~= seq![runtime_session_id]);
                }
                Some(
                    RegistryWarning {
                        code: "try_wait_failed",
                        profile_id: Some(self.active[i].profile_id.clone()),
                        account_id: Some(self.active[i].account_id.clone()),
                        runtime_session_ids: ids,
                        message,
                    },
                )
            },
        }
    }

    /// The registry as diagnostics: the active sessions in runtime-session
    /// order, the recent exits and untracked launches oldest first, and the
    /// warnings: those of polling the processes, then one for each account
    /// that several active sessions share.
    pub fn snapshot(&self, reap_warnings: Vec<RegistryWarning>) -> (s: RegistrySnapshot)
        ensures
            self.active_keys().len() == self.active_ids().len(),
            s.active_sessions@.len() == self.active_ids().len(),
            forall|i: int|
                0 <= i < s.active_sessions@.len() ==> active_describes(
                    #[trigger] s.active_sessions@[i],
                    *self,
                    i,
                ),
            s.recent_exits@ == self.recent_exits_view(),
            s.untracked_launches@ == self.untracked_launches_view(),
            s.warnings@.len() == reap_warnings@.len() + duplicate_keys(*self).len(),
            s.warnings@.take(reap_warnings@.len() as int) == reap_warnings@,
            forall|t: int|
                0 <= t < duplicate_keys(*self).len() ==> duplicate_warning_describes(
                    #[trigger] s.warnings@[reap_warnings@.len() + t],
                    duplicate_keys(*self)[t],
                    *self,
                ),
    {
        let n = self.active.len();
        let mut active_sessions: Vec<ActiveSessionDiagnostic> = Vec::new();
        let mut i: usize = 0;
        while i < n
            invariant
                n == self.active@.len(),
                i <= n,
                active_sessions@.len() == i,
                forall|j: int|
                    0 <= j < i ==> active_describes(#[trigger] active_sessions@[j], *self, j),
            decreases n - i,
        {
            let e = &self.active[i];
            active_sessions.push(
                ActiveSessionDiagnostic {
                    runtime_session_id: e.runtime_session_id,
                    profile_id: e.profile_id.clone(),
                    account_id: e.account_id.clone(),
                    pid: e.pid,
                    process_creation_time_filetime_100ns: decimal_text(
                        e.process_creation_time_filetime_100ns,
                    ),
                    process_creation_time_error: copy_text(&e.process_creation_time_error),
                    launcher_observed_spawn_time_unix_ms: e.launcher_observed_spawn_time_unix_ms,
                },
            );
            i = i + 1;
        }
        let mut recent_exits: Vec<RecentExitDiagnostic> = Vec::new();
        let mut i: usize = 0;
        while i < self.recent_exits.len()
            invariant
                i <= self.recent_exits@.len(),
                recent_exits@ == self.recent_exits@.take(i as int),
            decreases self.recent_exits@.len() - i,
        {
            recent_exits.push(copy_exit(&self.recent_exits[i]));
            i = i + 1;
            assert(recent_exits@ =~= self.recent_exits@.take(i as int));
        }
        assert(recent_exits@ =~= self.recent_exits@);
        let mut untracked_launches: Vec<UntrackedLaunchDiagnostic> = Vec::new();
        let mut i: usize = 0;
        while i < self.untracked_launches.len()
            invariant
                i <= self.untracked_launches@.len(),
                untracked_launches@ == self.untracked_launches@.take(i as int),
            decreases self.untracked_launches@.len() - i,
        {
            untracked_launches.push(copy_untracked(&self.untracked_launches[i]));
            i = i + 1;
            assert(untracked_launches@ =~= self.untracked_launches@.take(i as int));
        }
        assert(untracked_launches@ =~= self.untracked_launches@);
        let ghost keys = self.active_keys();
        let ghost ids = self.active_ids();
        let ghost base = reap_warnings@;
        let mut warnings = reap_warnings;
        proof {
            reveal_strlit("duplicate_account");
            reveal_strlit(" active sessions share the same profile_id/account_id");
        }
        let mut i: usize = 0;
        while i < n
            invariant
                n == self.active@.len(),
                keys == self.active_keys(),
                ids == self.active_ids(),
                keys.len() == n,
                ids.len() == n,
                i <= n,
                warnings@.len() == base.len() + shared_keys(keys, ids, i as int).len(),
                warnings@.take(base.len() as int) == base,
                forall|t: int|
                    0 <= t < shared_keys(keys, ids, i as int).len() ==> duplicate_warning_describes(
                        #[trigger] warnings@[base.len() + t],
                        shared_keys(keys, ids, i as int)[t],
                        *self,
                    ),
            decreases n - i,
        {
            let ghost before = warnings@;
            if !self.seen_before(i) {
                let group = self.ids_sharing_key(i);
                if group.len() > 1 {
                    let mut message = String::new();
                    push_u64_digits(&mut message, group.len() as u64);
                    push_str(&mut message, " active sessions share the same profile_id/account_id");
                    let w = RegistryWarning {
                        code: "duplicate_account",
                        profile_id: Some(self.active[i].profile_id.clone()),
                        account_id: Some(self.active[i].account_id.clone()),
                        runtime_session_ids: group,
                        message,
                    };
                    warnings.push(w);
                    proof {
                        assert(warnings@.take(base.len() as int) =~= before.take(base.len() as int));
                        assert forall|t: int|
                            0 <= t < shared_keys(keys, ids, i + 1).len() implies duplicate_warning_describes(
                            #[trigger] warnings@[base.len() + t],
                            shared_keys(keys, ids, i + 1)[t],
                            *self,
                        ) by {
                            if t < shared_keys(keys, ids, i as int).len() {
                                assert(warnings@[base.len() + t] == before[base.len() + t]);
                            }
                        }
                    }
                }
            }
            i = i + 1;
        }
        RegistrySnapshot { active_sessions, recent_exits, untracked_launches, warnings }
    }
}


/// The distinct accounts of a selection split exactly into active, pending,
/// untracked and missing ones.
pub proof fn lemma_state_counts_partition(reg: SessionRegistry, profile: Seq<char>, ids: Seq<String>)
    ensures
        ({
            let c = state_counts(reg, profile, ids);
            c.0 == c.1 + c.2 + c.3 + c.4
        }),
    decreases ids.len(),
{
    if ids.len() > 0 {
        lemma_state_counts_partition(reg, profile, ids.drop_last());
    }
}

/// The distinct account ids of a selection.
pub open spec fn distinct_ids(ids: Seq<String>) -> Set<Seq<char>> {
    ids.map_values(|s: String| s@).to_set()
}

/// A selection's accounts are counted once each: the selected count is the
/// number of distinct account ids.
pub proof fn lemma_state_counts_selected_distinct(reg: SessionRegistry, profile: Seq<char>, ids: Seq<String>)
    ensures
        state_counts(reg, profile, ids).0 == distinct_ids(ids).len(),
    decreases ids.len(),
{
    broadcast use vstd::set::group_set_axioms, vstd::seq_lib::seq_to_set_is_finite;

    if ids.len() == 0 {
        assert(distinct_ids(ids) =~= Set::<Seq<char>>::empty());
    } else {
        let rest = ids.drop_last();
        lemma_state_counts_partition(reg, profile, rest);
        lemma_state_counts_selected_distinct(reg, profile, rest);
        let v = ids.map_values(|s: String| s@);
        let vr = rest.map_values(|s: String| s@);
        assert(v.drop_last() =~= vr);
        assert forall|x: Seq<char>| #[trigger] v.to_set().contains(x) <==> vr.to_set().insert(v.last()).contains(x) by {
            if v.contains(x) {
                let k = choose|k: int| 0 <= k < v.len() && v[k] == x;
                if k < v.len() - 1 {
                    assert(vr[k] == x);
                }
            }
            if vr.contains(x) {
                let k = choose|k: int| 0 <= k < vr.len() && vr[k] == x;
                assert(v[k] == x);
            }
            if x == v.last() {
                assert(v[v.len() - 1] == x);
            }
        }
        assert(vr.to_set().insert(v.last()) =~= v.to_set());
        let j = ids.len() - 1;
        if has_earlier_equal(ids, j) {
            let w = choose|w: int| 0 <= w < j && (#[trigger] ids[w])@ == ids[j]@;
            assert(vr[w] == v.last());
            assert(vr.to_set().contains(v.last()));
        } else {
            if vr.to_set().contains(v.last()) {
                let w = choose|w: int| 0 <= w < vr.len() && vr[w] == v.last();
                assert(ids[w]@ == ids[j]@);
                assert(false);
            }
        }
    }
}

/// Reserving a selection again right after it was reserved reserves
/// nothing and leaves the registry as it was: repeated MULTI plans are
/// idempotent.
pub proof fn lemma_repeated_reservation_reserves_nothing(
    r0: SessionRegistry,
    r1: SessionRegistry,
    r2: SessionRegistry,
    profile: Seq<char>,
    ids: Seq<String>,
    first: Vec<String>,
    second: Result<Vec<String>, String>,
)
    requires
        reserve_outcome(r0, r1, profile, ids, Ok(first)),
        reserve_outcome(r1, r2, profile, ids, second),
    ensures
        second matches Ok(v) && v@.len() == 0,
        r2.pending() == r1.pending(),
        same_but_pending(r1, r2),
{
    assert(first_duplicate(ids) is None);
    assert(checked_prefix_len(ids) == ids.len());
    assert(ids.take(ids.len() as int) =~= ids);
    let pred0 = |id: String| r0.is_missing((profile, id@));
    let pred1 = |id: String| r1.is_missing((profile, id@));
    let f0 = ids.filter(pred0);
    let f1 = ids.filter(pred1);
    assert(fresh_ids(r0, profile, ids) == f0);
    assert(fresh_ids(r1, profile, ids) == f1);
    if f1.len() > 0 {
        let x = f1[0];
        ids.lemma_filter_pred(pred1, 0);
        assert(f1.contains(x));
        ids.lemma_filter_contains_rev(pred1, x);
        let y = choose|y: int| 0 <= y < ids.len() && ids[y] == x;
        let k = (profile, x@);
        if r0.is_missing(k) {
            ids.lemma_filter_contains(pred0, y);
            let w = choose|w: int| 0 <= w < f0.len() && f0[w] == x;
            assert(keys_for(profile, f0).contains(k));
            assert(r1.pending().contains(k));
        } else {
            assert(r1.pending().contains(k) || r1.is_active(k) || r1.untracked().contains(k));
        }
        assert(false);
    }
    assert(keys_for(profile, f1) =~= Set::<AccountKeyView>::empty());
    assert(r2.pending() =~= r1.pending());
}

/// Registering a spawned client makes its account active and releases the
/// account's reservation; the session gets an id that no active session had.
pub proof fn lemma_register_promotes_reservation(
    r0: SessionRegistry,
    r1: SessionRegistry,
    k: AccountKeyView,
    pid: u32,
    creation: Result<u64, String>,
    spawn_ms: u64,
)
    requires
        r0.wf(),
        registered(r0, r1, k, pid, creation, spawn_ms),
    ensures
        r1.is_active(k),
        !r1.pending().contains(k),
        !r0.active_ids().contains(r0.next_id()),
        r1.active_ids().last() == r0.next_id(),
{
    assert(r1.active_keys()[r0.active_keys().len() as int] == k);
    if r0.active_ids().contains(r0.next_id()) {
        let w = choose|w: int| 0 <= w < r0.active_ids().len() && r0.active_ids()[w] == r0.next_id();
        assert(r0.active@[w].runtime_session_id.0 < r0.next_runtime_session_id);
    }
}

/// Right after registering, the new session is active under its id, and
/// the only active session with that id carries the registered pid and
/// creation time: asking for its process identity gives exactly those.
pub proof fn lemma_registered_session_identity(
    r0: SessionRegistry,
    r1: SessionRegistry,
    k: AccountKeyView,
    pid: u32,
    creation: Result<u64, String>,
    spawn_ms: u64,
)
    requires
        r0.wf(),
        registered(r0, r1, k, pid, creation, spawn_ms),
    ensures
        r1.active_ids().contains(r0.next_id()),
        forall|i: int|
            0 <= i < r1.active_ids().len() && #[trigger] r1.active_ids()[i] == r0.next_id() ==> r1.active_pids()[i]
                == pid && r1.active_creation_times()[i] == (match creation {
                Ok(v) => Some(v),
                Err(_) => None::<u64>,
            }),
{
    let n = r0.active_ids().len() as int;
    assert(r1.active_ids()[n] == r0.next_id());
    assert forall|i: int|
        0 <= i < r1.active_ids().len() && #[trigger] r1.active_ids()[i] == r0.next_id() implies r1.active_pids()[i]
            == pid && r1.active_creation_times()[i] == (match creation {
            Ok(v) => Some(v),
            Err(_) => None::<u64>,
        }) by {
        if i < n {
            assert(r1.active_ids()[i] == r0.active_ids()[i]);
            assert(r0.active@[i].runtime_session_id.0 < r0.next_runtime_session_id);
        }
    }
}

/// Once its exit is recorded, a runtime session is no longer active.
pub proof fn lemma_exit_leaves_active(
    r0: SessionRegistry,
    r1: SessionRegistry,
    i: int,
    exit_code: Option<i32>,
    success: bool,
    exit_ms: u64,
)
    requires
        r0.wf(),
        0 <= i < r0.active_ids().len(),
        exit_recorded(r0, r1, i, exit_code, success, exit_ms),
    ensures
        !r1.active_ids().contains(r0.active_ids()[i]),
{
    let id = r0.active_ids()[i];
    if r1.active_ids().contains(id) {
        let w = choose|w: int| 0 <= w < r1.active_ids().len() && r1.active_ids()[w] == id;
        if w < i {
            assert(r0.active@[w].runtime_session_id.0 < r0.active@[i].runtime_session_id.0);
        } else {
            assert(r1.active_ids()[w] == r0.active_ids()[w + 1]);
            assert(r0.active@[i].runtime_session_id.0 < r0.active@[w + 1].runtime_session_id.0);
        }
    }
}

/// The recent-history queues of a registry never exceed their capacities.
pub proof fn lemma_history_is_bounded(reg: SessionRegistry)
    requires
        reg.wf(),
    ensures
        reg.recent_exits_view().len() <= RECENT_EXIT_CAPACITY,
        reg.untracked_launches_view().len() <= RECENT_UNTRACKED_CAPACITY,
{
}

} // verus!
