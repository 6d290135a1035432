//! Launcher settings and their migration from older layouts.

use vstd::prelude::*;
use crate::profile::{Account, Profile, account_id_text, new_account_id};

verus! {

/// Global launcher settings.
#[derive(Debug, Clone)]
pub struct Settings {
    /// Id of the active profile, if any.
    pub active_profile_id: Option<String>,
    /// All profiles, in display priority order.
    pub profiles: Vec<Profile>,
    /// Plugins shared by every profile.
    pub plugins: Vec<PluginEntry>,
    /// UI preferences.
    pub ui: UiSettings,
}

#[derive(Debug, Clone)]
pub struct PluginEntry {
    /// Path of the .dll / .exe, or of the entry .dll of an extracted ZIP.
    pub path: String,
    pub enabled: bool,
    /// Display name; the file name of `path` is shown when absent.
    pub display_name: Option<String>,
}

#[derive(Debug, Clone)]
pub struct UiSettings {
    pub language: String,
    /// The first-use onboarding banner was dismissed for good.
    pub onboarding_dismissed: bool,
    /// PLAY or MULTI has been run at least once.
    pub first_launch_completed: bool,
    /// The setup guide has been opened at least once.
    pub guide_opened: bool,
    /// Legacy main-page order; absorbed into the profile order by migration.
    pub main_profile_ids: Option<Vec<String>>,
}

impl Default for UiSettings {
    fn default() -> (u: Self)
        ensures
            u.language@ == Seq::<char>::empty(),
            !u.onboarding_dismissed,
            !u.first_launch_completed,
            !u.guide_opened,
            u.main_profile_ids is None,
    {
        UiSettings {
            language: String::new(),
            onboarding_dismissed: false,
            first_launch_completed: false,
            guide_opened: false,
            main_profile_ids: None,
        }
    }
}

impl Default for Settings {
    fn default() -> (s: Self)
        ensures
            s.active_profile_id is None,
            s.profiles@.len() == 0,
            s.plugins@.len() == 0,
            s.ui.language@ == Seq::<char>::empty(),
            !s.ui.onboarding_dismissed,
            !s.ui.first_launch_completed,
            !s.ui.guide_opened,
            s.ui.main_profile_ids is None,
    {
        Settings {
            active_profile_id: None,
            profiles: Vec::new(),
            plugins: Vec::new(),
            ui: UiSettings::default(),
        }
    }
}

/// Language used when a stored settings file names none.
pub fn default_lang() -> (s: String)
    ensures
        s@ == "ko"@,
{
    String::from_str("ko")
}

/// Whether a server entry still holds credentials in the legacy fields.
pub open spec fn has_legacy_credentials(p: Profile) -> bool {
    p.server.username@.len() > 0 || p.server.password_encrypted@.len() > 0
}

/// Legacy credentials move into a new account only when the profile has no
/// account yet.
pub open spec fn moves_legacy_account(p: Profile) -> bool {
    has_legacy_credentials(p) && p.server.accounts@.len() == 0
}

pub open spec fn has_account_id(accounts: Seq<Account>, id: Seq<char>) -> bool {
    exists|i: int| 0 <= i < accounts.len() && (#[trigger] accounts[i]).id@ == id
}

/// The active account after migration: kept when it names an existing
/// account, otherwise the first account (or none when there is none).
pub open spec fn fixed_active_account(accounts: Seq<Account>, active: Option<String>) -> Option<
    String,
> {
    match active {
        Some(a) => if has_account_id(accounts, a@) {
            Some(a)
        } else if accounts.len() > 0 {
            Some(accounts[0].id)
        } else {
            None
        },
        None => if accounts.len() > 0 {
            Some(accounts[0].id)
        } else {
            None
        },
    }
}

/// Relation between a profile before and after migration.
pub open spec fn profile_migrated(old: Profile, new: Profile) -> bool {
    &&& new.id == old.id && new.name == old.name && new.uo_path == old.uo_path
    &&& new.cuo_path == old.cuo_path && new.client_version == old.client_version
    &&& new.secondary_layout_preset == old.secondary_layout_preset
    &&& new.server.address == old.server.address && new.server.port == old.server.port
    &&& new.server.encryption == old.server.encryption
    &&& if moves_legacy_account(old) {
        let acc = new.server.accounts@[0];
        &&& new.server.accounts@.len() == 1
        &&& acc.username@ == old.server.username@
        &&& acc.password_encrypted@ == old.server.password_encrypted@
        &&& acc.character_name is None && acc.display_name is None
        &&& acc.multi_enabled == Some(true) && acc.secondary_slot is None
        &&& exists|secs: u64| acc.id@ == account_id_text(secs)
        &&& new.server.username@.len() == 0 && new.server.password_encrypted@.len() == 0
        &&& new.server.active_account_id == Some(acc.id)
    } else {
        &&& new.server.accounts == old.server.accounts
        &&& new.server.username == old.server.username
        &&& new.server.password_encrypted == old.server.password_encrypted
        &&& new.server.active_account_id == fixed_active_account(
            old.server.accounts@,
            old.server.active_account_id,
        )
    }
}

fn has_account_id_in(accounts: &Vec<Account>, id: &String) -> (b: bool)
    ensures
        b == has_account_id(accounts@, id@),
{
    let mut i: usize = 0;
    while i < accounts.len()
        invariant
            i <= accounts.len(),
            forall|j: int| 0 <= j < i ==> (#[trigger] accounts@[j]).id@ != id@,
        decreases accounts.len() - i,
    {
        if accounts[i].id == *id {
            return true;
        }
        i = i + 1;
    }
    false
}

fn first_account_id(accounts: &Vec<Account>) -> (r: Option<String>)
    ensures
        r == (if accounts@.len() > 0 {
            Some(accounts@[0].id)
        } else {
            None::<String>
        }),
{
    if accounts.len() > 0 {
        Some(accounts[0].id.clone())
    } else {
        None
    }
}

fn fix_active_account(accounts: &Vec<Account>, active: Option<String>) -> (r: Option<String>)
    ensures
        r == fixed_active_account(accounts@, active),
{
    match active {
        Some(a) => {
            if has_account_id_in(accounts, &a) {
                Some(a)
            } else {
                first_account_id(accounts)
            }
        },
        None => first_account_id(accounts),
    }
}

fn migrate_profile(p: Profile) -> (q: Profile)
    ensures
        profile_migrated(p, q),
{
    let mut p = p;
    let ghost old_p = p;
    let has_legacy = !p.server.username.as_str().is_empty()
        || !p.server.password_encrypted.as_str().is_empty();
    if has_legacy && p.server.accounts.len() == 0 {
        let id = new_account_id();
        let mut username = String::new();
        std::mem::swap(&mut username, &mut p.server.username);
        let mut password_encrypted = String::new();
        std::mem::swap(&mut password_encrypted, &mut p.server.password_encrypted);
        let active = id.clone();
        p.server.accounts.push(
            Account {
                id,
                username,
                password_encrypted,
                character_name: None,
                display_name: None,
                multi_enabled: Some(true),
                secondary_slot: None,
            },
        );
        let current = p.server.active_account_id;
        p.server.active_account_id = Some(active);
        let fixed = fix_active_account(&p.server.accounts, p.server.active_account_id);
        p.server.active_account_id = fixed;
        assert(has_account_id(p.server.accounts@, p.server.accounts@[0].id@));
    } else {
        let current = p.server.active_account_id;
        p.server.active_account_id = None;
        let fixed = fix_active_account(&p.server.accounts, current);
        p.server.active_account_id = fixed;
    }
    p
}

/// Last position of an id in the legacy main-page list, scanning the first
/// `n` entries.
pub open spec fn last_position_in(legacy: Seq<String>, id: Seq<char>, n: int) -> Option<int>
    decreases n,
{
    if n <= 0 {
        None
    } else if legacy[n - 1]@ == id {
        Some(n - 1)
    } else {
        last_position_in(legacy, id, n - 1)
    }
}

/// Position of a profile id in the legacy list (its last occurrence), if listed.
pub open spec fn legacy_position(legacy: Seq<String>, id: Seq<char>) -> Option<int> {
    last_position_in(legacy, id, legacy.len() as int)
}

/// The profiles whose legacy position is `k`, in their current order.
pub open spec fn with_position(ps: Seq<Profile>, legacy: Seq<String>, k: Option<int>) -> Seq<
    Profile,
> {
    ps.filter(|p: Profile| legacy_position(legacy, p.id@) == k)
}

/// Profiles listed at legacy positions `0..n`, by position.
pub open spec fn positioned_prefix(ps: Seq<Profile>, legacy: Seq<String>, n: nat) -> Seq<Profile>
    decreases n,
{
    if n == 0 {
        Seq::empty()
    } else {
        positioned_prefix(ps, legacy, (n - 1) as nat) + with_position(
            ps,
            legacy,
            Some((n - 1) as int),
        )
    }
}

/// Profile order after absorbing the legacy main-page list: listed profiles
/// first, by their position in the list, then every other profile in its
/// previous order.
pub open spec fn legacy_order(ps: Seq<Profile>, legacy: Seq<String>) -> Seq<Profile> {
    positioned_prefix(ps, legacy, legacy.len()) + with_position(ps, legacy, None)
}

proof fn lemma_filter_true_is_identity<A>(s: Seq<A>, pred: spec_fn(A) -> bool)
    requires
        forall|x: A| #[trigger] pred(x),
    ensures
        s.filter(pred) == s,
    decreases s.len(),
{
    reveal(Seq::filter);
    if s.len() > 0 {
        lemma_filter_true_is_identity(s.drop_last(), pred);
        assert(s.drop_last().push(s.last()) =~= s);
    }
}

proof fn lemma_filter_false_is_empty<A>(s: Seq<A>, pred: spec_fn(A) -> bool)
    requires
        forall|x: A| !#[trigger] pred(x),
    ensures
        s.filter(pred) == Seq::<A>::empty(),
    decreases s.len(),
{
    reveal(Seq::filter);
    if s.len() > 0 {
        lemma_filter_false_is_empty(s.drop_last(), pred);
    }
}

/// Filtering by two predicates that never hold together keeps, between the
/// two results, exactly what filtering by either keeps.
proof fn lemma_disjoint_filters_multiset<A>(s: Seq<A>, a: spec_fn(A) -> bool, b: spec_fn(A) -> bool, ab: spec_fn(A) -> bool)
    requires
        forall|x: A| !(#[trigger] a(x) && b(x)),
        forall|x: A| #[trigger] ab(x) == (a(x) || b(x)),
    ensures
        s.filter(a).to_multiset().add(s.filter(b).to_multiset()) =~= s.filter(ab).to_multiset(),
    decreases s.len(),
{
    broadcast use vstd::multiset::group_multiset_axioms;
    reveal(Seq::filter);
    if s.len() == 0 {
        assert(s.filter(a) =~= Seq::<A>::empty());
        assert(s.filter(b) =~= Seq::<A>::empty());
        assert(s.filter(ab) =~= Seq::<A>::empty());
        vstd::seq_lib::to_multiset_len(Seq::<A>::empty());
        assert(Seq::<A>::empty().to_multiset() =~= vstd::multiset::Multiset::<A>::empty());
    } else {
        let r = s.drop_last();
        let x = s.last();
        lemma_disjoint_filters_multiset(r, a, b, ab);
        vstd::seq_lib::to_multiset_build(r.filter(a), x);
        vstd::seq_lib::to_multiset_build(r.filter(b), x);
        vstd::seq_lib::to_multiset_build(r.filter(ab), x);
        assert(s.filter(a) == (if a(x) { r.filter(a).push(x) } else { r.filter(a) }));
        assert(s.filter(b) == (if b(x) { r.filter(b).push(x) } else { r.filter(b) }));
        assert(s.filter(ab) == (if ab(x) { r.filter(ab).push(x) } else { r.filter(ab) }));
        if a(x) {
            assert(!b(x));
            assert(ab(x));
        } else if b(x) {
            assert(ab(x));
        } else {
            assert(!ab(x));
        }
    }
}

pub open spec fn positioned_below(legacy: Seq<String>, n: int) -> spec_fn(Profile) -> bool {
    |p: Profile| match legacy_position(legacy, p.id@) {
        Some(k) => k < n,
        None => false,
    }
}

proof fn lemma_positioned_prefix_multiset(ps: Seq<Profile>, legacy: Seq<String>, n: nat)
    ensures
        positioned_prefix(ps, legacy, n).to_multiset() =~= ps.filter(positioned_below(legacy, n as int)).to_multiset(),
    decreases n,
{
    broadcast use vstd::multiset::group_multiset_axioms;
    if n == 0 {
        assert forall|p: Profile| !#[trigger] positioned_below(legacy, 0)(p) by {
            lemma_last_position_bounds(legacy, p.id@, legacy.len() as int);
        }
        lemma_filter_false_is_empty(ps, positioned_below(legacy, 0));
        vstd::seq_lib::to_multiset_len(Seq::<Profile>::empty());
        assert(positioned_prefix(ps, legacy, 0) =~= Seq::<Profile>::empty());
    } else {
        let k = (n - 1) as nat;
        lemma_positioned_prefix_multiset(ps, legacy, k);
        let a = positioned_below(legacy, k as int);
        let b = |p: Profile| legacy_position(legacy, p.id@) == Some(k as int);
        lemma_disjoint_filters_multiset(ps, a, b, positioned_below(legacy, n as int));
        vstd::seq_lib::lemma_multiset_commutative(
            positioned_prefix(ps, legacy, k),
            with_position(ps, legacy, Some(k as int)),
        );
    }
}

/// Absorbing the legacy main-page list only reorders the profiles: the
/// same profiles come out, each as often as it went in.
pub proof fn lemma_legacy_order_is_permutation(ps: Seq<Profile>, legacy: Seq<String>)
    ensures
        legacy_order(ps, legacy).to_multiset() =~= ps.to_multiset(),
{
    broadcast use vstd::multiset::group_multiset_axioms;
    let n = legacy.len();
    lemma_positioned_prefix_multiset(ps, legacy, n);
    let a = positioned_below(legacy, n as int);
    let b = |p: Profile| legacy_position(legacy, p.id@) == None::<int>;
    let all = |p: Profile| true;
    assert forall|p: Profile| #[trigger] all(p) == (a(p) || b(p)) by {
        lemma_last_position_bounds(legacy, p.id@, n as int);
    }
    lemma_disjoint_filters_multiset(ps, a, b, all);
    lemma_filter_true_is_identity(ps, all);
    vstd::seq_lib::lemma_multiset_commutative(positioned_prefix(ps, legacy, n), with_position(ps, legacy, None));
}

pub open spec fn position_is(r: Option<usize>, p: Option<int>) -> bool {
    match r {
        Some(i) => p == Some(i as int),
        None => p is None,
    }
}

proof fn lemma_last_position_bounds(legacy: Seq<String>, id: Seq<char>, n: int)
    requires
        0 <= n <= legacy.len(),
    ensures
        match last_position_in(legacy, id, n) {
            Some(x) => 0 <= x < n,
            None => true,
        },
    decreases n,
{
    if n > 0 {
        lemma_last_position_bounds(legacy, id, n - 1);
    }
}

fn legacy_position_of(legacy: &Vec<String>, id: &String) -> (r: Option<usize>)
    ensures
        position_is(r, legacy_position(legacy@, id@)),
{
    let mut r: Option<usize> = None;
    let mut i: usize = 0;
    while i < legacy.len()
        invariant
            i <= legacy.len(),
            position_is(r, last_position_in(legacy@, id@, i as int)),
        decreases legacy.len() - i,
    {
        if legacy[i] == *id {
            r = Some(i);
        }
        i = i + 1;
    }
    r
}

pub proof fn lemma_filter_take_step<A>(s: Seq<A>, j: int, pred: spec_fn(A) -> bool)
    requires
        0 <= j < s.len(),
    ensures
        s.take(j + 1).filter(pred) == (if pred(s[j]) {
            s.take(j).filter(pred).push(s[j])
        } else {
            s.take(j).filter(pred)
        }),
{
    reveal(Seq::filter);
    assert(s.take(j + 1).drop_last() =~= s.take(j));
    assert(s.take(j + 1).last() == s[j]);
}

/// Moves the profiles whose legacy position is `k` from their slots to the
/// end of `out`, keeping their order.
fn move_with_position(
    slots: &mut Vec<Option<Profile>>,
    ranks: &Vec<Option<usize>>,
    k: Option<usize>,
    out: &mut Vec<Profile>,
    Ghost(ps): Ghost<Seq<Profile>>,
    Ghost(legacy): Ghost<Seq<String>>,
)
    requires
        old(slots)@.len() == ps.len(),
        ranks@.len() == ps.len(),
        forall|j: int|
            0 <= j < ps.len() ==> position_is(#[trigger] ranks@[j], legacy_position(legacy, ps[j].id@)),
        forall|j: int|
            0 <= j < ps.len() && position_is(k, legacy_position(legacy, ps[j].id@)) ==> #[trigger] old(
                slots,
            )@[j] == Some(ps[j]),
    ensures
        final(slots)@.len() == ps.len(),
        forall|j: int|
            0 <= j < ps.len() ==> #[trigger] final(slots)@[j] == (if position_is(
                k,
                legacy_position(legacy, ps[j].id@),
            ) {
                None
            } else {
                old(slots)@[j]
            }),
        exists|kk: Option<int>|
            position_is(k, kk) && final(out)@ == old(out)@ + #[trigger] with_position(ps, legacy, kk),
{
    let ghost kk: Option<int> = match k {
        Some(x) => Some(x as int),
        None => None,
    };
    let ghost pred = |p: Profile| legacy_position(legacy, p.id@) == kk;
    let ghost start_out = out@;
    let ghost start_slots = slots@;
    let mut j: usize = 0;
    assert(ps.take(0).filter(pred) =~= Seq::<Profile>::empty()) by {
        reveal(Seq::filter);
    }
    while j < slots.len()
        invariant
            j <= ps.len(),
            slots@.len() == ps.len(),
            ranks@.len() == ps.len(),
            forall|i: int|
                0 <= i < ps.len() ==> position_is(#[trigger] ranks@[i], legacy_position(legacy, ps[i].id@)),
            forall|i: int|
                0 <= i < ps.len() ==> #[trigger] slots@[i] == (if i < j && position_is(
                    k,
                    legacy_position(legacy, ps[i].id@),
                ) {
                    None
                } else {
                    start_slots[i]
                }),
            forall|i: int|
                0 <= i < ps.len() && position_is(k, legacy_position(legacy, ps[i].id@))
                    ==> #[trigger] start_slots[i] == Some(ps[i]),
            out@ == start_out + ps.take(j as int).filter(pred),
            forall|p: Profile| #[trigger] pred(p) == (legacy_position(legacy, p.id@) == kk),
            forall|q: Option<int>| position_is(k, q) <==> q == kk,
        decreases ps.len() - j,
    {
        proof {
            lemma_filter_take_step(ps, j as int, pred);
        }
        let matches = match (ranks[j], k) {
            (Some(a), Some(b)) => a == b,
            (None, None) => true,
            _ => false,
        };
        if matches {
            assert(position_is(k, legacy_position(legacy, ps[j as int].id@)));
            let item = slots.remove(j);
            slots.insert(j, None);
            assert(item == Some(ps[j as int]));
            match item {
                Some(p) => {
                    out.push(p);
                },
                None => {},
            }
        } else {
            assert(!position_is(k, legacy_position(legacy, ps[j as int].id@)));
        }
        assert(slots@[j as int] == (if position_is(k, legacy_position(legacy, ps[j as int].id@)) {
            None
        } else {
            start_slots[j as int]
        }));
        j = j + 1;
    }
    assert(ps.take(ps.len() as int) =~= ps);
    assert(pred =~= (|p: Profile| legacy_position(legacy, p.id@) == kk));
    assert(out@ == start_out + with_position(ps, legacy, kk));
}

/// Reorders profiles by the legacy main-page list (see `legacy_order`).
fn order_by_legacy(profiles: Vec<Profile>, legacy: &Vec<String>) -> (out: Vec<Profile>)
    ensures
        out@ == legacy_order(profiles@, legacy@),
{
    let ghost ps = profiles@;
    let mut ranks: Vec<Option<usize>> = Vec::new();
    let mut i: usize = 0;
    while i < profiles.len()
        invariant
            i <= profiles.len(),
            profiles@ == ps,
            ranks@.len() == i,
            forall|j: int|
                0 <= j < i ==> position_is(#[trigger] ranks@[j], legacy_position(legacy@, ps[j].id@)),
        decreases profiles.len() - i,
    {
        ranks.push(legacy_position_of(legacy, &profiles[i].id));
        i = i + 1;
    }
    let mut source = profiles;
    let mut slots: Vec<Option<Profile>> = Vec::new();
    while source.len() > 0
        invariant
            slots@.len() + source@.len() == ps.len(),
            source@ == ps.subrange(slots@.len() as int, ps.len() as int),
            forall|j: int| 0 <= j < slots@.len() ==> #[trigger] slots@[j] == Some(ps[j]),
        decreases source.len(),
    {
        let ghost n: int = slots@.len() as int;
        let p = source.remove(0);
        slots.push(Some(p));
        assert(source@ =~= ps.subrange(n + 1, ps.len() as int));
    }
    let mut out: Vec<Profile> = Vec::new();
    let mut k: usize = 0;
    assert forall|j: int| 0 <= j < ps.len() implies #[trigger] slots@[j] == (match legacy_position(
        legacy@,
        ps[j].id@,
    ) {
        Some(x) => if x < 0 {
            None
        } else {
            Some(ps[j])
        },
        None => Some(ps[j]),
    }) by {
        lemma_last_position_bounds(legacy@, ps[j].id@, legacy@.len() as int);
    }
    while k < legacy.len()
        invariant
            k <= legacy.len(),
            slots@.len() == ps.len(),
            ranks@.len() == ps.len(),
            forall|j: int|
                0 <= j < ps.len() ==> position_is(#[trigger] ranks@[j], legacy_position(legacy@, ps[j].id@)),
            forall|j: int|
                0 <= j < ps.len() ==> #[trigger] slots@[j] == (match legacy_position(
                    legacy@,
                    ps[j].id@,
                ) {
                    Some(x) => if x < k {
                        None
                    } else {
                        Some(ps[j])
                    },
                    None => Some(ps[j]),
                }),
            out@ == positioned_prefix(ps, legacy@, k as nat),
        decreases legacy.len() - k,
    {
        let ghost before = slots@;
        move_with_position(&mut slots, &ranks, Some(k), &mut out, Ghost(ps), Ghost(legacy@));
        assert forall|j: int| 0 <= j < ps.len() implies #[trigger] slots@[j] == (match legacy_position(
            legacy@,
            ps[j].id@,
        ) {
            Some(x) => if x < k + 1 {
                None
            } else {
                Some(ps[j])
            },
            None => Some(ps[j]),
        }) by {
            assert(before[j] == slots@[j] || position_is(Some(k), legacy_position(legacy@, ps[j].id@)));
        }
        k = k + 1;
    }
    move_with_position(&mut slots, &ranks, None, &mut out, Ghost(ps), Ghost(legacy@));
    out
}

pub open spec fn has_profile_id(ps: Seq<Profile>, id: Seq<char>) -> bool {
    exists|i: int| 0 <= i < ps.len() && (#[trigger] ps[i]).id@ == id
}

pub open spec fn first_profile_id(ps: Seq<Profile>) -> Option<String> {
    if ps.len() > 0 {
        Some(ps[0].id)
    } else {
        None
    }
}

/// The active profile after migration: kept when it names an existing
/// profile, otherwise the first profile (or none).
pub open spec fn fixed_active_profile(ps: Seq<Profile>, active: Option<String>) -> Option<String> {
    match active {
        Some(a) => if has_profile_id(ps, a@) {
            Some(a)
        } else {
            first_profile_id(ps)
        },
        None => first_profile_id(ps),
    }
}

/// Each profile of `m` is the migration of the profile at the same index.
pub open spec fn profiles_migrated(olds: Seq<Profile>, m: Seq<Profile>) -> bool {
    &&& m.len() == olds.len()
    &&& forall|i: int| 0 <= i < m.len() ==> profile_migrated(olds[i], #[trigger] m[i])
}

/// Profile order once the legacy main-page list (if any) has been absorbed.
pub open spec fn reordered_profiles(m: Seq<Profile>, legacy: Option<Vec<String>>) -> Seq<Profile> {
    match legacy {
        Some(l) => legacy_order(m, l@),
        None => m,
    }
}

/// Relation between settings before and after migration.
pub open spec fn settings_migrated(old: Settings, new: Settings) -> bool {
    &&& exists|m: Seq<Profile>|
        #[trigger] profiles_migrated(old.profiles@, m) && new.profiles@ == reordered_profiles(
            m,
            old.ui.main_profile_ids,
        )
    &&& new.active_profile_id == fixed_active_profile(new.profiles@, old.active_profile_id)
    &&& new.plugins == old.plugins
    &&& new.ui.main_profile_ids is None
    &&& new.ui.language == old.ui.language
    &&& new.ui.onboarding_dismissed == old.ui.onboarding_dismissed
    &&& new.ui.first_launch_completed == old.ui.first_launch_completed
    &&& new.ui.guide_opened == old.ui.guide_opened
}

fn has_profile_id_in(ps: &Vec<Profile>, id: &String) -> (b: bool)
    ensures
        b == has_profile_id(ps@, id@),
{
    let mut i: usize = 0;
    while i < ps.len()
        invariant
            i <= ps.len(),
            forall|j: int| 0 <= j < i ==> (#[trigger] ps@[j]).id@ != id@,
        decreases ps.len() - i,
    {
        if ps[i].id == *id {
            return true;
        }
        i = i + 1;
    }
    false
}

fn first_profile_id_of(ps: &Vec<Profile>) -> (r: Option<String>)
    ensures
        r == first_profile_id(ps@),
{
    if ps.len() > 0 {
        Some(ps[0].id.clone())
    } else {
        None
    }
}

/// Moves data from older settings layouts into the current one:
/// - legacy credentials of a profile without accounts become its first account;
/// - a missing active account falls back to the first account;
/// - the legacy main-page list becomes the profile order;
/// - a missing active profile falls back to the first profile.
pub fn migrate(s: &mut Settings)
    ensures
        settings_migrated(*old(s), *final(s)),
{
    let ghost old_s = *s;
    let mut profiles: Vec<Profile> = Vec::new();
    std::mem::swap(&mut profiles, &mut s.profiles);
    let ghost old_ps = profiles@;
    let mut migrated: Vec<Profile> = Vec::new();
    while profiles.len() > 0
        invariant
            migrated@.len() + profiles@.len() == old_ps.len(),
            profiles@ == old_ps.subrange(migrated@.len() as int, old_ps.len() as int),
            forall|i: int|
                0 <= i < migrated@.len() ==> profile_migrated(old_ps[i], #[trigger] migrated@[i]),
        decreases profiles.len(),
    {
        let ghost n: int = migrated@.len() as int;
        let p = profiles.remove(0);
        migrated.push(migrate_profile(p));
        assert(profiles@ =~= old_ps.subrange(n + 1, old_ps.len() as int));
    }
    let ghost m = migrated@;
    let legacy = s.ui.main_profile_ids.take();
    let ordered = match legacy {
        Some(l) => order_by_legacy(migrated, &l),
        None => migrated,
    };
    s.profiles = ordered;
    let current = s.active_profile_id.take();
    let fixed = match current {
        Some(a) => {
            if has_profile_id_in(&s.profiles, &a) {
                Some(a)
            } else {
                first_profile_id_of(&s.profiles)
            }
        },
        None => first_profile_id_of(&s.profiles),
    };
    s.active_profile_id = fixed;
    assert(profiles_migrated(old_s.profiles@, m));
}


proof fn lemma_fixed_active_account_is_stable(accounts: Seq<Account>, active: Option<String>)
    ensures
        fixed_active_account(accounts, fixed_active_account(accounts, active)) == fixed_active_account(
            accounts,
            active,
        ),
{
    if accounts.len() > 0 {
        assert(has_account_id(accounts, accounts[0].id@));
    }
}

proof fn lemma_fixed_active_profile_is_stable(ps: Seq<Profile>, active: Option<String>)
    ensures
        fixed_active_profile(ps, fixed_active_profile(ps, active)) == fixed_active_profile(ps, active),
{
    if ps.len() > 0 {
        assert(has_profile_id(ps, ps[0].id@));
    }
}

/// A profile that migration leaves as it is: no legacy credentials waiting
/// to move, and an active account that needs no fixing.
pub open spec fn profile_settled(p: Profile) -> bool {
    &&& !moves_legacy_account(p)
    &&& p.server.active_account_id == fixed_active_account(p.server.accounts@, p.server.active_account_id)
}

proof fn lemma_migrated_profile_is_settled(p0: Profile, p1: Profile)
    requires
        profile_migrated(p0, p1),
    ensures
        profile_settled(p1),
{
    if moves_legacy_account(p0) {
        assert(has_account_id(p1.server.accounts@, p1.server.accounts@[0].id@));
    } else {
        lemma_fixed_active_account_is_stable(p0.server.accounts@, p0.server.active_account_id);
    }
}

/// Migrating a profile that was already migrated changes nothing.
pub proof fn lemma_profile_migration_is_idempotent(p0: Profile, p1: Profile, p2: Profile)
    requires
        profile_migrated(p0, p1),
        profile_migrated(p1, p2),
    ensures
        p2 == p1,
{
    lemma_migrated_profile_is_settled(p0, p1);
    assert(p2.server == p1.server);
}

proof fn lemma_positioned_prefix_from(ps: Seq<Profile>, legacy: Seq<String>, n: nat, x: Profile)
    requires
        positioned_prefix(ps, legacy, n).contains(x),
    ensures
        ps.contains(x),
    decreases n,
{
    if n > 0 {
        let k = Some((n - 1) as int);
        let a = positioned_prefix(ps, legacy, (n - 1) as nat);
        let b = with_position(ps, legacy, k);
        let i = choose|i: int| 0 <= i < (a + b).len() && (a + b)[i] == x;
        if i < a.len() {
            assert(a[i] == x);
            lemma_positioned_prefix_from(ps, legacy, (n - 1) as nat, x);
        } else {
            assert(b[i - a.len()] == x);
            assert(b.contains(x));
            ps.lemma_filter_contains_rev(|p: Profile| legacy_position(legacy, p.id@) == k, x);
        }
    }
}

proof fn lemma_reordered_profiles_from(m: Seq<Profile>, legacy: Option<Vec<String>>, x: Profile)
    requires
        reordered_profiles(m, legacy).contains(x),
    ensures
        m.contains(x),
{
    if let Some(l) = legacy {
        let a = positioned_prefix(m, l@, l@.len());
        let b = with_position(m, l@, None);
        let i = choose|i: int| 0 <= i < (a + b).len() && (a + b)[i] == x;
        if i < a.len() {
            assert(a[i] == x);
            lemma_positioned_prefix_from(m, l@, l@.len(), x);
        } else {
            assert(b[i - a.len()] == x);
            assert(b.contains(x));
            m.lemma_filter_contains_rev(|p: Profile| legacy_position(l@, p.id@) == None::<int>, x);
        }
    }
}

/// Migrating settings that were already migrated changes nothing: the
/// profiles, their order and the active profile stay as they are.
#[verifier::rlimit(30)]
pub proof fn lemma_settings_migration_is_idempotent(s0: Settings, s1: Settings, s2: Settings)
    requires
        settings_migrated(s0, s1),
        settings_migrated(s1, s2),
    ensures
        s2.profiles@ == s1.profiles@,
        s2.active_profile_id == s1.active_profile_id,
        s2.plugins == s1.plugins,
        s2.ui == s1.ui,
{
    let m1 = choose|m: Seq<Profile>|
        #[trigger] profiles_migrated(s0.profiles@, m) && s1.profiles@ == reordered_profiles(
            m,
            s0.ui.main_profile_ids,
        );
    let m2 = choose|m: Seq<Profile>|
        #[trigger] profiles_migrated(s1.profiles@, m) && s2.profiles@ == reordered_profiles(
            m,
            s1.ui.main_profile_ids,
        );
    assert(s2.profiles@ == m2);
    assert forall|i: int| 0 <= i < m2.len() implies m2[i] == s1.profiles@[i] by {
        let x = s1.profiles@[i];
        assert(s1.profiles@.contains(x));
        lemma_reordered_profiles_from(m1, s0.ui.main_profile_ids, x);
        let j = choose|j: int| 0 <= j < m1.len() && m1[j] == x;
        lemma_migrated_profile_is_settled(s0.profiles@[j], m1[j]);
        assert(profile_migrated(s1.profiles@[i], m2[i]));
        assert(m2[i].server == x.server);
    }
    assert(s2.profiles@ =~= s1.profiles@);
    lemma_fixed_active_profile_is_stable(s1.profiles@, s0.active_profile_id);
}


/// Migration loses and duplicates no profile: the migrated profiles are as
/// many as before, and every profile is still there under its id.
pub proof fn lemma_migration_keeps_every_profile(old: Settings, new: Settings)
    requires
        settings_migrated(old, new),
    ensures
        new.profiles@.len() == old.profiles@.len(),
        forall|i: int|
            0 <= i < old.profiles@.len() ==> exists|j: int|
                0 <= j < new.profiles@.len() && (#[trigger] new.profiles@[j]).id@ == (#[trigger] old.profiles@[i]).id@,
{
    broadcast use vstd::seq_lib::group_to_multiset_ensures;
    let m = choose|m: Seq<Profile>|
        #[trigger] profiles_migrated(old.profiles@, m) && new.profiles@ == reordered_profiles(
            m,
            old.ui.main_profile_ids,
        );
    match old.ui.main_profile_ids {
        Some(l) => lemma_legacy_order_is_permutation(m, l@),
        None => {},
    }
    assert(new.profiles@.to_multiset() =~= m.to_multiset());
    vstd::seq_lib::to_multiset_len(new.profiles@);
    vstd::seq_lib::to_multiset_len(m);
    assert forall|i: int| 0 <= i < old.profiles@.len() implies exists|j: int|
        0 <= j < new.profiles@.len() && (#[trigger] new.profiles@[j]).id@ == (#[trigger] old.profiles@[i]).id@ by {
        assert(profile_migrated(old.profiles@[i], m[i]));
        assert(m.contains(m[i]));
        assert(m.to_multiset().count(m[i]) > 0);
        assert(new.profiles@.contains(m[i]));
        let j = choose|j: int| 0 <= j < new.profiles@.len() && new.profiles@[j] == m[i];
        assert(new.profiles@[j].id@ == old.profiles@[i].id@);
    }
}

/// Migration keeps the account a profile has chosen: when there are no
/// legacy credentials to move and the active account id names one of the
/// profile's accounts, the migrated profile has the same active account id.
pub proof fn lemma_migration_keeps_chosen_account(old: Profile, new: Profile)
    requires
        profile_migrated(old, new),
        !moves_legacy_account(old),
        old.server.active_account_id matches Some(a) && exists|i: int|
            0 <= i < old.server.accounts@.len() && (#[trigger] old.server.accounts@[i]).id@ == a@,
    ensures
        new.server.active_account_id == old.server.active_account_id,
        new.server.accounts == old.server.accounts,
{
}

/// Migration only falls back to the first account when the active account
/// id is missing or names no account of the profile.
pub proof fn lemma_migration_falls_back_to_first_account(old: Profile, new: Profile)
    requires
        profile_migrated(old, new),
        !moves_legacy_account(old),
        old.server.accounts@.len() > 0,
        match old.server.active_account_id {
            Some(a) => forall|i: int|
                0 <= i < old.server.accounts@.len() ==> (#[trigger] old.server.accounts@[i]).id@ != a@,
            None => true,
        },
    ensures
        new.server.active_account_id == Some(old.server.accounts@[0].id),
{
}

/// Loading settings keeps every profile's chosen account: for each profile
/// without legacy credentials to move whose active account id names one of
/// its accounts, the migrated settings hold a profile with the same id,
/// the same accounts and the same active account id.
pub proof fn lemma_settings_migration_keeps_chosen_accounts(old: Settings, new: Settings, i: int)
    requires
        settings_migrated(old, new),
        0 <= i < old.profiles@.len(),
        !moves_legacy_account(old.profiles@[i]),
        old.profiles@[i].server.active_account_id matches Some(a) && exists|k: int|
            0 <= k < old.profiles@[i].server.accounts@.len()
                && (#[trigger] old.profiles@[i].server.accounts@[k]).id@ == a@,
    ensures
        exists|j: int|
            0 <= j < new.profiles@.len() && (#[trigger] new.profiles@[j]).id == old.profiles@[i].id
                && new.profiles@[j].server.accounts == old.profiles@[i].server.accounts
                && new.profiles@[j].server.active_account_id == old.profiles@[i].server.active_account_id,
{
    broadcast use vstd::seq_lib::group_to_multiset_ensures;
    let m = choose|m: Seq<Profile>|
        #[trigger] profiles_migrated(old.profiles@, m) && new.profiles@ == reordered_profiles(
            m,
            old.ui.main_profile_ids,
        );
    match old.ui.main_profile_ids {
        Some(l) => lemma_legacy_order_is_permutation(m, l@),
        None => {},
    }
    assert(new.profiles@.to_multiset() =~= m.to_multiset());
    assert(profile_migrated(old.profiles@[i], m[i]));
    lemma_migration_keeps_chosen_account(old.profiles@[i], m[i]);
    assert(m.contains(m[i]));
    assert(m.to_multiset().count(m[i]) > 0);
    assert(new.profiles@.contains(m[i]));
    let j = choose|j: int| 0 <= j < new.profiles@.len() && new.profiles@[j] == m[i];
    assert(new.profiles@[j].id == old.profiles@[i].id);
}

/// Migration keeps the chosen profile: when the active profile id names a
/// profile, it stays; when it is missing or names none, the first profile
/// becomes active (none when there is no profile).
pub proof fn lemma_migration_keeps_chosen_profile(old: Settings, new: Settings)
    requires
        settings_migrated(old, new),
    ensures
        (old.active_profile_id matches Some(a) && exists|j: int|
            0 <= j < new.profiles@.len() && (#[trigger] new.profiles@[j]).id@ == a@) ==> new.active_profile_id
            == old.active_profile_id,
        (match old.active_profile_id {
            Some(a) => forall|j: int| 0 <= j < new.profiles@.len() ==> (#[trigger] new.profiles@[j]).id@ != a@,
            None => true,
        }) ==> new.active_profile_id == (if new.profiles@.len() > 0 {
            Some(new.profiles@[0].id)
        } else {
            None::<String>
        }),
{
}

/// Legacy credentials of a profile without accounts become its one account,
/// which is active; the legacy fields are emptied. A profile that has
/// accounts keeps them, and its legacy fields, as they are.
pub proof fn lemma_legacy_credentials_become_the_active_account(old: Profile, new: Profile)
    requires
        profile_migrated(old, new),
    ensures
        (old.server.username@.len() > 0 || old.server.password_encrypted@.len() > 0)
            && old.server.accounts@.len() == 0 ==> {
            &&& new.server.accounts@.len() == 1
            &&& new.server.accounts@[0].username@ == old.server.username@
            &&& new.server.accounts@[0].password_encrypted@ == old.server.password_encrypted@
            &&& new.server.active_account_id == Some(new.server.accounts@[0].id)
            &&& new.server.username@.len() == 0 && new.server.password_encrypted@.len() == 0
        },
        old.server.accounts@.len() > 0 ==> new.server.accounts == old.server.accounts
            && new.server.username == old.server.username && new.server.password_encrypted
            == old.server.password_encrypted,
{
}

} // verus!
