//! Broker sessions: the launcher's record of each launched client's named
//! pipe connection, and the checks made on the messages the client sends.
//!
//! The pipe itself, the JSON text and the threads stay with the
//! application; a message reaches this module as a `BrokerMessage`, the
//! fields that the checks read.

use vstd::prelude::*;
use crate::sort::{SortKey, stably_sorted, stable_sort};
use crate::text::{
    lemma_seq_lt_irreflexive, lemma_seq_lt_total, lemma_seq_lt_transitive, nat_digits, push_str,
    push_u64_digits, seq_lt, str_eq, str_lt, trimmed,
};

verus! {

/// Largest message, in bytes, that a client may send.
pub const MAX_MESSAGE_BYTES: usize = 32768;

/// How often the party status is sent to the HUD leader, in milliseconds.
pub const PARTY_STATUS_WRITE_INTERVAL_MS: u64 = 500;

/// Age, in milliseconds, after which a member's status needs attention.
pub const PARTY_STATUS_ATTENTION_AFTER_MS: u64 = 3000;

/// What the launcher needs to control one client's game window.
#[derive(Debug, Clone, Copy, PartialEq, Eq, Structural)]
pub struct BrokerWindowTarget {
    pub pid: u32,
    pub process_creation_time: u64,
    pub hwnd_value: usize,
    pub hwnd_generation: u64,
}

/// A group window action that the HUD leader may request.
#[derive(Debug, Clone, Copy, PartialEq, Eq, Structural)]
pub enum GroupControlAction {
    Minimize,
    RestorePreset,
    GroupRaise,
    CloseSecondary,
}

/// The wire name of a group action.
pub open spec fn action_name(a: GroupControlAction) -> Seq<char> {
    match a {
        GroupControlAction::Minimize => "minimize"@,
        GroupControlAction::RestorePreset => "restore_preset"@,
        GroupControlAction::GroupRaise => "group_raise"@,
        GroupControlAction::CloseSecondary => "close_secondary"@,
    }
}

/// The action with a wire name, if any.
pub open spec fn parse_action(v: Seq<char>) -> Option<GroupControlAction> {
    if v == "minimize"@ {
        Some(GroupControlAction::Minimize)
    } else if v == "restore_preset"@ {
        Some(GroupControlAction::RestorePreset)
    } else if v == "group_raise"@ {
        Some(GroupControlAction::GroupRaise)
    } else if v == "close_secondary"@ {
        Some(GroupControlAction::CloseSecondary)
    } else {
        None
    }
}

impl GroupControlAction {
    pub fn parse(value: &str) -> (r: Option<Self>)
        ensures
            r == parse_action(value@),
    {
        if str_eq(value, "minimize") {
            Some(GroupControlAction::Minimize)
        } else if str_eq(value, "restore_preset") {
            Some(GroupControlAction::RestorePreset)
        } else if str_eq(value, "group_raise") {
            Some(GroupControlAction::GroupRaise)
        } else if str_eq(value, "close_secondary") {
            Some(GroupControlAction::CloseSecondary)
        } else {
            None
        }
    }

    pub fn as_str(self) -> (s: &'static str)
        ensures
            s@ == action_name(self),
    {
        proof {
            reveal_strlit("minimize");
            reveal_strlit("restore_preset");
            reveal_strlit("group_raise");
            reveal_strlit("close_secondary");
        }
        match self {
            GroupControlAction::Minimize => "minimize",
            GroupControlAction::RestorePreset => "restore_preset",
            GroupControlAction::GroupRaise => "group_raise",
            GroupControlAction::CloseSecondary => "close_secondary",
        }
    }
}

/// Parsing a wire name gives back the action it names.
pub proof fn lemma_action_name_round_trip(a: GroupControlAction)
    ensures
        parse_action(action_name(a)) == Some(a),
{
    reveal_strlit("minimize");
    reveal_strlit("restore_preset");
    reveal_strlit("group_raise");
    reveal_strlit("close_secondary");
    assert("minimize"@[0] != "restore_preset"@[0]);
    assert("minimize"@[0] != "group_raise"@[0]);
    assert("minimize"@[0] != "close_secondary"@[0]);
    assert("restore_preset"@[0] != "group_raise"@[0]);
    assert("restore_preset"@[0] != "close_secondary"@[0]);
    assert("group_raise"@[0] != "close_secondary"@[0]);
}

/// A JSON value of a message field, as far as the checks read it.
#[derive(Debug, Clone, PartialEq, Eq)]
pub enum JsonScalar {
    Null,
    Bool(bool),
    /// A non-negative integer that fits `u64`.
    UInt(u64),
    Str(String),
    /// Any other value: a negative or fractional number, an array or an object.
    Other,
}

/// The fields of a client message that the broker reads.
#[derive(Debug, Clone, PartialEq, Eq)]
pub struct BrokerMessage {
    /// `type`, when it is a string.
    pub message_type: Option<String>,
    /// `message_id`, when it is a string.
    pub message_id: Option<String>,
    /// The fields of `payload`, when it is an object.
    pub payload: Option<Vec<(String, JsonScalar)>>,
}

/// The value of the field `key` (the first with that name).
pub open spec fn field(fields: Seq<(String, JsonScalar)>, key: Seq<char>) -> Option<JsonScalar>
    decreases fields.len(),
{
    if fields.len() == 0 {
        None
    } else if fields[0].0@ == key {
        Some(fields[0].1)
    } else {
        field(fields.drop_first(), key)
    }
}

/// Number of bytes of a text in UTF-8.
pub open spec fn utf8_len(s: Seq<char>) -> nat {
    vstd::utf8::encode_utf8(s).len()
}

/// Looks up a payload field.
pub fn get_field<'a>(fields: &'a [(String, JsonScalar)], key: &str) -> (r: Option<&'a JsonScalar>)
    ensures
        match r {
            Some(v) => field(fields@, key@) == Some(*v),
            None => field(fields@, key@) is None,
        },
{
    let mut i: usize = 0;
    assert(fields@.skip(0) =~= fields@);
    while i < fields.len()
        invariant
            i <= fields@.len(),
            field(fields@, key@) == field(fields@.skip(i as int), key@),
        decreases fields@.len() - i,
    {
        assert(fields@.skip(i as int).drop_first() =~= fields@.skip(i as int + 1));
        if str_eq(fields[i].0.as_str(), key) {
            return Some(&fields[i].1);
        }
        i = i + 1;
    }
    None
}

/// A required text field: a non-empty string of at most 512 bytes.
pub open spec fn required_text_ok(fields: Seq<(String, JsonScalar)>, key: Seq<char>) -> Option<Seq<char>> {
    match field(fields, key) {
        Some(JsonScalar::Str(s)) => if s@.len() > 0 && utf8_len(s@) <= 512 {
            Some(s@)
        } else {
            None
        },
        _ => None,
    }
}

pub open spec fn required_text_error(key: Seq<char>) -> Seq<char> {
    "hello field "@ + key + " is missing or invalid"@
}

/// Reads a required text field of a payload.
pub fn required_text<'a>(payload: &'a [(String, JsonScalar)], key: &str) -> (r: Result<&'a str, String>)
    ensures
        match required_text_ok(payload@, key@) {
            Some(v) => r matches Ok(s) && s@ == v,
            None => r matches Err(e) && e@ == required_text_error(key@),
        },
{
    if let Some(JsonScalar::Str(s)) = get_field(payload, key) {
        let t = s.as_str();
        if t.unicode_len() > 0 && t.as_bytes().len() <= 512 {
            return Ok(t);
        }
    }
    let mut e = String::from_str("hello field ");
    push_str(&mut e, key);
    push_str(&mut e, " is missing or invalid");
    proof {
        reveal_strlit("hello field ");
        reveal_strlit(" is missing or invalid");
    }
    Err(e)
}

/// Compares two byte strings in time that depends only on their lengths.
pub fn constant_time_eq(left: &[u8], right: &[u8]) -> (b: bool)
    ensures
        b == (left@ == right@),
{
    if left.len() != right.len() {
        return false;
    }
    let mut difference: u8 = 0;
    let mut i: usize = 0;
    while i < left.len()
        invariant
            left@.len() == right@.len(),
            i <= left@.len(),
            (difference == 0) == (forall|j: int| 0 <= j < i ==> left@[j] == right@[j]),
        decreases left@.len() - i,
    {
        let l = left[i];
        let r = right[i];
        let d = l ^ r;
        assert((d == 0) == (l == r)) by (bit_vector)
            requires
                d == l ^ r,
        ;
        let next = difference | d;
        assert((next == 0) == (difference == 0 && d == 0)) by (bit_vector)
            requires
                next == difference | d,
        ;
        difference = next;
        i = i + 1;
    }
    assert(difference == 0 ==> left@ =~= right@);
    difference == 0
}

/// The lower-case hex text of some bytes, two digits each.
pub open spec fn hex_byte_text(bytes: Seq<u8>) -> Seq<char>
    decreases bytes.len(),
{
    if bytes.len() == 0 {
        Seq::empty()
    } else {
        hex_byte_text(bytes.drop_last()) + seq![
            crate::text::hex_char((bytes.last() / 16) as nat, false),
            crate::text::hex_char((bytes.last() % 16) as nat, false),
        ]
    }
}

/// Renders bytes as lower-case hex, two digits per byte.
pub fn hex_encode(bytes: &[u8]) -> (s: String)
    ensures
        s@ == hex_byte_text(bytes@),
        s@.len() == 2 * bytes@.len(),
{
    let mut s = String::new();
    let mut i: usize = 0;
    while i < bytes.len()
        invariant
            i <= bytes@.len(),
            s@ == hex_byte_text(bytes@.take(i as int)),
            s@.len() == 2 * i,
        decreases bytes@.len() - i,
    {
        let b = bytes[i];
        crate::text::push_hex_char(&mut s, (b / 16) as u64, false);
        crate::text::push_hex_char(&mut s, (b % 16) as u64, false);
        proof {
            let t = bytes@.take(i as int + 1);
            assert(t.drop_last() =~= bytes@.take(i as int));
            assert(t.last() == b);
        }
        i = i + 1;
    }
    assert(bytes@.take(bytes@.len() as int) =~= bytes@);
    s
}


/// The status a client reports while its character is in game.
#[derive(Debug, Clone, PartialEq, Eq)]
pub struct BrokerClientStatus {
    pub character_name: String,
    pub hits: u32,
    pub hits_max: u32,
    pub mana: u32,
    pub mana_max: u32,
    pub stamina: u32,
    pub stamina_max: u32,
    pub weight: u32,
    pub weight_max: u32,
    pub backpack_items: Option<u32>,
    pub backpack_max: u32,
    pub poisoned: bool,
    pub paralyzed: bool,
    pub dead: bool,
}

/// One member of the party status sent to the HUD leader.
#[derive(Debug, Clone, PartialEq, Eq)]
pub struct PartyStatusMember {
    pub account_id: String,
    pub character_name: String,
    pub hits: u32,
    pub hits_max: u32,
    pub mana: u32,
    pub mana_max: u32,
    pub stamina: u32,
    pub stamina_max: u32,
    pub weight: u32,
    pub weight_max: u32,
    pub backpack_items: Option<u32>,
    pub backpack_max: u32,
    pub poisoned: bool,
    pub paralyzed: bool,
    pub dead: bool,
    pub attention: bool,
    /// HUD order; not sent.
    pub order: u8,
}

/// The diagnostic view of one broker session.
#[derive(Debug, Clone, PartialEq, Eq)]
pub struct BrokerSessionDiagnostic {
    pub launch_session_id: String,
    pub profile_id: String,
    pub account_id: String,
    pub expected_pid: Option<u32>,
    pub connected: bool,
    pub window_ready: bool,
    pub managed_tile_active: bool,
    pub hwnd: Option<String>,
    pub hwnd_generation: Option<u64>,
    pub reconnect_count: u64,
    pub pending_apply_layout: bool,
    pub last_error: Option<String>,
}

/// What a launched client gets to find and authenticate to the broker.
#[derive(Debug, Clone, PartialEq, Eq)]
pub struct BrokerBootstrap {
    pub pipe_name: String,
    pub launch_session_id: String,
    pub bootstrap_token: String,
    pub profile_id: String,
    pub account_id: String,
}

/// An authenticated pipe connection: its number and its pipe handle.
#[derive(Debug, Clone, Copy, PartialEq, Eq, Structural)]
pub struct ConnectionIdentity {
    pub id: u64,
    pub handle: usize,
}

/// A group control request accepted from the HUD leader.
#[derive(Debug, Clone, PartialEq, Eq)]
pub struct GroupControlWork {
    pub correlation_id: String,
    pub connection_id: u64,
    pub action: GroupControlAction,
}

/// The result of a group control request, to be sent to the leader.
#[derive(Debug, Clone, PartialEq, Eq)]
pub struct GroupControlReport {
    pub correlation_id: String,
    pub message_id: String,
    pub action: GroupControlAction,
    pub target_count: usize,
    pub succeeded_count: usize,
    pub failed_count: usize,
    pub errors: Vec<String>,
}

/// One window that a group action applies to.
#[derive(Debug)]
pub struct GroupControlTarget {
    pub launch_session_id: String,
    pub account_id: String,
    pub order: u8,
    pub target: Result<BrokerWindowTarget, String>,
}

/// The broker's record of one launched client.
#[derive(Debug, Clone)]
pub struct ExpectedSession {
    pub profile_id: String,
    pub account_id: String,
    pub hud_leader: bool,
    pub hud_order: u8,
    pub managed_z_order: Option<u8>,
    pub bootstrap_token: String,
    pub expected_pid: Option<u32>,
    pub expected_process_creation_time: Option<u64>,
    pub connected: bool,
    pub window_ready: bool,
    pub managed_tile_active: bool,
    pub hwnd: Option<usize>,
    pub hwnd_generation: Option<u64>,
    pub reconnect_count: u64,
    pub connection_id: Option<u64>,
    pub pipe_handle: Option<usize>,
    pub pending_apply_layout: bool,
    pub pending_group_control_result: Option<GroupControlReport>,
    pub group_control_in_flight: bool,
    pub latest_status: Option<BrokerClientStatus>,
    /// When the latest status arrived, in milliseconds of the broker's clock.
    pub last_status_received_at_ms: Option<u64>,
    pub last_error: Option<String>,
}

/// A session under its launch session id.
#[derive(Debug, Clone)]
pub struct BrokerEntry {
    pub launch_session_id: String,
    pub session: ExpectedSession,
}

/// All broker sessions, and the number the next connection gets.
#[derive(Debug, Clone)]
pub struct BrokerSessions {
    pub entries: Vec<BrokerEntry>,
    pub next_connection_id: u64,
}

/// A session exactly as `prepare_session` creates it.
pub open spec fn is_fresh_session(
    s: ExpectedSession,
    profile: Seq<char>,
    account: Seq<char>,
    hud_leader: bool,
    hud_order: u8,
    managed_z_order: Option<u8>,
    token: Seq<char>,
) -> bool {
    &&& s.profile_id@ == profile
    &&& s.account_id@ == account
    &&& s.hud_leader == hud_leader
    &&& s.hud_order == hud_order
    &&& s.managed_z_order == managed_z_order
    &&& s.bootstrap_token@ == token
    &&& s.expected_pid is None
    &&& s.expected_process_creation_time is None
    &&& !s.connected
    &&& !s.window_ready
    &&& !s.managed_tile_active
    &&& s.hwnd is None
    &&& s.hwnd_generation is None
    &&& s.reconnect_count == 0
    &&& s.connection_id is None
    &&& s.pipe_handle is None
    &&& !s.pending_apply_layout
    &&& s.pending_group_control_result is None
    &&& !s.group_control_in_flight
    &&& s.latest_status is None
    &&& s.last_status_received_at_ms is None
    &&& s.last_error is None
}

/// Whether an entry survives preparing a session for a profile/account
/// pair under a new id: entries of other pairs and other ids stay.
pub open spec fn kept_on_prepare(e: BrokerEntry, profile: Seq<char>, account: Seq<char>, id: Seq<char>) -> bool {
    !(e.session.profile_id@ == profile && e.session.account_id@ == account) && e.launch_session_id@ != id
}

/// `i` is the first index whose entry satisfies `p`, or there is none.
pub open spec fn first_index(es: Seq<BrokerEntry>, p: spec_fn(BrokerEntry) -> bool, r: Option<usize>) -> bool {
    match r {
        Some(i) => i < es.len() && p(es[i as int]) && forall|j: int| 0 <= j < i ==> !p(#[trigger] es[j]),
        None => forall|j: int| 0 <= j < es.len() ==> !p(#[trigger] es[j]),
    }
}

/// The index of the first entry that satisfies `p`.
pub open spec fn find_first(es: Seq<BrokerEntry>, p: spec_fn(BrokerEntry) -> bool) -> Option<int>
    decreases es.len(),
{
    if es.len() == 0 {
        None
    } else {
        match find_first(es.drop_last(), p) {
            Some(i) => Some(i),
            None => if p(es.last()) {
                Some(es.len() - 1)
            } else {
                None
            },
        }
    }
}

/// An executable index agrees with `find_first`.
pub open spec fn found_at(es: Seq<BrokerEntry>, p: spec_fn(BrokerEntry) -> bool, r: Option<usize>) -> bool {
    match r {
        Some(i) => find_first(es, p) == Some(i as int) && i < es.len(),
        None => find_first(es, p) is None,
    }
}

proof fn lemma_find_first_spec(es: Seq<BrokerEntry>, p: spec_fn(BrokerEntry) -> bool)
    ensures
        match find_first(es, p) {
            Some(i) => 0 <= i < es.len() && p(es[i]) && forall|j: int| 0 <= j < i ==> !p(#[trigger] es[j]),
            None => forall|j: int| 0 <= j < es.len() ==> !p(#[trigger] es[j]),
        },
    decreases es.len(),
{
    if es.len() > 0 {
        lemma_find_first_spec(es.drop_last(), p);
        assert forall|j: int| 0 <= j < es.len() - 1 implies es.drop_last()[j] == es[j] by {}
    }
}

proof fn lemma_first_index_found(es: Seq<BrokerEntry>, p: spec_fn(BrokerEntry) -> bool, r: Option<usize>)
    requires
        first_index(es, p, r),
    ensures
        found_at(es, p, r),
{
    lemma_find_first_spec(es, p);
    match (find_first(es, p), r) {
        (Some(a), Some(b)) => {
            if a < b {
                assert(!p(es[a]));
            } else if b < a {
                assert(p(es[b as int]));
            }
        },
        (Some(a), None) => {
            assert(p(es[a]));
        },
        (None, Some(b)) => {
            assert(!p(es[b as int]));
        },
        (None, None) => {},
    }
}

pub open spec fn has_id(id: Seq<char>) -> spec_fn(BrokerEntry) -> bool {
    |e: BrokerEntry| e.launch_session_id@ == id
}

/// A connected session of the pair; with `ready`, one whose window is ready too.
pub open spec fn connected_pair(profile: Seq<char>, account: Seq<char>, ready: bool) -> spec_fn(
    BrokerEntry,
) -> bool {
    |e: BrokerEntry|
        e.session.profile_id@ == profile && e.session.account_id@ == account && e.session.connected
            && (ready ==> e.session.window_ready)
}

/// The message of a connection that is no longer the session's current one.
pub open spec fn stale_connection_text() -> Seq<char> {
    "message belongs to a stale broker connection"@
}

/// A message may act on a session only through its current connection.
pub open spec fn is_current_connection(s: ExpectedSession, caller: ConnectionIdentity) -> bool {
    s.connected && s.connection_id == Some(caller.id) && s.pipe_handle == Some(caller.handle)
}

/// Accepts a message only from the session's current connection.
pub fn require_connection(session: &ExpectedSession, caller: ConnectionIdentity) -> (r: Result<(), String>)
    ensures
        r is Ok <==> is_current_connection(*session, caller),
        r matches Err(e) ==> e@ == stale_connection_text(),
{
    let id_matches = match session.connection_id {
        Some(id) => id == caller.id,
        None => false,
    };
    let handle_matches = match session.pipe_handle {
        Some(h) => h == caller.handle,
        None => false,
    };
    if session.connected && id_matches && handle_matches {
        Ok(())
    } else {
        proof {
            reveal_strlit("message belongs to a stale broker connection");
        }
        Err(String::from_str("message belongs to a stale broker connection"))
    }
}

impl BrokerSessions {
    pub fn new() -> (r: Self)
        ensures
            r.entries@.len() == 0,
            r.next_connection_id == 1,
    {
        BrokerSessions { entries: Vec::new(), next_connection_id: 1 }
    }

    /// The index of the session with a launch session id.
    pub fn find_id(&self, launch_session_id: &str) -> (r: Option<usize>)
        ensures
            found_at(self.entries@, has_id(launch_session_id@), r),
    {
        let mut i: usize = 0;
        while i < self.entries.len()
            invariant
                i <= self.entries@.len(),
                forall|j: int| 0 <= j < i ==> !has_id(launch_session_id@)(#[trigger] self.entries@[j]),
            decreases self.entries@.len() - i,
        {
            if str_eq(self.entries[i].launch_session_id.as_str(), launch_session_id) {
                proof {
                    lemma_first_index_found(self.entries@, has_id(launch_session_id@), Some(i));
                }
                return Some(i);
            }
            i = i + 1;
        }
        proof {
            lemma_first_index_found(self.entries@, has_id(launch_session_id@), None);
        }
        None
    }

    /// The index of the first connected session of a pair (with a ready
    /// window, if `ready`).
    pub fn find_connected(&self, profile_id: &str, account_id: &str, ready: bool) -> (r: Option<usize>)
        ensures
            found_at(self.entries@, connected_pair(profile_id@, account_id@, ready), r),
    {
        let mut i: usize = 0;
        while i < self.entries.len()
            invariant
                i <= self.entries@.len(),
                forall|j: int|
                    0 <= j < i ==> !connected_pair(profile_id@, account_id@, ready)(
                        #[trigger] self.entries@[j],
                    ),
            decreases self.entries@.len() - i,
        {
            let s = &self.entries[i].session;
            if str_eq(s.profile_id.as_str(), profile_id) && str_eq(s.account_id.as_str(), account_id)
                && s.connected && (!ready || s.window_ready) {
                proof {
                    lemma_first_index_found(
                        self.entries@,
                        connected_pair(profile_id@, account_id@, ready),
                        Some(i),
                    );
                }
                return Some(i);
            }
            i = i + 1;
        }
        proof {
            lemma_first_index_found(self.entries@, connected_pair(profile_id@, account_id@, ready), None);
        }
        None
    }

    /// Registers the session of a client about to be launched, replacing any
    /// earlier session of the same profile/account pair. The launch session
    /// id and the bootstrap token are the hex text of the random bytes given.
    pub fn prepare_session(
        &mut self,
        pipe_name: &str,
        profile_id: &str,
        account_id: &str,
        hud_leader: bool,
        hud_order: u8,
        managed_z_order: Option<u8>,
        launch_session_bytes: &[u8],
        token_bytes: &[u8],
    ) -> (b: BrokerBootstrap)
        ensures
            b.pipe_name@ == pipe_name@,
            b.launch_session_id@ == hex_byte_text(launch_session_bytes@),
            b.bootstrap_token@ == hex_byte_text(token_bytes@),
            b.profile_id@ == profile_id@,
            b.account_id@ == account_id@,
            final(self).next_connection_id == old(self).next_connection_id,
            final(self).entries@.len() > 0,
            final(self).entries@.drop_last() == old(self).entries@.filter(
                |e: BrokerEntry| kept_on_prepare(e, profile_id@, account_id@, b.launch_session_id@),
            ),
            final(self).entries@.last().launch_session_id@ == b.launch_session_id@,
            is_fresh_session(
                final(self).entries@.last().session,
                profile_id@,
                account_id@,
                hud_leader,
                hud_order,
                managed_z_order,
                b.bootstrap_token@,
            ),
    {
        let launch_session_id = hex_encode(launch_session_bytes);
        let bootstrap_token = hex_encode(token_bytes);
        let ghost id = launch_session_id@;
        let ghost keep = |e: BrokerEntry| kept_on_prepare(e, profile_id@, account_id@, id);
        let ghost orig = self.entries@;
        let mut rest: Vec<BrokerEntry> = Vec::new();
        std::mem::swap(&mut rest, &mut self.entries);
        let mut kept: Vec<BrokerEntry> = Vec::new();
        let ghost mut k: int = 0;
        assert(orig.take(0).filter(keep) =~= Seq::<BrokerEntry>::empty()) by {
            reveal(Seq::filter);
        }
        assert(orig.skip(0) =~= orig);
        while rest.len() > 0
            invariant
                0 <= k <= orig.len(),
                rest@ == orig.skip(k),
                kept@ == orig.take(k).filter(keep),
                id == launch_session_id@,
                forall|e: BrokerEntry| #[trigger] keep(e) == kept_on_prepare(e, profile_id@, account_id@, id),
            decreases rest@.len(),
        {
            proof {
                crate::settings::lemma_filter_take_step(orig, k, keep);
            }
            let e = rest.remove(0);
            assert(e == orig[k]);
            let same_pair = str_eq(e.session.profile_id.as_str(), profile_id) && str_eq(
                e.session.account_id.as_str(),
                account_id,
            );
            let same_id = str_eq(e.launch_session_id.as_str(), launch_session_id.as_str());
            if !same_pair && !same_id {
                kept.push(e);
            }
            proof {
                k = k + 1;
                assert(rest@ =~= orig.skip(k));
            }
        }
        assert(orig.take(k) =~= orig);
        let session = ExpectedSession {
            profile_id: String::from_str(profile_id),
            account_id: String::from_str(account_id),
            hud_leader,
            hud_order,
            managed_z_order,
            bootstrap_token: bootstrap_token.clone(),
            expected_pid: None,
            expected_process_creation_time: None,
            connected: false,
            window_ready: false,
            managed_tile_active: false,
            hwnd: None,
            hwnd_generation: None,
            reconnect_count: 0,
            connection_id: None,
            pipe_handle: None,
            pending_apply_layout: false,
            pending_group_control_result: None,
            group_control_in_flight: false,
            latest_status: None,
            last_status_received_at_ms: None,
            last_error: None,
        };
        kept.push(BrokerEntry { launch_session_id: launch_session_id.clone(), session });
        self.entries = kept;
        assert(self.entries@.drop_last() =~= orig.filter(keep));
        assert(keep =~= (|e: BrokerEntry| kept_on_prepare(e, profile_id@, account_id@, id)));
        BrokerBootstrap {
            pipe_name: String::from_str(pipe_name),
            launch_session_id,
            bootstrap_token,
            profile_id: String::from_str(profile_id),
            account_id: String::from_str(account_id),
        }
    }
}


/// A session with its expected process identity set.
pub open spec fn bound_entry(e: BrokerEntry, pid: u32, creation: Option<u64>) -> BrokerEntry {
    BrokerEntry {
        session: ExpectedSession {
            expected_pid: Some(pid),
            expected_process_creation_time: creation,
            ..e.session
        },
        ..e
    }
}

/// A session with a layout command queued.
pub open spec fn layout_queued(e: BrokerEntry) -> BrokerEntry {
    BrokerEntry { session: ExpectedSession { pending_apply_layout: true, ..e.session }, ..e }
}

pub open spec fn not_ready_text(account: Seq<char>) -> Seq<char> {
    account + ": CE broker connection is not ready"@
}

/// The target of a ready session, or the first piece of identity it lacks.
pub open spec fn target_of(account: Seq<char>, s: ExpectedSession) -> Result<BrokerWindowTarget, Seq<char>> {
    if !s.managed_tile_active {
        Err(account + ": unmanaged for this launcher run"@)
    } else if s.expected_pid is None {
        Err(account + ": expected PID is missing"@)
    } else if s.expected_process_creation_time is None {
        Err(account + ": process creation identity is missing"@)
    } else if s.hwnd is None {
        Err(account + ": HWND is missing"@)
    } else if s.hwnd_generation is None {
        Err(account + ": HWND generation is missing"@)
    } else {
        Ok(
            BrokerWindowTarget {
                pid: s.expected_pid->Some_0,
                process_creation_time: s.expected_process_creation_time->Some_0,
                hwnd_value: s.hwnd->Some_0,
                hwnd_generation: s.hwnd_generation->Some_0,
            },
        )
    }
}

fn prefixed(account: &str, suffix: &str) -> (s: String)
    ensures
        s@ == account@ + suffix@,
{
    let mut s = String::from_str(account);
    push_str(&mut s, suffix);
    s
}

impl BrokerSessions {
    /// Records the process launched for a prepared session.
    pub fn bind_process(&mut self, launch_session_id: &str, pid: u32, process_creation_time: Option<u64>) -> (r:
        Result<(), String>)
        ensures
            final(self).next_connection_id == old(self).next_connection_id,
            match find_first(old(self).entries@, has_id(launch_session_id@)) {
                Some(i) => r is Ok && final(self).entries@ == old(self).entries@.update(
                    i,
                    bound_entry(old(self).entries@[i], pid, process_creation_time),
                ),
                None => (r matches Err(e) && e@ == "broker launch session was not prepared"@)
                    && final(self).entries@ == old(self).entries@,
            },
    {
        match self.find_id(launch_session_id) {
            None => {
                proof {
                    reveal_strlit("broker launch session was not prepared");
                }
                Err(String::from_str("broker launch session was not prepared"))
            },
            Some(i) => {
                let ghost before = self.entries@;
                let mut e = self.entries.remove(i);
                e.session.expected_pid = Some(pid);
                e.session.expected_process_creation_time = process_creation_time;
                self.entries.insert(i, e);
                assert(self.entries@ =~= before.update(
                    i as int,
                    bound_entry(before[i as int], pid, process_creation_time),
                ));
                Ok(())
            },
        }
    }

    /// Forgets a session whose launch did not happen.
    pub fn cancel_session(&mut self, launch_session_id: &str)
        ensures
            final(self).next_connection_id == old(self).next_connection_id,
            match find_first(old(self).entries@, has_id(launch_session_id@)) {
                Some(i) => final(self).entries@ == old(self).entries@.remove(i),
                None => final(self).entries@ == old(self).entries@,
            },
    {
        if let Some(i) = self.find_id(launch_session_id) {
            self.entries.remove(i);
        }
    }

    /// Queues an apply-layout command for the connected session of an
    /// account; the connection's own thread sends it.
    pub fn request_apply_layout(&mut self, profile_id: &str, account_id: &str) -> (r: Result<(), String>)
        ensures
            final(self).next_connection_id == old(self).next_connection_id,
            match find_first(old(self).entries@, connected_pair(profile_id@, account_id@, false)) {
                Some(i) => r is Ok && final(self).entries@ == old(self).entries@.update(
                    i,
                    layout_queued(old(self).entries@[i]),
                ),
                None => (r matches Err(e) && e@ == not_ready_text(account_id@)) && final(self).entries@
                    == old(self).entries@,
            },
    {
        match self.find_connected(profile_id, account_id, false) {
            None => {
                proof {
                    reveal_strlit(": CE broker connection is not ready");
                }
                Err(prefixed(account_id, ": CE broker connection is not ready"))
            },
            Some(i) => {
                let ghost before = self.entries@;
                let mut e = self.entries.remove(i);
                e.session.pending_apply_layout = true;
                self.entries.insert(i, e);
                assert(self.entries@ =~= before.update(i as int, layout_queued(before[i as int])));
                Ok(())
            },
        }
    }

    /// The window of an account's connected, ready session, for window control.
    pub fn window_target(&self, profile_id: &str, account_id: &str) -> (r: Result<BrokerWindowTarget, String>)
        ensures
            match find_first(self.entries@, connected_pair(profile_id@, account_id@, true)) {
                Some(i) => match target_of(account_id@, self.entries@[i].session) {
                    Ok(t) => r == Ok::<BrokerWindowTarget, String>(t),
                    Err(m) => r matches Err(e) && e@ == m,
                },
                None => r matches Err(e) && e@ == account_id@ + ": window_ready is pending"@,
            },
    {
        proof {
            reveal_strlit(": window_ready is pending");
            reveal_strlit(": unmanaged for this launcher run");
            reveal_strlit(": expected PID is missing");
            reveal_strlit(": process creation identity is missing");
            reveal_strlit(": HWND is missing");
            reveal_strlit(": HWND generation is missing");
        }
        let i = match self.find_connected(profile_id, account_id, true) {
            None => {
                return Err(prefixed(account_id, ": window_ready is pending"));
            },
            Some(i) => i,
        };
        let s = &self.entries[i].session;
        if !s.managed_tile_active {
            return Err(prefixed(account_id, ": unmanaged for this launcher run"));
        }
        let pid = match s.expected_pid {
            Some(p) => p,
            None => {
                return Err(prefixed(account_id, ": expected PID is missing"));
            },
        };
        let creation = match s.expected_process_creation_time {
            Some(c) => c,
            None => {
                return Err(prefixed(account_id, ": process creation identity is missing"));
            },
        };
        let hwnd = match s.hwnd {
            Some(h) => h,
            None => {
                return Err(prefixed(account_id, ": HWND is missing"));
            },
        };
        let generation = match s.hwnd_generation {
            Some(g) => g,
            None => {
                return Err(prefixed(account_id, ": HWND generation is missing"));
            },
        };
        Ok(BrokerWindowTarget { pid, process_creation_time: creation, hwnd_value: hwnd, hwnd_generation: generation })
    }

    /// The pipe handle of an account's connected session, for a test that
    /// severs the connection.
    pub fn connected_pipe_handle(&self, profile_id: &str, account_id: &str) -> (r: Result<usize, String>)
        ensures
            match find_first(self.entries@, connected_pair(profile_id@, account_id@, false)) {
                Some(i) => match self.entries@[i].session.pipe_handle {
                    Some(h) => r == Ok::<usize, String>(h),
                    None => r matches Err(e) && e@ == account_id@ + ": connected broker session not found"@,
                },
                None => r matches Err(e) && e@ == account_id@ + ": connected broker session not found"@,
            },
    {
        proof {
            reveal_strlit(": connected broker session not found");
        }
        match self.find_connected(profile_id, account_id, false) {
            Some(i) => match self.entries[i].session.pipe_handle {
                Some(h) => Ok(h),
                None => Err(prefixed(account_id, ": connected broker session not found")),
            },
            None => Err(prefixed(account_id, ": connected broker session not found")),
        }
    }
}


/// `{:?}` of an optional pid.
pub open spec fn debug_option_text(v: Option<u32>) -> Seq<char> {
    match v {
        Some(x) => "Some("@ + nat_digits(x as nat) + ")"@,
        None => "None"@,
    }
}

/// The outcome of the hello message that opens a connection: the launch
/// session it authenticates, or why it is refused.
pub open spec fn hello_outcome(
    es: Seq<BrokerEntry>,
    client_pid: u32,
    m: BrokerMessage,
    observed_creation: Result<u64, String>,
) -> Result<Seq<char>, Seq<char>> {
    if !(m.message_type matches Some(t) && t@ == "hello"@) {
        Err("first broker message must be hello"@)
    } else if m.payload is None {
        Err("hello payload is missing"@)
    } else {
        let p = m.payload->Some_0@;
        if required_text_ok(p, "launch_session_id"@) is None {
            Err(required_text_error("launch_session_id"@))
        } else if required_text_ok(p, "profile_id"@) is None {
            Err(required_text_error("profile_id"@))
        } else if required_text_ok(p, "account_id"@) is None {
            Err(required_text_error("account_id"@))
        } else if required_text_ok(p, "bootstrap_token"@) is None {
            Err(required_text_error("bootstrap_token"@))
        } else {
            let id = required_text_ok(p, "launch_session_id"@)->Some_0;
            match find_first(es, has_id(id)) {
                None => Err("unknown launch_session_id"@),
                Some(i) => {
                    let s = es[i].session;
                    if s.profile_id@ != required_text_ok(p, "profile_id"@)->Some_0 || s.account_id@
                        != required_text_ok(p, "account_id"@)->Some_0 {
                        Err("profile/account identity mismatch"@)
                    } else if s.bootstrap_token@ != required_text_ok(p, "bootstrap_token"@)->Some_0 {
                        Err("bootstrap token mismatch"@)
                    } else if s.expected_pid != Some(client_pid) {
                        Err(
                            "pipe client PID mismatch: expected "@ + debug_option_text(s.expected_pid)
                                + ", observed "@ + nat_digits(client_pid as nat),
                        )
                    } else {
                        match s.expected_process_creation_time {
                            None => Ok(id),
                            Some(c) => match observed_creation {
                                Err(e) => Err(e@),
                                Ok(o) => if o != c {
                                    Err("pipe client process creation time mismatch"@)
                                } else {
                                    Ok(id)
                                },
                            },
                        }
                    }
                },
            }
        }
    }
}

fn error_text(text: &str) -> (r: Result<String, String>)
    ensures
        r matches Err(e) && e@ == text@,
{
    Err(String::from_str(text))
}

/// A session after its client authenticated on a new connection.
pub open spec fn authenticated_entry(e: BrokerEntry, id: u64, handle: usize) -> BrokerEntry {
    BrokerEntry {
        session: ExpectedSession {
            connected: true,
            window_ready: false,
            managed_tile_active: false,
            reconnect_count: if e.session.reconnect_count == u64::MAX {
                0
            } else {
                (e.session.reconnect_count + 1) as u64
            },
            connection_id: Some(id),
            pipe_handle: Some(handle),
            pending_group_control_result: None,
            last_error: None,
            ..e.session
        },
        ..e
    }
}

/// A session after its current connection ended.
pub open spec fn disconnected_entry(e: BrokerEntry) -> BrokerEntry {
    BrokerEntry {
        session: ExpectedSession {
            connected: false,
            window_ready: false,
            managed_tile_active: false,
            pipe_handle: None,
            latest_status: None,
            last_status_received_at_ms: None,
            pending_group_control_result: None,
            ..e.session
        },
        ..e
    }
}

/// The diagnostic of a session.
pub open spec fn diagnostic_describes(d: BrokerSessionDiagnostic, e: BrokerEntry) -> bool {
    &&& d.launch_session_id@ == e.launch_session_id@
    &&& d.profile_id@ == e.session.profile_id@
    &&& d.account_id@ == e.session.account_id@
    &&& d.expected_pid == e.session.expected_pid
    &&& d.connected == e.session.connected
    &&& d.window_ready == e.session.window_ready
    &&& d.managed_tile_active == e.session.managed_tile_active
    &&& crate::session::optional_text(d.hwnd) == match e.session.hwnd {
        Some(h) => Some(crate::windows::hwnd_text(h as nat)),
        None => None,
    }
    &&& d.hwnd_generation == e.session.hwnd_generation
    &&& d.reconnect_count == e.session.reconnect_count
    &&& d.pending_apply_layout == e.session.pending_apply_layout
    &&& crate::session::optional_text(d.last_error) == crate::session::optional_text(e.session.last_error)
}

impl SortKey for BrokerSessionDiagnostic {
    open spec fn sorts_before(self, other: Self) -> bool {
        seq_lt(self.launch_session_id@, other.launch_session_id@)
    }

    fn before(&self, other: &Self) -> (b: bool) {
        str_lt(self.launch_session_id.as_str(), other.launch_session_id.as_str())
    }

    proof fn lemma_strict_weak_order(a: Self, b: Self, c: Self) {
        lemma_seq_lt_irreflexive(a.launch_session_id@, b.launch_session_id@);
        lemma_seq_lt_irreflexive(b.launch_session_id@, c.launch_session_id@);
        lemma_seq_lt_irreflexive(a.launch_session_id@, c.launch_session_id@);
        lemma_seq_lt_transitive(a.launch_session_id@, b.launch_session_id@, c.launch_session_id@);
        lemma_seq_lt_total(a.launch_session_id@, b.launch_session_id@);
        lemma_seq_lt_total(b.launch_session_id@, c.launch_session_id@);
        lemma_seq_lt_total(a.launch_session_id@, c.launch_session_id@);
    }
}

fn copy_optional_text(v: &Option<String>) -> (r: Option<String>)
    ensures
        crate::session::optional_text(r) == crate::session::optional_text(*v),
{
    match v {
        Some(s) => Some(s.clone()),
        None => None,
    }
}

impl BrokerSessions {
    /// Checks the hello message that opens a connection against the prepared
    /// sessions; `observed_creation` is the creation time read from the pipe
    /// client's process (used only when the session expects one).
    pub fn validate_hello(
        &self,
        client_pid: u32,
        message: &BrokerMessage,
        observed_creation: Result<u64, String>,
    ) -> (r: Result<String, String>)
        ensures
            match hello_outcome(self.entries@, client_pid, *message, observed_creation) {
                Ok(id) => r matches Ok(s) && s@ == id,
                Err(m) => r matches Err(e) && e@ == m,
            },
    {
        proof {
            reveal_strlit("hello");
            reveal_strlit("launch_session_id");
            reveal_strlit("profile_id");
            reveal_strlit("account_id");
            reveal_strlit("bootstrap_token");
        }
        let is_hello = match &message.message_type {
            Some(t) => str_eq(t.as_str(), "hello"),
            None => false,
        };
        if !is_hello {
            return error_text("first broker message must be hello");
        }
        let payload = match &message.payload {
            Some(p) => p,
            None => {
                return error_text("hello payload is missing");
            },
        };
        let launch_session_id = required_text(payload.as_slice(), "launch_session_id")?;
        let profile_id = required_text(payload.as_slice(), "profile_id")?;
        let account_id = required_text(payload.as_slice(), "account_id")?;
        let token = required_text(payload.as_slice(), "bootstrap_token")?;
        let i = match self.find_id(launch_session_id) {
            Some(i) => i,
            None => {
                return error_text("unknown launch_session_id");
            },
        };
        let session = &self.entries[i].session;
        if !str_eq(session.profile_id.as_str(), profile_id) || !str_eq(
            session.account_id.as_str(),
            account_id,
        ) {
            return error_text("profile/account identity mismatch");
        }
        let same_token = constant_time_eq(session.bootstrap_token.as_str().as_bytes(), token.as_bytes());
        proof {
            vstd::utf8::encode_utf8_decode_utf8(session.bootstrap_token@);
            vstd::utf8::encode_utf8_decode_utf8(token@);
        }
        if !same_token {
            return error_text("bootstrap token mismatch");
        }
        let pid_matches = match session.expected_pid {
            Some(p) => p == client_pid,
            None => false,
        };
        if !pid_matches {
            let mut msg = String::from_str("pipe client PID mismatch: expected ");
            match session.expected_pid {
                Some(p) => {
                    push_str(&mut msg, "Some(");
                    push_u64_digits(&mut msg, p as u64);
                    push_str(&mut msg, ")");
                },
                None => {
                    push_str(&mut msg, "None");
                },
            }
            push_str(&mut msg, ", observed ");
            push_u64_digits(&mut msg, client_pid as u64);
            proof {
                reveal_strlit("pipe client PID mismatch: expected ");
                reveal_strlit("Some(");
                reveal_strlit(")");
                reveal_strlit("None");
                reveal_strlit(", observed ");
            }
            assert(msg@ =~= "pipe client PID mismatch: expected "@ + debug_option_text(
                session.expected_pid,
            ) + ", observed "@ + nat_digits(client_pid as nat));
            return Err(msg);
        }
        if let Some(expected) = session.expected_process_creation_time {
            match observed_creation {
                Err(e) => {
                    return Err(e);
                },
                Ok(observed) => {
                    if observed != expected {
                        return error_text("pipe client process creation time mismatch");
                    }
                },
            }
        }
        Ok(String::from_str(launch_session_id))
    }

    /// Marks a validated session as connected on a new connection, which gets
    /// the next connection number.
    pub fn authenticate(&mut self, launch_session_id: &str, handle: usize) -> (r: Result<ConnectionIdentity, String>)
        ensures
            final(self).next_connection_id == (old(self).next_connection_id + 1) % 0x1_0000_0000_0000_0000,
            match find_first(old(self).entries@, has_id(launch_session_id@)) {
                Some(i) => r == Ok::<ConnectionIdentity, String>(
                    ConnectionIdentity { id: old(self).next_connection_id, handle },
                ) && final(self).entries@ == old(self).entries@.update(
                    i,
                    authenticated_entry(old(self).entries@[i], old(self).next_connection_id, handle),
                ),
                None => (r matches Err(e) && e@ == "launch session disappeared"@) && final(self).entries@
                    == old(self).entries@,
            },
    {
        let connection_id = self.next_connection_id;
        self.next_connection_id = self.next_connection_id.wrapping_add(1);
        match self.find_id(launch_session_id) {
            None => {
                proof {
                    reveal_strlit("launch session disappeared");
                }
                Err(String::from_str("launch session disappeared"))
            },
            Some(i) => {
                let ghost before = self.entries@;
                let mut e = self.entries.remove(i);
                e.session.connected = true;
                e.session.window_ready = false;
                e.session.managed_tile_active = false;
                e.session.reconnect_count = if e.session.reconnect_count == u64::MAX {
                    0
                } else {
                    e.session.reconnect_count + 1
                };
                e.session.connection_id = Some(connection_id);
                e.session.pipe_handle = Some(handle);
                e.session.pending_group_control_result = None;
                e.session.last_error = None;
                self.entries.insert(i, e);
                assert(self.entries@ =~= before.update(
                    i as int,
                    authenticated_entry(before[i as int], connection_id, handle),
                ));
                Ok(ConnectionIdentity { id: connection_id, handle })
            },
        }
    }

    /// Records an error on a session, if the caller is its current connection.
    pub fn set_session_error(&mut self, launch_session_id: &str, caller: ConnectionIdentity, error: String)
        ensures
            final(self).next_connection_id == old(self).next_connection_id,
            match find_first(old(self).entries@, has_id(launch_session_id@)) {
                Some(i) => if is_current_connection(old(self).entries@[i].session, caller) {
                    final(self).entries@ == old(self).entries@.update(
                        i,
                        BrokerEntry {
                            session: ExpectedSession { last_error: Some(error), ..old(self).entries@[i].session },
                            ..old(self).entries@[i]
                        },
                    )
                } else {
                    final(self).entries@ == old(self).entries@
                },
                None => final(self).entries@ == old(self).entries@,
            },
    {
        if let Some(i) = self.find_id(launch_session_id) {
            if require_connection(&self.entries[i].session, caller).is_ok() {
                let ghost before = self.entries@;
                let mut e = self.entries.remove(i);
                e.session.last_error = Some(error);
                self.entries.insert(i, e);
                assert(self.entries@ =~= before.update(
                    i as int,
                    BrokerEntry {
                        session: ExpectedSession { last_error: Some(error), ..before[i as int].session },
                        ..before[i as int]
                    },
                ));
            }
        }
    }

    /// Ends a connection: the session stays, disconnected, for a reconnect.
    pub fn close_connection(&mut self, launch_session_id: &str, caller: ConnectionIdentity)
        ensures
            final(self).next_connection_id == old(self).next_connection_id,
            match find_first(old(self).entries@, has_id(launch_session_id@)) {
                Some(i) => if is_current_connection(old(self).entries@[i].session, caller) {
                    final(self).entries@ == old(self).entries@.update(i, disconnected_entry(old(self).entries@[i]))
                } else {
                    final(self).entries@ == old(self).entries@
                },
                None => final(self).entries@ == old(self).entries@,
            },
    {
        if let Some(i) = self.find_id(launch_session_id) {
            if require_connection(&self.entries[i].session, caller).is_ok() {
                let ghost before = self.entries@;
                let mut e = self.entries.remove(i);
                e.session.connected = false;
                e.session.window_ready = false;
                e.session.managed_tile_active = false;
                e.session.pipe_handle = None;
                e.session.latest_status = None;
                e.session.last_status_received_at_ms = None;
                e.session.pending_group_control_result = None;
                self.entries.insert(i, e);
                assert(self.entries@ =~= before.update(i as int, disconnected_entry(before[i as int])));
            }
        }
    }

    /// The diagnostics of all sessions, ordered by launch session id.
    pub fn diagnostics(&self) -> (r: Vec<BrokerSessionDiagnostic>)
        ensures
            exists|unsorted: Seq<BrokerSessionDiagnostic>|
                unsorted.len() == self.entries@.len() && (forall|i: int|
                    0 <= i < unsorted.len() ==> diagnostic_describes(
                        #[trigger] unsorted[i],
                        self.entries@[i],
                    )) && stably_sorted(unsorted, r@),
    {
        let mut out: Vec<BrokerSessionDiagnostic> = Vec::new();
        let mut i: usize = 0;
        while i < self.entries.len()
            invariant
                i <= self.entries@.len(),
                out@.len() == i,
                forall|j: int| 0 <= j < i ==> diagnostic_describes(#[trigger] out@[j], self.entries@[j]),
            decreases self.entries@.len() - i,
        {
            let e = &self.entries[i];
            let hwnd = match e.session.hwnd {
                Some(h) => Some(crate::windows::hwnd_hex(h)),
                None => None,
            };
            out.push(
                BrokerSessionDiagnostic {
                    launch_session_id: e.launch_session_id.clone(),
                    profile_id: e.session.profile_id.clone(),
                    account_id: e.session.account_id.clone(),
                    expected_pid: e.session.expected_pid,
                    connected: e.session.connected,
                    window_ready: e.session.window_ready,
                    managed_tile_active: e.session.managed_tile_active,
                    hwnd,
                    hwnd_generation: e.session.hwnd_generation,
                    reconnect_count: e.session.reconnect_count,
                    pending_apply_layout: e.session.pending_apply_layout,
                    last_error: copy_optional_text(&e.session.last_error),
                },
            );
            i = i + 1;
        }
        let ghost unsorted = out@;
        let r = stable_sort(out);
        assert(unsorted.len() == self.entries@.len() && (forall|i: int|
            0 <= i < unsorted.len() ==> diagnostic_describes(#[trigger] unsorted[i], self.entries@[i]))
            && stably_sorted(unsorted, r@));
        r
    }
}


/// The value of a decimal digit character.
pub open spec fn digit_value(c: char) -> int {
    (c as int) - 48
}

pub open spec fn is_digit(c: char) -> bool {
    '0' <= c <= '9'
}

/// The number written by a string of decimal digits.
pub open spec fn digits_value(s: Seq<char>) -> nat
    decreases s.len(),
{
    if s.len() == 0 {
        0
    } else {
        (digits_value(s.drop_last()) * 10 + digit_value(s.last())) as nat
    }
}

/// The digits of a number text: without a leading `+`.
pub open spec fn unsigned_body(s: Seq<char>) -> Seq<char> {
    if s.len() > 0 && s[0] == '+' {
        s.drop_first()
    } else {
        s
    }
}

pub open spec fn all_digits(s: Seq<char>) -> bool {
    forall|i: int| 0 <= i < s.len() ==> is_digit(#[trigger] s[i])
}

/// What `str::parse::<usize>` accepts: an optional `+` and at least one
/// decimal digit, of a value that fits.
pub open spec fn parse_usize_text(s: Seq<char>) -> Option<nat> {
    let body = unsigned_body(s);
    if body.len() > 0 && all_digits(body) && digits_value(body) <= usize::MAX {
        Some(digits_value(body))
    } else {
        None
    }
}

proof fn lemma_digits_value_monotone(s: Seq<char>, n: int)
    requires
        0 <= n <= s.len(),
        forall|i: int| 0 <= i < s.len() ==> is_digit(#[trigger] s[i]),
    ensures
        digits_value(s.take(n)) <= digits_value(s),
    decreases s.len() - n,
{
    if n < s.len() {
        lemma_digits_value_monotone(s, n + 1);
        assert(s.take(n + 1).drop_last() =~= s.take(n));
    } else {
        assert(s.take(n) =~= s);
    }
}

/// Parses a decimal `usize` as `str::parse::<usize>` does.
pub fn parse_usize(text: &str) -> (r: Option<usize>)
    ensures
        match parse_usize_text(text@) {
            Some(v) => r == Some(v as usize),
            None => r is None,
        },
{
    let n = text.unicode_len();
    let mut start: usize = 0;
    if n > 0 && text.get_char(0) == '+' {
        start = 1;
    }
    let ghost body = text@.skip(start as int);
    assert(body =~= unsigned_body(text@));
    if start >= n {
        return None;
    }
    let mut value: usize = 0;
    let mut i: usize = start;
    while i < n
        invariant
            n == text@.len(),
            start <= i <= n,
            body == text@.skip(start as int),
            body == unsigned_body(text@),
            forall|j: int| 0 <= j < i - start ==> is_digit(#[trigger] body[j]),
            value == digits_value(body.take(i - start)),
        decreases n - i,
    {
        let c = text.get_char(i);
        if !('0' <= c && c <= '9') {
            assert(!is_digit(body[i - start]));
            assert(!all_digits(body));
            return None;
        }
        let d = (c as u32 - 48) as usize;
        proof {
            let t = body.take(i - start + 1);
            assert(t.drop_last() =~= body.take(i - start));
            assert(t.last() == c);
        }
        let ghost next = digits_value(body.take(i - start + 1));
        match value.checked_mul(10) {
            None => {
                proof {
                    lemma_digits_value_monotone_all(body, i - start + 1);
                }
                return None;
            },
            Some(m) => match m.checked_add(d) {
                None => {
                    proof {
                        lemma_digits_value_monotone_all(body, i - start + 1);
                    }
                    return None;
                },
                Some(v) => {
                    value = v;
                },
            },
        }
        i = i + 1;
    }
    assert(body.take(n - start) =~= body);
    Some(value)
}

/// Past a point where the digits read so far overflow, the whole value does
/// too (or a non-digit follows).
proof fn lemma_digits_value_monotone_all(s: Seq<char>, n: int)
    requires
        0 <= n <= s.len(),
        forall|i: int| 0 <= i < n ==> is_digit(#[trigger] s[i]),
    ensures
        all_digits(s) ==> digits_value(s.take(n)) <= digits_value(s),
{
    if all_digits(s) {
        lemma_digits_value_monotone(s, n);
    }
}

/// The fields of a `window_ready` message.
#[derive(Debug, Clone, Copy, PartialEq, Eq, Structural)]
pub struct WindowReady {
    pub hwnd_value: usize,
    pub hwnd_generation: u64,
    pub managed_tile_active: bool,
}

/// The window of a `window_ready` message, or why it is invalid.
pub open spec fn window_ready_outcome(m: BrokerMessage) -> Result<WindowReady, Seq<char>> {
    match m.payload {
        None => Err("window_ready payload is missing"@),
        Some(p) => match required_text_ok(p@, "hwnd_u64"@) {
            None => Err(required_text_error("hwnd_u64"@)),
            Some(t) => match parse_usize_text(t) {
                None => Err("window_ready hwnd_u64 is invalid"@),
                Some(h) => match field(p@, "hwnd_generation"@) {
                    Some(JsonScalar::UInt(g)) => match field(p@, "managed_tile_active"@) {
                        Some(JsonScalar::Bool(b)) => Ok(
                            WindowReady { hwnd_value: h as usize, hwnd_generation: g, managed_tile_active: b },
                        ),
                        _ => Err("window_ready managed_tile_active is invalid"@),
                    },
                    _ => Err("window_ready hwnd_generation is invalid"@),
                },
            },
        },
    }
}

/// Reads the fields of a `window_ready` message.
pub fn parse_window_ready(message: &BrokerMessage) -> (r: Result<WindowReady, String>)
    ensures
        match window_ready_outcome(*message) {
            Ok(w) => r == Ok::<WindowReady, String>(w),
            Err(m) => r matches Err(e) && e@ == m,
        },
{
    proof {
        reveal_strlit("hwnd_u64");
        reveal_strlit("hwnd_generation");
        reveal_strlit("managed_tile_active");
    }
    let payload = match &message.payload {
        Some(p) => p,
        None => {
            return Err(String::from_str("window_ready payload is missing"));
        },
    };
    let text = required_text(payload.as_slice(), "hwnd_u64")?;
    let hwnd_value = match parse_usize(text) {
        Some(v) => v,
        None => {
            return Err(String::from_str("window_ready hwnd_u64 is invalid"));
        },
    };
    let hwnd_generation = match get_field(payload.as_slice(), "hwnd_generation") {
        Some(JsonScalar::UInt(g)) => *g,
        _ => {
            return Err(String::from_str("window_ready hwnd_generation is invalid"));
        },
    };
    let managed_tile_active = match get_field(payload.as_slice(), "managed_tile_active") {
        Some(JsonScalar::Bool(b)) => *b,
        _ => {
            return Err(String::from_str("window_ready managed_tile_active is invalid"));
        },
    };
    Ok(WindowReady { hwnd_value, hwnd_generation, managed_tile_active })
}

/// A session after its client reported a ready window.
pub open spec fn window_ready_entry(e: BrokerEntry, w: WindowReady) -> BrokerEntry {
    BrokerEntry {
        session: ExpectedSession {
            hwnd: Some(w.hwnd_value),
            hwnd_generation: Some(w.hwnd_generation),
            window_ready: true,
            managed_tile_active: w.managed_tile_active,
            last_error: None,
            ..e.session
        },
        ..e
    }
}

/// Whether a reported window would take a session back to an older
/// window: a lower generation, or the same generation with another handle.
pub open spec fn generation_regressed(s: ExpectedSession, w: WindowReady) -> bool {
    match s.hwnd_generation {
        Some(previous) => w.hwnd_generation < previous || (w.hwnd_generation == previous && s.hwnd
            != Some(w.hwnd_value)),
        None => false,
    }
}

/// The error of a `window_ready` for a session, if any.
pub open spec fn window_ready_error(
    es: Seq<BrokerEntry>,
    id: Seq<char>,
    caller: ConnectionIdentity,
    client_pid: u32,
    owner_pid: u32,
    w: WindowReady,
) -> Option<Seq<char>> {
    if owner_pid != client_pid {
        Some(
            "window_ready HWND owner mismatch: expected "@ + nat_digits(client_pid as nat) + ", observed "@
                + nat_digits(owner_pid as nat),
        )
    } else {
        match find_first(es, has_id(id)) {
            None => Some("launch session disappeared"@),
            Some(i) => if !is_current_connection(es[i].session, caller) {
                Some(stale_connection_text())
            } else if generation_regressed(es[i].session, w) {
                Some("window_ready HWND generation regressed"@)
            } else {
                None
            },
        }
    }
}

/// Which optional u32 field of a client status is out of bounds first.
pub open spec fn bounded_field(p: Seq<(String, JsonScalar)>, key: Seq<char>, maximum: u64) -> Option<u32> {
    match field(p, key) {
        Some(JsonScalar::UInt(v)) => if v <= maximum {
            Some(v as u32)
        } else {
            None
        },
        _ => None,
    }
}

pub open spec fn bool_field(p: Seq<(String, JsonScalar)>, key: Seq<char>) -> Option<bool> {
    match field(p, key) {
        Some(JsonScalar::Bool(b)) => Some(b),
        _ => None,
    }
}

/// The backpack item count: absent or null is none; otherwise a count of
/// at most 10 000.
pub open spec fn backpack_field(p: Seq<(String, JsonScalar)>) -> Option<Option<u32>> {
    match field(p, "backpack_items"@) {
        None => Some(None),
        Some(JsonScalar::Null) => Some(None),
        Some(JsonScalar::UInt(v)) => if v <= 10000 {
            Some(Some(v as u32))
        } else {
            None
        },
        _ => None,
    }
}

/// The numeric fields of a client status with their bounds, in the order
/// they are checked.
pub open spec fn status_number_keys() -> Seq<(Seq<char>, u64)> {
    seq![
        ("hits"@, 1000000u64),
        ("hits_max"@, 1000000u64),
        ("mana"@, 1000000u64),
        ("mana_max"@, 1000000u64),
        ("stamina"@, 1000000u64),
        ("stamina_max"@, 1000000u64),
        ("weight"@, 1000000u64),
        ("weight_max"@, 1000000u64),
        ("backpack_max"@, 10000u64),
    ]
}

/// The first invalid field of an in-game client status, as its error.
pub open spec fn client_status_error(p: Seq<(String, JsonScalar)>) -> Option<Seq<char>> {
    let keys = status_number_keys();
    if required_text_ok(p, "character_name"@) is None {
        Some(required_text_error("character_name"@))
    } else if trimmed(required_text_ok(p, "character_name"@)->Some_0).len() == 0 || trimmed(
        required_text_ok(p, "character_name"@)->Some_0,
    ).len() > 64 {
        Some("client_status character_name is invalid"@)
    } else if backpack_field(p) is None {
        Some("client_status backpack_items is invalid"@)
    } else if exists|k: int| 0 <= k < keys.len() && bounded_field(p, keys[k].0, keys[k].1) is None {
        let k = choose|k: int|
            0 <= k < keys.len() && bounded_field(p, keys[k].0, keys[k].1) is None && forall|j: int|
                0 <= j < k ==> bounded_field(p, keys[j].0, keys[j].1) is Some;
        Some("client_status "@ + keys[k].0 + " is invalid"@)
    } else if bool_field(p, "poisoned"@) is None {
        Some("client_status poisoned is invalid"@)
    } else if bool_field(p, "paralyzed"@) is None {
        Some("client_status paralyzed is invalid"@)
    } else if bool_field(p, "dead"@) is None {
        Some("client_status dead is invalid"@)
    } else {
        None
    }
}

/// An in-game client status read from a payload whose fields are all valid.
pub open spec fn status_describes(st: BrokerClientStatus, p: Seq<(String, JsonScalar)>) -> bool {
    &&& st.character_name@ == trimmed(required_text_ok(p, "character_name"@)->Some_0)
    &&& Some(st.hits) == bounded_field(p, "hits"@, 1000000)
    &&& Some(st.hits_max) == bounded_field(p, "hits_max"@, 1000000)
    &&& Some(st.mana) == bounded_field(p, "mana"@, 1000000)
    &&& Some(st.mana_max) == bounded_field(p, "mana_max"@, 1000000)
    &&& Some(st.stamina) == bounded_field(p, "stamina"@, 1000000)
    &&& Some(st.stamina_max) == bounded_field(p, "stamina_max"@, 1000000)
    &&& Some(st.weight) == bounded_field(p, "weight"@, 1000000)
    &&& Some(st.weight_max) == bounded_field(p, "weight_max"@, 1000000)
    &&& Some(st.backpack_items) == backpack_field(p)
    &&& Some(st.backpack_max) == bounded_field(p, "backpack_max"@, 10000)
    &&& Some(st.poisoned) == bool_field(p, "poisoned"@)
    &&& Some(st.paralyzed) == bool_field(p, "paralyzed"@)
    &&& Some(st.dead) == bool_field(p, "dead"@)
}

fn bounded_u32(payload: &[(String, JsonScalar)], key: &str, maximum: u64) -> (r: Result<u32, String>)
    requires
        maximum <= u32::MAX,
    ensures
        match bounded_field(payload@, key@, maximum) {
            Some(v) => r == Ok::<u32, String>(v),
            None => r matches Err(e) && e@ == "client_status "@ + key@ + " is invalid"@,
        },
{
    if let Some(JsonScalar::UInt(v)) = get_field(payload, key) {
        if *v <= maximum {
            return Ok(*v as u32);
        }
    }
    let mut e = String::from_str("client_status ");
    push_str(&mut e, key);
    push_str(&mut e, " is invalid");
    proof {
        reveal_strlit("client_status ");
        reveal_strlit(" is invalid");
    }
    Err(e)
}

fn bool_of(payload: &[(String, JsonScalar)], key: &str, error: &str) -> (r: Result<bool, String>)
    ensures
        match bool_field(payload@, key@) {
            Some(b) => r == Ok::<bool, String>(b),
            None => r matches Err(e) && e@ == error@,
        },
{
    match get_field(payload, key) {
        Some(JsonScalar::Bool(b)) => Ok(*b),
        _ => Err(String::from_str(error)),
    }
}

/// Reads a `client_status` message: `None` while the character is not in
/// game; otherwise the status, every field checked against its bounds.
pub fn parse_client_status(message: &BrokerMessage) -> (r: Result<Option<BrokerClientStatus>, String>)
    ensures
        match message.payload {
            None => r matches Err(e) && e@ == "client_status payload is missing"@,
            Some(p) => match bool_field(p@, "in_game"@) {
                None => r matches Err(e) && e@ == "client_status in_game is invalid"@,
                Some(false) => r matches Ok(None),
                Some(true) => match client_status_error(p@) {
                    Some(m) => r matches Err(e) && e@ == m,
                    None => r matches Ok(Some(st)) && status_describes(st, p@),
                },
            },
        },
{
    proof {
        reveal_strlit("in_game");
        reveal_strlit("character_name");
        reveal_strlit("backpack_items");
        reveal_strlit("hits");
        reveal_strlit("hits_max");
        reveal_strlit("mana");
        reveal_strlit("mana_max");
        reveal_strlit("stamina");
        reveal_strlit("stamina_max");
        reveal_strlit("weight");
        reveal_strlit("weight_max");
        reveal_strlit("backpack_max");
        reveal_strlit("poisoned");
        reveal_strlit("paralyzed");
        reveal_strlit("dead");
    }
    let payload = match &message.payload {
        Some(p) => p.as_slice(),
        None => {
            return Err(String::from_str("client_status payload is missing"));
        },
    };
    let in_game = bool_of(payload, "in_game", "client_status in_game is invalid")?;
    if !in_game {
        return Ok(None);
    }
    let character_name = required_text(payload, "character_name")?.trim();
    if character_name.unicode_len() == 0 || character_name.unicode_len() > 64 {
        return Err(String::from_str("client_status character_name is invalid"));
    }
    let backpack_items = match get_field(payload, "backpack_items") {
        None => None,
        Some(JsonScalar::Null) => None,
        Some(JsonScalar::UInt(v)) => {
            if *v <= 10000 {
                Some(*v as u32)
            } else {
                return Err(String::from_str("client_status backpack_items is invalid"));
            }
        },
        Some(_) => {
            return Err(String::from_str("client_status backpack_items is invalid"));
        },
    };
    let ghost p = payload@;
    let ghost keys = status_number_keys();
    let hits = bounded_u32(payload, "hits", 1000000);
    let hits = match hits {
        Ok(v) => v,
        Err(e) => {
            proof {
                lemma_first_bad_key(p, 0);
            }
            return Err(e);
        },
    };
    let hits_max = match bounded_u32(payload, "hits_max", 1000000) {
        Ok(v) => v,
        Err(e) => {
            proof {
                lemma_first_bad_key(p, 1);
            }
            return Err(e);
        },
    };
    let mana = match bounded_u32(payload, "mana", 1000000) {
        Ok(v) => v,
        Err(e) => {
            proof {
                lemma_first_bad_key(p, 2);
            }
            return Err(e);
        },
    };
    let mana_max = match bounded_u32(payload, "mana_max", 1000000) {
        Ok(v) => v,
        Err(e) => {
            proof {
                lemma_first_bad_key(p, 3);
            }
            return Err(e);
        },
    };
    let stamina = match bounded_u32(payload, "stamina", 1000000) {
        Ok(v) => v,
        Err(e) => {
            proof {
                lemma_first_bad_key(p, 4);
            }
            return Err(e);
        },
    };
    let stamina_max = match bounded_u32(payload, "stamina_max", 1000000) {
        Ok(v) => v,
        Err(e) => {
            proof {
                lemma_first_bad_key(p, 5);
            }
            return Err(e);
        },
    };
    let weight = match bounded_u32(payload, "weight", 1000000) {
        Ok(v) => v,
        Err(e) => {
            proof {
                lemma_first_bad_key(p, 6);
            }
            return Err(e);
        },
    };
    let weight_max = match bounded_u32(payload, "weight_max", 1000000) {
        Ok(v) => v,
        Err(e) => {
            proof {
                lemma_first_bad_key(p, 7);
            }
            return Err(e);
        },
    };
    let backpack_max = match bounded_u32(payload, "backpack_max", 10000) {
        Ok(v) => v,
        Err(e) => {
            proof {
                lemma_first_bad_key(p, 8);
            }
            return Err(e);
        },
    };
    proof {
        assert forall|k: int| 0 <= k < keys.len() implies bounded_field(p, keys[k].0, keys[k].1) is Some by {
            assert(k == 0 || k == 1 || k == 2 || k == 3 || k == 4 || k == 5 || k == 6 || k == 7 || k == 8);
        }
    }
    let poisoned = bool_of(payload, "poisoned", "client_status poisoned is invalid")?;
    let paralyzed = bool_of(payload, "paralyzed", "client_status paralyzed is invalid")?;
    let dead = bool_of(payload, "dead", "client_status dead is invalid")?;
    Ok(
        Some(
            BrokerClientStatus {
                character_name: String::from_str(character_name),
                hits,
                hits_max,
                mana,
                mana_max,
                stamina,
                stamina_max,
                weight,
                weight_max,
                backpack_items,
                backpack_max,
                poisoned,
                paralyzed,
                dead,
            },
        ),
    )
}

/// When the numeric field `k` is the first out of bounds, it is the one
/// `client_status_error` names.
proof fn lemma_first_bad_key(p: Seq<(String, JsonScalar)>, k: int)
    requires
        0 <= k < 9,
        bounded_field(p, status_number_keys()[k].0, status_number_keys()[k].1) is None,
        forall|j: int|
            0 <= j < k ==> bounded_field(p, status_number_keys()[j].0, status_number_keys()[j].1) is Some,
    ensures
        ({
            let keys = status_number_keys();
            let c = choose|c: int|
                0 <= c < keys.len() && bounded_field(p, keys[c].0, keys[c].1) is None && forall|j: int|
                    0 <= j < c ==> bounded_field(p, keys[j].0, keys[j].1) is Some;
            c == k
        }),
{
    let keys = status_number_keys();
    let c = choose|c: int|
        0 <= c < keys.len() && bounded_field(p, keys[c].0, keys[c].1) is None && forall|j: int|
            0 <= j < c ==> bounded_field(p, keys[j].0, keys[j].1) is Some;
    assert(0 <= k < keys.len() && bounded_field(p, keys[k].0, keys[k].1) is None && forall|j: int|
        0 <= j < k ==> bounded_field(p, keys[j].0, keys[j].1) is Some);
    if c < k {
        assert(bounded_field(p, keys[c].0, keys[c].1) is Some);
    } else if c > k {
        assert(bounded_field(p, keys[k].0, keys[k].1) is Some);
    }
}


/// A session after a client status arrived at `now_ms`.
pub open spec fn status_entry(e: BrokerEntry, st: Option<BrokerClientStatus>, now_ms: u64) -> BrokerEntry {
    BrokerEntry {
        session: ExpectedSession {
            latest_status: st,
            last_status_received_at_ms: Some(now_ms),
            last_error: None,
            ..e.session
        },
        ..e
    }
}

/// The error of a group control request from a session, if any.
pub open spec fn group_control_error(es: Seq<BrokerEntry>, id: Seq<char>, m: BrokerMessage) -> Option<Seq<char>> {
    if !(m.message_id matches Some(c) && c@.len() > 0 && utf8_len(c@) <= 512) {
        Some("group control message_id is missing or invalid"@)
    } else if m.payload is None {
        Some("group control payload is missing"@)
    } else if !(field(m.payload->Some_0@, "action"@) matches Some(JsonScalar::Str(a)) && parse_action(
        a@,
    ) is Some) {
        Some("group control action is unsupported"@)
    } else {
        match find_first(es, has_id(id)) {
            None => Some("group control session disappeared"@),
            Some(i) => if !es[i].session.hud_leader {
                Some("only the authenticated HUD leader can control the group"@)
            } else if es[i].session.group_control_in_flight {
                Some("a group control request is already in progress"@)
            } else if es[i].session.connection_id is None {
                Some("group control connection identity is missing"@)
            } else {
                None
            },
        }
    }
}

/// A session with a group control request in progress (or not).
pub open spec fn in_flight_entry(e: BrokerEntry, in_flight: bool) -> BrokerEntry {
    BrokerEntry { session: ExpectedSession { group_control_in_flight: in_flight, ..e.session }, ..e }
}

impl BrokerSessions {
    /// Records the window a client reported ready; `owner_pid` is the
    /// process that owns the reported window.
    pub fn record_window_ready(
        &mut self,
        launch_session_id: &str,
        caller: ConnectionIdentity,
        client_pid: u32,
        owner_pid: u32,
        ready: WindowReady,
    ) -> (r: Result<(), String>)
        ensures
            final(self).next_connection_id == old(self).next_connection_id,
            match window_ready_error(old(self).entries@, launch_session_id@, caller, client_pid, owner_pid, ready) {
                Some(m) => (r matches Err(e) && e@ == m) && final(self).entries@ == old(self).entries@,
                None => r is Ok && final(self).entries@ == old(self).entries@.update(
                    find_first(old(self).entries@, has_id(launch_session_id@))->Some_0,
                    window_ready_entry(
                        old(self).entries@[find_first(old(self).entries@, has_id(launch_session_id@))->Some_0],
                        ready,
                    ),
                ),
            },
    {
        if owner_pid != client_pid {
            let mut msg = String::from_str("window_ready HWND owner mismatch: expected ");
            push_u64_digits(&mut msg, client_pid as u64);
            push_str(&mut msg, ", observed ");
            push_u64_digits(&mut msg, owner_pid as u64);
            proof {
                reveal_strlit("window_ready HWND owner mismatch: expected ");
                reveal_strlit(", observed ");
            }
            return Err(msg);
        }
        let i = match self.find_id(launch_session_id) {
            None => {
                return Err(String::from_str("launch session disappeared"));
            },
            Some(i) => i,
        };
        require_connection(&self.entries[i].session, caller)?;
        let regressed = match self.entries[i].session.hwnd_generation {
            Some(previous) => ready.hwnd_generation < previous || (ready.hwnd_generation == previous
                && match self.entries[i].session.hwnd {
                Some(h) => h != ready.hwnd_value,
                None => true,
            }),
            None => false,
        };
        if regressed {
            return Err(String::from_str("window_ready HWND generation regressed"));
        }
        let ghost before = self.entries@;
        let mut e = self.entries.remove(i);
        e.session.hwnd = Some(ready.hwnd_value);
        e.session.hwnd_generation = Some(ready.hwnd_generation);
        e.session.window_ready = true;
        e.session.managed_tile_active = ready.managed_tile_active;
        e.session.last_error = None;
        self.entries.insert(i, e);
        assert(self.entries@ =~= before.update(i as int, window_ready_entry(before[i as int], ready)));
        Ok(())
    }

    /// Records a client status message from a session's current connection;
    /// `now_ms` is when it arrived.
    pub fn record_client_status(
        &mut self,
        launch_session_id: &str,
        caller: ConnectionIdentity,
        message: &BrokerMessage,
        now_ms: u64,
    ) -> (r: Result<(), String>)
        ensures
            final(self).next_connection_id == old(self).next_connection_id,
            r is Ok ==> exists|st: Option<BrokerClientStatus>|
                #![trigger status_entry(old(self).entries@[find_first(old(self).entries@, has_id(launch_session_id@))->Some_0], st, now_ms)]
                {
                    &&& find_first(old(self).entries@, has_id(launch_session_id@)) is Some
                    &&& is_current_connection(
                        old(self).entries@[find_first(old(self).entries@, has_id(launch_session_id@))->Some_0].session,
                        caller,
                    )
                    &&& parse_client_status_ok(*message, st)
                    &&& final(self).entries@ == old(self).entries@.update(
                        find_first(old(self).entries@, has_id(launch_session_id@))->Some_0,
                        status_entry(
                            old(self).entries@[find_first(old(self).entries@, has_id(launch_session_id@))->Some_0],
                            st,
                            now_ms,
                        ),
                    )
                },
            r is Err ==> final(self).entries@ == old(self).entries@,
            r is Err <==> !client_status_parses(*message) || find_first(
                old(self).entries@,
                has_id(launch_session_id@),
            ) is None || !is_current_connection(
                old(self).entries@[find_first(old(self).entries@, has_id(launch_session_id@))->Some_0].session,
                caller,
            ),
    {
        let status = parse_client_status(message)?;
        let i = match self.find_id(launch_session_id) {
            None => {
                return Err(String::from_str("launch session disappeared"));
            },
            Some(i) => i,
        };
        require_connection(&self.entries[i].session, caller)?;
        let ghost before = self.entries@;
        let ghost st = status;
        let mut e = self.entries.remove(i);
        e.session.latest_status = status;
        e.session.last_status_received_at_ms = Some(now_ms);
        e.session.last_error = None;
        self.entries.insert(i, e);
        assert(self.entries@ =~= before.update(i as int, status_entry(before[i as int], st, now_ms)));
        Ok(())
    }

    /// Accepts a group control request from the HUD leader and marks it in
    /// progress; one request at a time.
    pub fn begin_group_control(&mut self, launch_session_id: &str, message: &BrokerMessage) -> (r: Result<
        GroupControlWork,
        String,
    >)
        ensures
            final(self).next_connection_id == old(self).next_connection_id,
            match group_control_error(old(self).entries@, launch_session_id@, *message) {
                Some(m) => (r matches Err(e) && e@ == m) && final(self).entries@ == old(self).entries@,
                None => {
                    let i = find_first(old(self).entries@, has_id(launch_session_id@))->Some_0;
                    &&& r matches Ok(w)
                    &&& w.correlation_id@ == message.message_id->Some_0@
                    &&& w.connection_id == old(self).entries@[i].session.connection_id->Some_0
                    &&& field(message.payload->Some_0@, "action"@) matches Some(JsonScalar::Str(a))
                    &&& parse_action(a@) == Some(w.action)
                    &&& final(self).entries@ == old(self).entries@.update(i, in_flight_entry(old(self).entries@[i], true))
                },
            },
    {
        proof {
            reveal_strlit("action");
        }
        let correlation_id = match &message.message_id {
            Some(c) => {
                if c.as_str().unicode_len() > 0 && c.as_str().as_bytes().len() <= 512 {
                    c
                } else {
                    return Err(String::from_str("group control message_id is missing or invalid"));
                }
            },
            None => {
                return Err(String::from_str("group control message_id is missing or invalid"));
            },
        };
        let payload = match &message.payload {
            Some(p) => p.as_slice(),
            None => {
                return Err(String::from_str("group control payload is missing"));
            },
        };
        let action = match get_field(payload, "action") {
            Some(JsonScalar::Str(a)) => match GroupControlAction::parse(a.as_str()) {
                Some(action) => action,
                None => {
                    return Err(String::from_str("group control action is unsupported"));
                },
            },
            _ => {
                return Err(String::from_str("group control action is unsupported"));
            },
        };
        let i = match self.find_id(launch_session_id) {
            None => {
                return Err(String::from_str("group control session disappeared"));
            },
            Some(i) => i,
        };
        if !self.entries[i].session.hud_leader {
            return Err(String::from_str("only the authenticated HUD leader can control the group"));
        }
        if self.entries[i].session.group_control_in_flight {
            return Err(String::from_str("a group control request is already in progress"));
        }
        let connection_id = match self.entries[i].session.connection_id {
            Some(c) => c,
            None => {
                return Err(String::from_str("group control connection identity is missing"));
            },
        };
        let ghost before = self.entries@;
        let mut e = self.entries.remove(i);
        e.session.group_control_in_flight = true;
        self.entries.insert(i, e);
        assert(self.entries@ =~= before.update(i as int, in_flight_entry(before[i as int], true)));
        Ok(GroupControlWork { correlation_id: correlation_id.clone(), connection_id, action })
    }

    /// A group control request arriving on a connection: accepted only from
    /// the session's current connection.
    pub fn queue_group_control(
        &mut self,
        launch_session_id: &str,
        caller: ConnectionIdentity,
        message: &BrokerMessage,
    ) -> (r: Result<GroupControlWork, String>)
        ensures
            final(self).next_connection_id == old(self).next_connection_id,
            match find_first(old(self).entries@, has_id(launch_session_id@)) {
                None => (r matches Err(e) && e@ == "launch session disappeared"@) && final(self).entries@
                    == old(self).entries@,
                Some(i) => if !is_current_connection(old(self).entries@[i].session, caller) {
                    (r matches Err(e) && e@ == stale_connection_text()) && final(self).entries@
                        == old(self).entries@
                } else {
                    match group_control_error(old(self).entries@, launch_session_id@, *message) {
                        Some(m) => (r matches Err(e) && e@ == m) && final(self).entries@ == old(self).entries@,
                        None => r is Ok && final(self).entries@ == old(self).entries@.update(
                            i,
                            in_flight_entry(old(self).entries@[i], true),
                        ),
                    }
                },
            },
    {
        let i = match self.find_id(launch_session_id) {
            None => {
                return Err(String::from_str("launch session disappeared"));
            },
            Some(i) => i,
        };
        require_connection(&self.entries[i].session, caller)?;
        self.begin_group_control(launch_session_id, message)
    }

    /// Clears the in-progress mark of a group control request that could
    /// not be started.
    pub fn clear_group_control_in_flight(&mut self, launch_session_id: &str)
        ensures
            final(self).next_connection_id == old(self).next_connection_id,
            match find_first(old(self).entries@, has_id(launch_session_id@)) {
                Some(i) => final(self).entries@ == old(self).entries@.update(
                    i,
                    in_flight_entry(old(self).entries@[i], false),
                ),
                None => final(self).entries@ == old(self).entries@,
            },
    {
        if let Some(i) = self.find_id(launch_session_id) {
            let ghost before = self.entries@;
            let mut e = self.entries.remove(i);
            e.session.group_control_in_flight = false;
            self.entries.insert(i, e);
            assert(self.entries@ =~= before.update(i as int, in_flight_entry(before[i as int], false)));
        }
    }
}

/// Whether a client status message parses, and to what.
pub open spec fn parse_client_status_ok(m: BrokerMessage, st: Option<BrokerClientStatus>) -> bool {
    match m.payload {
        None => false,
        Some(p) => match bool_field(p@, "in_game"@) {
            None => false,
            Some(false) => st is None,
            Some(true) => client_status_error(p@) is None && (st matches Some(s) && status_describes(s, p@)),
        },
    }
}

pub open spec fn client_status_parses(m: BrokerMessage) -> bool {
    match m.payload {
        None => false,
        Some(p) => match bool_field(p@, "in_game"@) {
            None => false,
            Some(false) => true,
            Some(true) => client_status_error(p@) is None,
        },
    }
}


/// Whether a session takes part in group window control for a profile: a
/// connected non-leader with a ready, managed window.
pub open spec fn is_group_member(e: BrokerEntry, profile: Seq<char>) -> bool {
    &&& !e.session.hud_leader
    &&& e.session.profile_id@ == profile
    &&& e.session.connected
    &&& e.session.window_ready
    &&& e.session.managed_tile_active
}

/// The window target of a group member, or the identity it lacks.
pub open spec fn member_target(s: ExpectedSession) -> Result<BrokerWindowTarget, Seq<char>> {
    if s.expected_pid is None {
        Err("expected PID is missing"@)
    } else if s.expected_process_creation_time is None {
        Err("process creation identity is missing"@)
    } else if s.hwnd is None {
        Err("HWND is missing"@)
    } else if s.hwnd_generation is None {
        Err("HWND generation is missing"@)
    } else {
        Ok(
            BrokerWindowTarget {
                pid: s.expected_pid->Some_0,
                process_creation_time: s.expected_process_creation_time->Some_0,
                hwnd_value: s.hwnd->Some_0,
                hwnd_generation: s.hwnd_generation->Some_0,
            },
        )
    }
}

/// The group control target of a member session.
pub open spec fn target_describes(t: GroupControlTarget, e: BrokerEntry) -> bool {
    &&& t.launch_session_id@ == e.launch_session_id@
    &&& t.account_id@ == e.session.account_id@
    &&& t.order == match e.session.managed_z_order {
        Some(z) => z,
        None => e.session.hud_order,
    }
    &&& match member_target(e.session) {
        Ok(w) => t.target == Ok::<BrokerWindowTarget, String>(w),
        Err(m) => t.target matches Err(x) && x@ == m,
    }
}

impl SortKey for GroupControlTarget {
    open spec fn sorts_before(self, other: Self) -> bool {
        self.order < other.order || (self.order == other.order && seq_lt(self.account_id@, other.account_id@))
    }

    fn before(&self, other: &Self) -> (b: bool) {
        self.order < other.order || (self.order == other.order && str_lt(
            self.account_id.as_str(),
            other.account_id.as_str(),
        ))
    }

    proof fn lemma_strict_weak_order(a: Self, b: Self, c: Self) {
        lemma_seq_lt_irreflexive(a.account_id@, b.account_id@);
        lemma_seq_lt_irreflexive(b.account_id@, c.account_id@);
        lemma_seq_lt_irreflexive(a.account_id@, c.account_id@);
        lemma_seq_lt_transitive(a.account_id@, b.account_id@, c.account_id@);
        lemma_seq_lt_total(a.account_id@, b.account_id@);
        lemma_seq_lt_total(b.account_id@, c.account_id@);
        lemma_seq_lt_total(a.account_id@, c.account_id@);
    }
}

fn member_target_exec(s: &ExpectedSession) -> (r: Result<BrokerWindowTarget, String>)
    ensures
        match member_target(*s) {
            Ok(w) => r == Ok::<BrokerWindowTarget, String>(w),
            Err(m) => r matches Err(x) && x@ == m,
        },
{
    let pid = match s.expected_pid {
        Some(p) => p,
        None => {
            return Err(String::from_str("expected PID is missing"));
        },
    };
    let creation = match s.expected_process_creation_time {
        Some(c) => c,
        None => {
            return Err(String::from_str("process creation identity is missing"));
        },
    };
    let hwnd = match s.hwnd {
        Some(h) => h,
        None => {
            return Err(String::from_str("HWND is missing"));
        },
    };
    let generation = match s.hwnd_generation {
        Some(g) => g,
        None => {
            return Err(String::from_str("HWND generation is missing"));
        },
    };
    Ok(BrokerWindowTarget { pid, process_creation_time: creation, hwnd_value: hwnd, hwnd_generation: generation })
}

/// The slot name shown for a managed window order.
pub open spec fn order_slot_name(order: u8) -> Seq<char> {
    if order == 0 {
        "r0c0"@
    } else if order == 1 {
        "r0c1"@
    } else if order == 2 {
        "r1c0"@
    } else if order == 3 {
        "r1c1"@
    } else if order == 4 {
        "center"@
    } else {
        "managed"@
    }
}

fn order_slot(order: u8) -> (s: &'static str)
    ensures
        s@ == order_slot_name(order),
{
    if order == 0 {
        "r0c0"
    } else if order == 1 {
        "r0c1"
    } else if order == 2 {
        "r1c0"
    } else if order == 3 {
        "r1c1"
    } else if order == 4 {
        "center"
    } else {
        "managed"
    }
}

/// A member of the party status, from a peer session's latest status.
pub open spec fn member_describes(m: PartyStatusMember, e: BrokerEntry, now_ms: u64) -> bool {
    let st = e.session.latest_status->Some_0;
    &&& m.account_id@ == e.session.account_id@
    &&& m.character_name@ == st.character_name@
    &&& m.hits == st.hits && m.hits_max == st.hits_max
    &&& m.mana == st.mana && m.mana_max == st.mana_max
    &&& m.stamina == st.stamina && m.stamina_max == st.stamina_max
    &&& m.weight == st.weight && m.weight_max == st.weight_max
    &&& m.backpack_items == st.backpack_items && m.backpack_max == st.backpack_max
    &&& m.poisoned == st.poisoned && m.paralyzed == st.paralyzed && m.dead == st.dead
    &&& m.attention == (now_ms - e.session.last_status_received_at_ms->Some_0 >= PARTY_STATUS_ATTENTION_AFTER_MS)
    &&& m.order == e.session.hud_order
}

/// Whether a session is a party member shown to the leader `leader`.
pub open spec fn is_party_peer(e: BrokerEntry, leader_id: Seq<char>, leader_profile: Seq<char>) -> bool {
    &&& e.launch_session_id@ != leader_id
    &&& e.session.profile_id@ == leader_profile
    &&& e.session.connected
    &&& e.session.latest_status is Some
    &&& e.session.last_status_received_at_ms is Some
}

/// The peers whose status the leader `leader_id` of `profile` is shown.
pub open spec fn party_peers(es: Seq<BrokerEntry>, leader_id: Seq<char>, profile: Seq<char>) -> Seq<BrokerEntry> {
    es.filter(|e: BrokerEntry| is_party_peer(e, leader_id, profile))
}

/// `ms` is the party status the leader `leader_id` of `profile` is shown:
/// one member per peer, ordered by HUD order then account id.
pub open spec fn party_members(
    es: Seq<BrokerEntry>,
    leader_id: Seq<char>,
    profile: Seq<char>,
    now_ms: u64,
    ms: Seq<PartyStatusMember>,
) -> bool {
    exists|unsorted: Seq<PartyStatusMember>|
        #![trigger stably_sorted(unsorted, ms)]
        {
            let peers = party_peers(es, leader_id, profile);
            &&& unsorted.len() == peers.len()
            &&& forall|k: int| 0 <= k < unsorted.len() ==> member_describes(#[trigger] unsorted[k], peers[k], now_ms)
            &&& stably_sorted(unsorted, ms)
        }
}

impl SortKey for PartyStatusMember {
    open spec fn sorts_before(self, other: Self) -> bool {
        self.order < other.order || (self.order == other.order && seq_lt(self.account_id@, other.account_id@))
    }

    fn before(&self, other: &Self) -> (b: bool) {
        self.order < other.order || (self.order == other.order && str_lt(
            self.account_id.as_str(),
            other.account_id.as_str(),
        ))
    }

    proof fn lemma_strict_weak_order(a: Self, b: Self, c: Self) {
        lemma_seq_lt_irreflexive(a.account_id@, b.account_id@);
        lemma_seq_lt_irreflexive(b.account_id@, c.account_id@);
        lemma_seq_lt_irreflexive(a.account_id@, c.account_id@);
        lemma_seq_lt_transitive(a.account_id@, b.account_id@, c.account_id@);
        lemma_seq_lt_total(a.account_id@, b.account_id@);
        lemma_seq_lt_total(b.account_id@, c.account_id@);
        lemma_seq_lt_total(a.account_id@, c.account_id@);
    }
}

/// `ts` is the managed group of a profile: its members' targets, in the
/// order of window order then account id (stably, from session order).
pub open spec fn group_targets(es: Seq<BrokerEntry>, profile: Seq<char>, ts: Seq<GroupControlTarget>) -> bool {
    exists|unsorted: Seq<GroupControlTarget>|
        #![trigger stably_sorted(unsorted, ts)]
        {
            let members = es.filter(|e: BrokerEntry| is_group_member(e, profile));
            &&& unsorted.len() == members.len()
            &&& forall|k: int| 0 <= k < unsorted.len() ==> target_describes(#[trigger] unsorted[k], members[k])
            &&& stably_sorted(unsorted, ts)
        }
}

/// A report of a finished group control request.
pub open spec fn report_describes(
    r: GroupControlReport,
    work: GroupControlWork,
    target_count: usize,
    succeeded: usize,
    failed: usize,
    errors: Seq<String>,
    now_ms: u64,
) -> bool {
    &&& r.correlation_id@ == work.correlation_id@
    &&& r.message_id@ == "group-result-"@ + nat_digits(now_ms as nat)
    &&& r.action == work.action
    &&& r.target_count == target_count
    &&& r.succeeded_count == succeeded
    &&& r.failed_count == failed
    &&& r.errors@ == errors
}

impl BrokerSessions {
    /// The managed windows of a profile's group, ordered by window order
    /// then account id.
    pub fn collect_profile_managed_group_targets(&self, profile_id: &str) -> (r: Vec<GroupControlTarget>)
        ensures
            group_targets(self.entries@, profile_id@, r@),
    {
        let ghost pred = |e: BrokerEntry| is_group_member(e, profile_id@);
        let ghost es = self.entries@;
        let mut out: Vec<GroupControlTarget> = Vec::new();
        let mut i: usize = 0;
        assert(es.take(0).filter(pred) =~= Seq::<BrokerEntry>::empty()) by {
            reveal(Seq::filter);
        }
        while i < self.entries.len()
            invariant
                es == self.entries@,
                i <= es.len(),
                out@.len() == es.take(i as int).filter(pred).len(),
                forall|j: int|
                    0 <= j < out@.len() ==> target_describes(
                        #[trigger] out@[j],
                        es.take(i as int).filter(pred)[j],
                    ),
                forall|e: BrokerEntry| #[trigger] pred(e) == is_group_member(e, profile_id@),
            decreases es.len() - i,
        {
            proof {
                crate::settings::lemma_filter_take_step(es, i as int, pred);
            }
            let e = &self.entries[i];
            let s = &e.session;
            if !s.hud_leader && str_eq(s.profile_id.as_str(), profile_id) && s.connected && s.window_ready
                && s.managed_tile_active {
                let order = match s.managed_z_order {
                    Some(z) => z,
                    None => s.hud_order,
                };
                out.push(
                    GroupControlTarget {
                        launch_session_id: e.launch_session_id.clone(),
                        account_id: s.account_id.clone(),
                        order,
                        target: member_target_exec(s),
                    },
                );
            }
            i = i + 1;
        }
        assert(es.take(es.len() as int) =~= es);
        let ghost unsorted = out@;
        let r = stable_sort(out);
        assert(pred =~= (|e: BrokerEntry| is_group_member(e, profile_id@)));
        r
    }

    /// The group of the HUD leader `leader_session_id`, for a group action.
    pub fn collect_managed_group_targets(&self, leader_session_id: &str) -> (r: Result<Vec<GroupControlTarget>, String>)
        ensures
            match find_first(self.entries@, has_id(leader_session_id@)) {
                None => r matches Err(e) && e@ == "group control leader session disappeared"@,
                Some(i) => if !self.entries@[i].session.hud_leader {
                    r matches Err(e) && e@ == "only the authenticated HUD leader can control the group"@
                } else {
                    r matches Ok(ts) && group_targets(self.entries@, self.entries@[i].session.profile_id@, ts@)
                },
            },
    {
        let i = match self.find_id(leader_session_id) {
            None => {
                return Err(String::from_str("group control leader session disappeared"));
            },
            Some(i) => i,
        };
        if !self.entries[i].session.hud_leader {
            return Err(String::from_str("only the authenticated HUD leader can control the group"));
        }
        Ok(self.collect_profile_managed_group_targets(self.entries[i].session.profile_id.as_str()))
    }

    /// The accounts of a profile's managed group with the slot names of
    /// their window order.
    pub fn live_secondary_accounts(&self, profile_id: &str) -> (r: Vec<(String, &'static str)>)
        ensures
            exists|ts: Seq<GroupControlTarget>|
                {
                    &&& #[trigger] group_targets(self.entries@, profile_id@, ts)
                    &&& r@.len() == ts.len()
                    &&& forall|k: int|
                        0 <= k < ts.len() ==> (#[trigger] r@[k]).0@ == ts[k].account_id@ && r@[k].1@
                            == order_slot_name(ts[k].order)
                },
    {
        let ts = self.collect_profile_managed_group_targets(profile_id);
        let mut out: Vec<(String, &'static str)> = Vec::new();
        let mut i: usize = 0;
        while i < ts.len()
            invariant
                i <= ts@.len(),
                out@.len() == i,
                forall|k: int|
                    0 <= k < i ==> (#[trigger] out@[k]).0@ == ts@[k].account_id@ && out@[k].1@
                        == order_slot_name(ts@[k].order),
            decreases ts@.len() - i,
        {
            proof {
                reveal_strlit("r0c0");
                reveal_strlit("r0c1");
                reveal_strlit("r1c0");
                reveal_strlit("r1c1");
                reveal_strlit("center");
                reveal_strlit("managed");
            }
            out.push((ts[i].account_id.clone(), order_slot(ts[i].order)));
            i = i + 1;
        }
        out
    }

    /// After a group restore, queues the layout command for a member whose
    /// window is still the one that was restored.
    pub fn confirm_restore(&mut self, launch_session_id: &str, target: BrokerWindowTarget) -> (r: Result<(), String>)
        ensures
            final(self).next_connection_id == old(self).next_connection_id,
            match find_first(old(self).entries@, has_id(launch_session_id@)) {
                None => (r matches Err(e) && e@ == "managed session disappeared after restore"@)
                    && final(self).entries@ == old(self).entries@,
                Some(i) => {
                    let s = old(self).entries@[i].session;
                    if !s.connected || !s.managed_tile_active || s.expected_pid != Some(target.pid)
                        || s.hwnd_generation != Some(target.hwnd_generation) {
                        (r matches Err(e) && e@ == "window identity changed during restore"@)
                            && final(self).entries@ == old(self).entries@
                    } else {
                        r is Ok && final(self).entries@ == old(self).entries@.update(
                            i,
                            layout_queued(old(self).entries@[i]),
                        )
                    }
                },
            },
    {
        let i = match self.find_id(launch_session_id) {
            None => {
                return Err(String::from_str("managed session disappeared after restore"));
            },
            Some(i) => i,
        };
        let s = &self.entries[i].session;
        let pid_same = match s.expected_pid {
            Some(p) => p == target.pid,
            None => false,
        };
        let generation_same = match s.hwnd_generation {
            Some(g) => g == target.hwnd_generation,
            None => false,
        };
        if !s.connected || !s.managed_tile_active || !pid_same || !generation_same {
            return Err(String::from_str("window identity changed during restore"));
        }
        let ghost before = self.entries@;
        let mut e = self.entries.remove(i);
        e.session.pending_apply_layout = true;
        self.entries.insert(i, e);
        assert(self.entries@ =~= before.update(i as int, layout_queued(before[i as int])));
        Ok(())
    }

    /// Ends a group control request: clears its in-progress mark and, if the
    /// leader is still on the same connection, queues the report for it.
    pub fn queue_group_control_result(
        &mut self,
        leader_session_id: &str,
        work: &GroupControlWork,
        target_count: usize,
        succeeded_count: usize,
        failed_count: usize,
        errors: Vec<String>,
        now_ms: u64,
    )
        ensures
            final(self).next_connection_id == old(self).next_connection_id,
            match find_first(old(self).entries@, has_id(leader_session_id@)) {
                None => final(self).entries@ == old(self).entries@,
                Some(i) => {
                    let s = old(self).entries@[i].session;
                    let n = final(self).entries@[i].session;
                    &&& final(self).entries@.len() == old(self).entries@.len()
                    &&& forall|j: int|
                        0 <= j < old(self).entries@.len() && j != i ==> final(self).entries@[j]
                            == old(self).entries@[j]
                    &&& final(self).entries@[i].launch_session_id == old(self).entries@[i].launch_session_id
                    &&& n == (ExpectedSession {
                        group_control_in_flight: false,
                        pending_group_control_result: n.pending_group_control_result,
                        ..s
                    })
                    &&& if s.connected && s.connection_id == Some(work.connection_id) {
                        n.pending_group_control_result matches Some(rep) && report_describes(
                            rep,
                            *work,
                            target_count,
                            succeeded_count,
                            failed_count,
                            errors@,
                            now_ms,
                        )
                    } else {
                        n.pending_group_control_result == s.pending_group_control_result
                    }
                },
            },
    {
        let mut message_id = String::from_str("group-result-");
        push_u64_digits(&mut message_id, now_ms);
        proof {
            reveal_strlit("group-result-");
        }
        let report = GroupControlReport {
            correlation_id: work.correlation_id.clone(),
            message_id,
            action: work.action,
            target_count,
            succeeded_count,
            failed_count,
            errors,
        };
        if let Some(i) = self.find_id(leader_session_id) {
            let mut e = self.entries.remove(i);
            e.session.group_control_in_flight = false;
            let same = match e.session.connection_id {
                Some(c) => c == work.connection_id,
                None => false,
            };
            if e.session.connected && same {
                e.session.pending_group_control_result = Some(report);
            }
            self.entries.insert(i, e);
        }
    }

    /// The party status members shown to the HUD leader: the connected
    /// peers of its profile that reported a status, ordered by HUD order
    /// then account id; a member whose status is 3 s old or older needs
    /// attention. A session that is not the leader gets no members.
    pub fn collect_party_status_members(&self, leader_session_id: &str, now_ms: u64) -> (r: Result<
        Vec<PartyStatusMember>,
        String,
    >)
        ensures
            match find_first(self.entries@, has_id(leader_session_id@)) {
                None => r matches Err(e) && e@ == "leader session disappeared"@,
                Some(i) => if !self.entries@[i].session.hud_leader {
                    r matches Ok(ms) && ms@.len() == 0
                } else {
                    r matches Ok(ms) && party_members(
                        self.entries@,
                        leader_session_id@,
                        self.entries@[i].session.profile_id@,
                        now_ms,
                        ms@,
                    )
                },
            },
    {
        let li = match self.find_id(leader_session_id) {
            None => {
                return Err(String::from_str("leader session disappeared"));
            },
            Some(i) => i,
        };
        if !self.entries[li].session.hud_leader {
            return Ok(Vec::new());
        }
        let leader_profile = self.entries[li].session.profile_id.as_str();
        let ghost pred = |e: BrokerEntry| is_party_peer(e, leader_session_id@, leader_profile@);
        let ghost es = self.entries@;
        let mut out: Vec<PartyStatusMember> = Vec::new();
        let mut i: usize = 0;
        assert(es.take(0).filter(pred) =~= Seq::<BrokerEntry>::empty()) by {
            reveal(Seq::filter);
        }
        while i < self.entries.len()
            invariant
                es == self.entries@,
                i <= es.len(),
                out@.len() == es.take(i as int).filter(pred).len(),
                forall|j: int|
                    0 <= j < out@.len() ==> member_describes(
                        #[trigger] out@[j],
                        es.take(i as int).filter(pred)[j],
                        now_ms,
                    ),
                forall|e: BrokerEntry| #[trigger] pred(e) == is_party_peer(e, leader_session_id@, leader_profile@),
            decreases es.len() - i,
        {
            proof {
                crate::settings::lemma_filter_take_step(es, i as int, pred);
            }
            let e = &self.entries[i];
            let s = &e.session;
            if !str_eq(e.launch_session_id.as_str(), leader_session_id) && str_eq(
                s.profile_id.as_str(),
                leader_profile,
            ) && s.connected {
                match (&s.latest_status, s.last_status_received_at_ms) {
                    (Some(st), Some(at)) => {
                        let age = now_ms.saturating_sub(at);
                        out.push(
                            PartyStatusMember {
                                account_id: s.account_id.clone(),
                                character_name: st.character_name.clone(),
                                hits: st.hits,
                                hits_max: st.hits_max,
                                mana: st.mana,
                                mana_max: st.mana_max,
                                stamina: st.stamina,
                                stamina_max: st.stamina_max,
                                weight: st.weight,
                                weight_max: st.weight_max,
                                backpack_items: st.backpack_items,
                                backpack_max: st.backpack_max,
                                poisoned: st.poisoned,
                                paralyzed: st.paralyzed,
                                dead: st.dead,
                                attention: age >= PARTY_STATUS_ATTENTION_AFTER_MS,
                                order: s.hud_order,
                            },
                        );
                    },
                    _ => {},
                }
            }
            i = i + 1;
        }
        assert(es.take(es.len() as int) =~= es);
        let ghost unsorted = out@;
        let r = stable_sort(out);
        let ghost peers = party_peers(self.entries@, leader_session_id@, self.entries@[li as int].session.profile_id@);
        assert(pred =~= (|e: BrokerEntry| is_party_peer(e, leader_session_id@, self.entries@[li as int].session.profile_id@)));
        assert(unsorted.len() == peers.len());
        assert(forall|k: int| 0 <= k < unsorted.len() ==> member_describes(#[trigger] unsorted[k], peers[k], now_ms));
        assert(stably_sorted(unsorted, r@));
        assert(party_members(self.entries@, leader_session_id@, self.entries@[li as int].session.profile_id@, now_ms, r@));
        Ok(r)
    }
}


/// Whether the party status is due: at least the write interval has passed
/// since the last write.
pub fn party_status_due(now_ms: u64, last_write_ms: u64) -> (b: bool)
    ensures
        b == (now_ms >= last_write_ms && now_ms - last_write_ms >= PARTY_STATUS_WRITE_INTERVAL_MS),
{
    now_ms.saturating_sub(last_write_ms) >= PARTY_STATUS_WRITE_INTERVAL_MS
}

/// The outcome of taking a session's pending item on a connection's pipe
/// handle: the session must exist and still be on that handle.
pub open spec fn handle_check(es: Seq<BrokerEntry>, id: Seq<char>, handle: usize, stale: Seq<char>) -> Result<int, Seq<char>> {
    match find_first(es, has_id(id)) {
        None => Err("launch session disappeared"@),
        Some(i) => if es[i].session.pipe_handle != Some(handle) {
            Err(stale)
        } else {
            Ok(i)
        },
    }
}

/// A session whose pending group control result was taken.
pub open spec fn result_taken(e: BrokerEntry) -> BrokerEntry {
    BrokerEntry { session: ExpectedSession { pending_group_control_result: None, ..e.session }, ..e }
}

/// A session whose pending layout command was taken.
pub open spec fn command_taken(e: BrokerEntry) -> BrokerEntry {
    BrokerEntry { session: ExpectedSession { pending_apply_layout: false, ..e.session }, ..e }
}

impl BrokerSessions {
    fn check_handle(&self, launch_session_id: &str, handle: usize, stale: &str) -> (r: Result<usize, String>)
        ensures
            match handle_check(self.entries@, launch_session_id@, handle, stale@) {
                Ok(i) => r matches Ok(j) && j as int == i,
                Err(m) => r matches Err(e) && e@ == m,
            },
            r matches Ok(i) ==> i < self.entries@.len(),
    {
        let i = match self.find_id(launch_session_id) {
            None => {
                return Err(String::from_str("launch session disappeared"));
            },
            Some(i) => i,
        };
        let same = match self.entries[i].session.pipe_handle {
            Some(h) => h == handle,
            None => false,
        };
        if !same {
            return Err(String::from_str(stale));
        }
        Ok(i)
    }

    /// The party status to send on a connection: none unless the session
    /// is the HUD leader.
    pub fn party_status_for(&self, launch_session_id: &str, handle: usize, now_ms: u64) -> (r: Result<
        Option<Vec<PartyStatusMember>>,
        String,
    >)
        ensures
            match handle_check(
                self.entries@,
                launch_session_id@,
                handle,
                "party status targeted a stale broker connection"@,
            ) {
                Err(m) => r matches Err(e) && e@ == m,
                Ok(i) => if !self.entries@[i].session.hud_leader {
                    r matches Ok(None)
                } else {
                    r matches Ok(Some(ms)) && party_members(
                        self.entries@,
                        launch_session_id@,
                        self.entries@[i].session.profile_id@,
                        now_ms,
                        ms@,
                    )
                },
            },
    {
        let i = match self.check_handle(launch_session_id, handle, "party status targeted a stale broker connection") {
            Ok(i) => i,
            Err(e) => {
                return Err(e);
            },
        };
        if !self.entries[i].session.hud_leader {
            return Ok(None);
        }
        match self.collect_party_status_members(launch_session_id, now_ms) {
            Ok(ms) => Ok(Some(ms)),
            Err(e) => Err(e),
        }
    }

    /// Takes the group control result waiting for a connection, if any.
    pub fn take_pending_group_control_result(&mut self, launch_session_id: &str, handle: usize) -> (r: Result<
        Option<GroupControlReport>,
        String,
    >)
        ensures
            final(self).next_connection_id == old(self).next_connection_id,
            match handle_check(
                old(self).entries@,
                launch_session_id@,
                handle,
                "group result targeted a stale broker connection"@,
            ) {
                Err(m) => (r matches Err(e) && e@ == m) && final(self).entries@ == old(self).entries@,
                Ok(i) => r == Ok::<Option<GroupControlReport>, String>(
                    old(self).entries@[i].session.pending_group_control_result,
                ) && final(self).entries@ == old(self).entries@.update(i, result_taken(old(self).entries@[i])),
            },
    {
        let i = match self.check_handle(launch_session_id, handle, "group result targeted a stale broker connection") {
            Ok(i) => i,
            Err(e) => {
                return Err(e);
            },
        };
        let ghost before = self.entries@;
        let mut e = self.entries.remove(i);
        let taken = e.session.pending_group_control_result.take();
        self.entries.insert(i, e);
        assert(self.entries@ =~= before.update(i as int, result_taken(before[i as int])));
        Ok(taken)
    }

    /// Puts back a group control result whose write failed, unless the
    /// connection changed or another result is waiting.
    pub fn restore_pending_group_control_result(
        &mut self,
        launch_session_id: &str,
        handle: usize,
        report: GroupControlReport,
    )
        ensures
            final(self).next_connection_id == old(self).next_connection_id,
            match find_first(old(self).entries@, has_id(launch_session_id@)) {
                Some(i) => if old(self).entries@[i].session.pipe_handle == Some(handle)
                    && old(self).entries@[i].session.pending_group_control_result is None {
                    final(self).entries@ == old(self).entries@.update(
                        i,
                        BrokerEntry {
                            session: ExpectedSession {
                                pending_group_control_result: Some(report),
                                ..old(self).entries@[i].session
                            },
                            ..old(self).entries@[i]
                        },
                    )
                } else {
                    final(self).entries@ == old(self).entries@
                },
                None => final(self).entries@ == old(self).entries@,
            },
    {
        if let Some(i) = self.find_id(launch_session_id) {
            let same = match self.entries[i].session.pipe_handle {
                Some(h) => h == handle,
                None => false,
            };
            if same && self.entries[i].session.pending_group_control_result.is_none() {
                let ghost before = self.entries@;
                let ghost rep = report;
                let mut e = self.entries.remove(i);
                e.session.pending_group_control_result = Some(report);
                self.entries.insert(i, e);
                assert(self.entries@ =~= before.update(
                    i as int,
                    BrokerEntry {
                        session: ExpectedSession { pending_group_control_result: Some(rep), ..before[i as int].session },
                        ..before[i as int]
                    },
                ));
            }
        }
    }

    /// Takes the layout command waiting for a connection: its message id,
    /// "cmd-<connection>-<now>".
    pub fn take_pending_command(&mut self, launch_session_id: &str, handle: usize, now_ms: u64) -> (r: Result<
        Option<String>,
        String,
    >)
        ensures
            final(self).next_connection_id == old(self).next_connection_id,
            match handle_check(
                old(self).entries@,
                launch_session_id@,
                handle,
                "pending command targeted a stale broker connection"@,
            ) {
                Err(m) => (r matches Err(e) && e@ == m) && final(self).entries@ == old(self).entries@,
                Ok(i) => if !old(self).entries@[i].session.pending_apply_layout {
                    r matches Ok(None) && final(self).entries@ == old(self).entries@
                } else {
                    (r matches Ok(Some(id)) && id@ == "cmd-"@ + nat_digits(
                        match old(self).entries@[i].session.connection_id {
                            Some(c) => c as nat,
                            None => 0,
                        },
                    ) + "-"@ + nat_digits(now_ms as nat)) && final(self).entries@ == old(self).entries@.update(
                        i,
                        command_taken(old(self).entries@[i]),
                    )
                },
            },
    {
        let i = match self.check_handle(launch_session_id, handle, "pending command targeted a stale broker connection") {
            Ok(i) => i,
            Err(e) => {
                return Err(e);
            },
        };
        if !self.entries[i].session.pending_apply_layout {
            return Ok(None);
        }
        let connection_id = match self.entries[i].session.connection_id {
            Some(c) => c,
            None => 0,
        };
        let ghost before = self.entries@;
        let mut e = self.entries.remove(i);
        e.session.pending_apply_layout = false;
        self.entries.insert(i, e);
        assert(self.entries@ =~= before.update(i as int, command_taken(before[i as int])));
        let mut id = String::from_str("cmd-");
        push_u64_digits(&mut id, connection_id);
        push_str(&mut id, "-");
        push_u64_digits(&mut id, now_ms);
        proof {
            reveal_strlit("cmd-");
            reveal_strlit("-");
        }
        Ok(Some(id))
    }

    /// Queues the layout command again after its write failed.
    pub fn requeue_command(&mut self, launch_session_id: &str)
        ensures
            final(self).next_connection_id == old(self).next_connection_id,
            match find_first(old(self).entries@, has_id(launch_session_id@)) {
                Some(i) => final(self).entries@ == old(self).entries@.update(i, layout_queued(old(self).entries@[i])),
                None => final(self).entries@ == old(self).entries@,
            },
    {
        if let Some(i) = self.find_id(launch_session_id) {
            let ghost before = self.entries@;
            let mut e = self.entries.remove(i);
            e.session.pending_apply_layout = true;
            self.entries.insert(i, e);
            assert(self.entries@ =~= before.update(i as int, layout_queued(before[i as int])));
        }
    }
}

/// The counts and errors of a finished group action: `(target count,
/// succeeded, failed, errors)`.
pub open spec fn group_tally(
    targets: Result<Seq<GroupControlTarget>, Seq<char>>,
    outcomes: Seq<Result<(), String>>,
) -> (nat, nat, nat, Seq<Seq<char>>)
    decreases outcomes.len(),
{
    match targets {
        Err(e) => (0, 0, 1, seq![e]),
        Ok(ts) => if outcomes.len() == 0 {
            (ts.len(), 0, 0, Seq::empty())
        } else {
            let prev = group_tally(targets, outcomes.drop_last());
            match outcomes.last() {
                Ok(()) => (prev.0, prev.1 + 1, prev.2, prev.3),
                Err(e) => (
                    prev.0,
                    prev.1,
                    prev.2 + 1,
                    prev.3.push(ts[outcomes.len() - 1].account_id@ + ": "@ + e@),
                ),
            }
        },
    }
}

/// Counts the outcomes of a group action, one per target in order; an
/// error is reported with the account it concerns. When the targets could
/// not be collected, that is the one failure.
pub fn tally_group_control(
    targets: &Result<Vec<GroupControlTarget>, String>,
    outcomes: &Vec<Result<(), String>>,
) -> (r: (usize, usize, usize, Vec<String>))
    requires
        targets matches Ok(ts) ==> ts@.len() == outcomes@.len(),
    ensures
        ({
            let t = group_tally(
                match targets {
                    Ok(ts) => Ok(ts@),
                    Err(e) => Err(e@),
                },
                outcomes@,
            );
            r.0 == t.0 && r.1 == t.1 && r.2 == t.2 && crate::launcher::texts(r.3@) == t.3
        }),
{
    match targets {
        Err(e) => {
            let mut errors: Vec<String> = Vec::new();
            errors.push(e.clone());
            assert(crate::launcher::texts(errors@) =~= seq![e@]);
            (0, 0, 1, errors)
        },
        Ok(ts) => {
            let ghost tv: Result<Seq<GroupControlTarget>, Seq<char>> = Ok(ts@);
            let mut succeeded: usize = 0;
            let mut failed: usize = 0;
            let mut errors: Vec<String> = Vec::new();
            let mut i: usize = 0;
            assert(outcomes@.take(0) =~= Seq::<Result<(), String>>::empty());
            assert(crate::launcher::texts(errors@) =~= Seq::<Seq<char>>::empty());
            while i < outcomes.len()
                invariant
                    ts@.len() == outcomes@.len(),
                    tv == Ok::<Seq<GroupControlTarget>, Seq<char>>(ts@),
                    i <= outcomes@.len(),
                    succeeded + failed == i,
                    ({
                        let t = group_tally(tv, outcomes@.take(i as int));
                        t.0 == ts@.len() && t.1 == succeeded && t.2 == failed && crate::launcher::texts(errors@)
                            == t.3
                    }),
                decreases outcomes@.len() - i,
            {
                let ghost prefix = outcomes@.take(i as int + 1);
                assert(prefix.drop_last() =~= outcomes@.take(i as int));
                assert(prefix.last() == outcomes@[i as int]);
                match &outcomes[i] {
                    Ok(()) => {
                        succeeded = succeeded + 1;
                    },
                    Err(e) => {
                        failed = failed + 1;
                        let mut msg = ts[i].account_id.clone();
                        push_str(&mut msg, ": ");
                        push_str(&mut msg, e.as_str());
                        proof {
                            reveal_strlit(": ");
                        }
                        let ghost before = crate::launcher::texts(errors@);
                        errors.push(msg);
                        assert(crate::launcher::texts(errors@) =~= before.push(msg@));
                    },
                }
                i = i + 1;
            }
            assert(outcomes@.take(outcomes@.len() as int) =~= outcomes@);
            (ts.len(), succeeded, failed, errors)
        },
    }
}

/// Takes the first complete line (up to a newline byte) from the bytes
/// read so far; the newline is dropped.
pub fn take_line(pending: &mut Vec<u8>) -> (r: Option<Vec<u8>>)
    ensures
        match r {
            Some(line) => {
                let k = line@.len() as int;
                &&& k < old(pending)@.len()
                &&& old(pending)@[k] == 10u8
                &&& forall|j: int| 0 <= j < k ==> old(pending)@[j] != 10u8
                &&& line@ == old(pending)@.take(k)
                &&& final(pending)@ == old(pending)@.skip(k + 1)
            },
            None => forall|j: int| 0 <= j < old(pending)@.len() ==> old(pending)@[j] != 10u8
                && final(pending)@ == old(pending)@,
        },
{
    let mut k: usize = 0;
    while k < pending.len()
        invariant
            k <= pending@.len(),
            pending@ == old(pending)@,
            forall|j: int| 0 <= j < k ==> pending@[j] != 10u8,
        decreases pending@.len() - k,
    {
        if pending[k] == 10u8 {
            let ghost orig = pending@;
            let mut line: Vec<u8> = Vec::new();
            let mut m: usize = 0;
            while m < k
                invariant
                    m <= k < orig.len(),
                    pending@ == orig,
                    line@ == orig.take(m as int),
                decreases k - m,
            {
                line.push(pending[m]);
                m = m + 1;
                assert(line@ =~= orig.take(m as int));
            }
            let mut rest: Vec<u8> = Vec::new();
            let mut m: usize = k + 1;
            while m < pending.len()
                invariant
                    k + 1 <= m <= orig.len(),
                    pending@ == orig,
                    rest@ == orig.subrange(k as int + 1, m as int),
                decreases orig.len() - m,
            {
                rest.push(pending[m]);
                m = m + 1;
                assert(rest@ =~= orig.subrange(k as int + 1, m as int));
            }
            *pending = rest;
            assert(pending@ =~= orig.skip(k as int + 1));
            return Some(line);
        }
        k = k + 1;
    }
    None
}

/// Appends bytes read from the pipe; a message longer than the limit is an
/// error.
pub fn append_read(pending: &mut Vec<u8>, bytes: &[u8]) -> (r: Result<(), String>)
    ensures
        final(pending)@ == old(pending)@ + bytes@,
        r is Ok <==> old(pending)@.len() + bytes@.len() <= MAX_MESSAGE_BYTES,
        r matches Err(e) ==> e@ == "broker message exceeded 32 KiB"@,
{
    let mut i: usize = 0;
    while i < bytes.len()
        invariant
            i <= bytes@.len(),
            pending@ == old(pending)@ + bytes@.take(i as int),
        decreases bytes@.len() - i,
    {
        pending.push(bytes[i]);
        i = i + 1;
        assert(pending@ =~= old(pending)@ + bytes@.take(i as int));
    }
    assert(bytes@.take(bytes@.len() as int) =~= bytes@);
    if pending.len() > MAX_MESSAGE_BYTES {
        Err(String::from_str("broker message exceeded 32 KiB"))
    } else {
        Ok(())
    }
}

/// A connection that has just authenticated is the session's current one.
pub proof fn lemma_authenticated_connection_is_current(e: BrokerEntry, id: u64, handle: usize)
    ensures
        is_current_connection(authenticated_entry(e, id, handle).session, ConnectionIdentity { id, handle }),
{
}

/// Once a client reconnects, its earlier connection is stale: nothing it
/// sends is accepted any more, even on a reused pipe handle.
pub proof fn lemma_reconnect_makes_earlier_connection_stale(
    e: BrokerEntry,
    earlier: ConnectionIdentity,
    id: u64,
    handle: usize,
)
    requires
        earlier.id != id,
    ensures
        !is_current_connection(authenticated_entry(e, id, handle).session, earlier),
{
}

/// A disconnected session accepts nothing from any connection.
pub proof fn lemma_disconnected_session_accepts_nothing(e: BrokerEntry, caller: ConnectionIdentity)
    ensures
        !is_current_connection(disconnected_entry(e).session, caller),
{
}

/// The leader's party status shows each peer's own status: every member has
/// the mana, stamina, hit points and weight (current and maximum), backpack
/// fill, conditions and character name of the latest status reported by one
/// of the party peers (a connected session of the leader's profile other
/// than the leader), under that peer's account id and HUD order, and asks
/// for attention once that status is 3 s old; there is one member per peer.
pub proof fn lemma_party_members_show_their_own_status(
    es: Seq<BrokerEntry>,
    leader_id: Seq<char>,
    profile: Seq<char>,
    now_ms: u64,
    ms: Seq<PartyStatusMember>,
    j: int,
)
    requires
        party_members(es, leader_id, profile, now_ms, ms),
        0 <= j < ms.len(),
    ensures
        exists|k: int|
            0 <= k < party_peers(es, leader_id, profile).len() && {
                let e = #[trigger] party_peers(es, leader_id, profile)[k];
                let st = e.session.latest_status->Some_0;
                &&& ms[j].account_id@ == e.session.account_id@
                &&& ms[j].mana == st.mana && ms[j].mana_max == st.mana_max
                &&& ms[j].stamina == st.stamina && ms[j].stamina_max == st.stamina_max
                &&& ms[j].hits == st.hits && ms[j].hits_max == st.hits_max
                &&& ms[j].weight == st.weight && ms[j].weight_max == st.weight_max
                &&& ms[j].backpack_items == st.backpack_items && ms[j].backpack_max == st.backpack_max
                &&& ms[j].poisoned == st.poisoned && ms[j].paralyzed == st.paralyzed && ms[j].dead == st.dead
                &&& ms[j].character_name@ == st.character_name@
                &&& ms[j].order == e.session.hud_order
                &&& ms[j].attention == (now_ms - e.session.last_status_received_at_ms->Some_0 >= 3000)
                &&& e.launch_session_id@ != leader_id
                &&& e.session.profile_id@ == profile
                &&& e.session.connected
                &&& es.contains(e)
            },
        ms.len() == party_peers(es, leader_id, profile).len(),
{
    let unsorted = choose|unsorted: Seq<PartyStatusMember>|
        #![trigger stably_sorted(unsorted, ms)]
        {
            let peers = party_peers(es, leader_id, profile);
            &&& unsorted.len() == peers.len()
            &&& forall|k: int| 0 <= k < unsorted.len() ==> member_describes(#[trigger] unsorted[k], peers[k], now_ms)
            &&& stably_sorted(unsorted, ms)
        };
    let perm = choose|perm: Seq<int>| #[trigger] crate::sort::sorted_by_perm(unsorted, ms, perm);
    let k = perm[j];
    assert(ms[j] == unsorted[k]);
    let peers = party_peers(es, leader_id, profile);
    let pred = |e: BrokerEntry| is_party_peer(e, leader_id, profile);
    assert(member_describes(unsorted[k], peers[k], now_ms));
    es.lemma_filter_pred(pred, k);
    es.lemma_filter_contains_rev(pred, peers[k]);
    assert(peers.contains(peers[k]));
}

proof fn lemma_decimal_digits_value(n: nat)
    ensures
        crate::text::nat_digits(n).len() > 0,
        all_digits(crate::text::nat_digits(n)),
        digits_value(crate::text::nat_digits(n)) == n,
    decreases n,
{
    let t = crate::text::nat_digits(n);
    let d = crate::text::digit_char((n % 10) as nat);
    assert(digit_value(d) == n % 10);
    if n < 10 {
        assert(t.drop_last() =~= Seq::<char>::empty());
        assert(t.last() == d);
        assert(digits_value(t.drop_last()) == 0);
        assert(digits_value(t) == digits_value(t.drop_last()) * 10 + digit_value(d));
        assert(digits_value(t) == n);
    } else {
        lemma_decimal_digits_value(n / 10);
        let p = crate::text::nat_digits(n / 10);
        assert(t.drop_last() =~= p);
        assert(t.last() == d);
        assert(digits_value(t) == digits_value(p) * 10 + digit_value(d));
        assert((n / 10) * 10 + n % 10 == n);
        assert(digits_value(t) == n);
        assert forall|i: int| 0 <= i < t.len() implies is_digit(#[trigger] t[i]) by {
            if i < p.len() {
                assert(t[i] == p[i]);
            }
        }
    }
}

/// Numbers read back as written: the decimal text of a number that fits a
/// `usize` parses to that number, with or without a leading `+`.
pub proof fn lemma_parse_usize_reads_decimal_text(n: nat)
    requires
        n <= usize::MAX,
    ensures
        parse_usize_text(crate::text::nat_digits(n)) == Some(n),
        parse_usize_text(seq!['+'] + crate::text::nat_digits(n)) == Some(n),
{
    lemma_decimal_digits_value(n);
    let t = crate::text::nat_digits(n);
    assert(t[0] != '+');
    assert((seq!['+'] + t).drop_first() =~= t);
}

} // verus!
