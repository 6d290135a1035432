//! Profiles, server settings and accounts as the launcher stores them.

use vstd::prelude::*;
use crate::text::push_str;

verus! {

/// A cell of the secondary-monitor layout that an account's window may be
/// placed in.
#[derive(Debug, Clone, Copy, PartialEq, Eq, Hash, Structural)]
pub enum SecondarySlot {
    R0c0,
    R0c1,
    R1c0,
    R1c1,
    Center,
}

/// The name of a slot, as used in grids and messages.
pub open spec fn slot_name(slot: SecondarySlot) -> Seq<char> {
    match slot {
        SecondarySlot::R0c0 => "r0c0"@,
        SecondarySlot::R0c1 => "r0c1"@,
        SecondarySlot::R1c0 => "r1c0"@,
        SecondarySlot::R1c1 => "r1c1"@,
        SecondarySlot::Center => "center"@,
    }
}

/// Stacking and control order of a slot: grid cells first, the centre last.
pub open spec fn slot_order(slot: SecondarySlot) -> u8 {
    match slot {
        SecondarySlot::R0c0 => 0,
        SecondarySlot::R0c1 => 1,
        SecondarySlot::R1c0 => 2,
        SecondarySlot::R1c1 => 3,
        SecondarySlot::Center => 4,
    }
}

impl SecondarySlot {
    pub fn as_str(self) -> (s: &'static str)
        ensures
            s@ == slot_name(self),
    {
        proof {
            reveal_strlit("r0c0");
            reveal_strlit("r0c1");
            reveal_strlit("r1c0");
            reveal_strlit("r1c1");
            reveal_strlit("center");
        }
        match self {
            SecondarySlot::R0c0 => "r0c0",
            SecondarySlot::R0c1 => "r0c1",
            SecondarySlot::R1c0 => "r1c0",
            SecondarySlot::R1c1 => "r1c1",
            SecondarySlot::Center => "center",
        }
    }

    pub fn order(self) -> (o: u8)
        ensures
            o == slot_order(self),
    {
        match self {
            SecondarySlot::R0c0 => 0,
            SecondarySlot::R0c1 => 1,
            SecondarySlot::R1c0 => 2,
            SecondarySlot::R1c1 => 3,
            SecondarySlot::Center => 4,
        }
    }
}

/// Which cells a profile's secondary monitor is divided into.
#[derive(Debug, Clone, Copy, PartialEq, Eq, Structural)]
pub enum SecondaryLayoutPreset {
    TwoByTwo,
    TwoByTwoCenter,
}

/// Whether a preset offers a slot: the centre cell exists only in the
/// centred preset.
pub open spec fn preset_allows(preset: SecondaryLayoutPreset, slot: SecondarySlot) -> bool {
    match preset {
        SecondaryLayoutPreset::TwoByTwo => slot != SecondarySlot::Center,
        SecondaryLayoutPreset::TwoByTwoCenter => true,
    }
}

impl SecondaryLayoutPreset {
    pub fn allows(self, slot: SecondarySlot) -> (b: bool)
        ensures
            b == preset_allows(self, slot),
    {
        match self {
            SecondaryLayoutPreset::TwoByTwo => match slot {
                SecondarySlot::Center => false,
                _ => true,
            },
            SecondaryLayoutPreset::TwoByTwoCenter => true,
        }
    }
}

impl Default for SecondaryLayoutPreset {
    fn default() -> (p: Self)
        ensures
            p == SecondaryLayoutPreset::TwoByTwo,
    {
        SecondaryLayoutPreset::TwoByTwo
    }
}

#[derive(Debug, Clone)]
pub struct Profile {
    pub id: String,
    pub name: String,
    pub uo_path: String,
    pub cuo_path: Option<String>,
    pub server: ServerConfig,
    pub client_version: Option<String>,
    pub secondary_layout_preset: SecondaryLayoutPreset,
}

#[derive(Debug, Clone)]
pub struct ServerConfig {
    pub address: String,
    pub port: u16,
    pub encryption: EncryptionType,
    /// Accounts of this profile.
    pub accounts: Vec<Account>,
    /// Active account id (used by a single PLAY).
    pub active_account_id: Option<String>,
    /// Legacy credentials, moved into `accounts` when settings are loaded.
    pub username: String,
    pub password_encrypted: String,
}

#[derive(Debug, Clone)]
pub struct Account {
    pub id: String,
    pub username: String,
    /// Password as stored ("dpapi:<base64>" or legacy plain text).
    pub password_encrypted: String,
    /// Character to select; empty or absent stops at server selection.
    pub character_name: Option<String>,
    /// Display name; the username is shown when absent.
    pub display_name: Option<String>,
    /// Whether the account takes part in MULTI LOGIN. Absent means the
    /// legacy default: the first six accounts of the profile.
    pub multi_enabled: Option<bool>,
    /// Secondary-monitor cell for this account's window, if managed.
    pub secondary_slot: Option<SecondarySlot>,
}

#[derive(Debug, Clone, Copy, PartialEq, Eq, Structural)]
pub enum EncryptionType {
    Auto,
    Unencrypted,
    OldBlowfish,
    Blowfish125,
    Twofish,
}

impl Default for EncryptionType {
    fn default() -> (e: Self)
        ensures
            e == EncryptionType::Auto,
    {
        EncryptionType::Auto
    }
}

/// The number ClassicUO's `-encryption` argument uses for a type.
pub open spec fn encryption_number(e: EncryptionType) -> Seq<char> {
    match e {
        EncryptionType::Auto => "0"@,
        EncryptionType::Unencrypted => "1"@,
        EncryptionType::OldBlowfish => "2"@,
        EncryptionType::Blowfish125 => "3"@,
        EncryptionType::Twofish => "4"@,
    }
}

impl EncryptionType {
    pub fn cuo_number(self) -> (s: &'static str)
        ensures
            s@ == encryption_number(self),
    {
        proof {
            reveal_strlit("0");
            reveal_strlit("1");
            reveal_strlit("2");
            reveal_strlit("3");
            reveal_strlit("4");
        }
        match self {
            EncryptionType::Auto => "0",
            EncryptionType::Unencrypted => "1",
            EncryptionType::OldBlowfish => "2",
            EncryptionType::Blowfish125 => "3",
            EncryptionType::Twofish => "4",
        }
    }
}

/// Seed of the id suffix generator for a given clock reading.
pub open spec fn id_seed(secs: u64) -> u64 {
    (((secs as int * 2862933555777941757int) % 0x1_0000_0000_0000_0000int + 3037000493int)
        % 0x1_0000_0000_0000_0000int) as u64
}

/// The base-36 character of a digit 0..36.
pub open spec fn base36_char(c: nat) -> char {
    if c < 10 {
        ((48 + c) as u32) as char
    } else {
        ((97 + c - 10) as u32) as char
    }
}

/// `count` base-36 digits of `x`, least significant first.
pub open spec fn base36_suffix(x: nat, count: nat) -> Seq<char>
    decreases count,
{
    if count == 0 {
        Seq::empty()
    } else {
        seq![base36_char(x % 36)] + base36_suffix(x / 36, (count - 1) as nat)
    }
}

/// Base-36 digits (0-9, a-z) of a natural number, most significant first,
/// without leading zeros ("0" for zero).
pub open spec fn base36_digits(n: nat) -> Seq<char>
    decreases n,
{
    if n < 36 {
        seq![base36_char(n)]
    } else {
        base36_digits(n / 36) + seq![base36_char(n % 36)]
    }
}

/// The account id generated for a clock reading:
/// "a_<base-36 seconds>_<4 base-36 chars>".
pub open spec fn account_id_text(secs: u64) -> Seq<char> {
    "a_"@ + base36_digits(secs as nat) + "_"@ + base36_suffix(id_seed(secs) as nat, 4)
}

fn base36_digit_char(d: u64) -> (c: char)
    requires
        d < 36,
    ensures
        c == base36_char(d as nat),
{
    let b = d as u8;
    if b < 10 {
        (48u8 + b) as char
    } else {
        (97u8 + (b - 10)) as char
    }
}

/// Appends the base-36 digits of a number.
fn push_base36_digits(out: &mut String, n: u64)
    ensures
        final(out)@ == old(out)@ + base36_digits(n as nat),
    decreases n,
{
    if n >= 36 {
        push_base36_digits(out, n / 36);
    }
    out.push(base36_digit_char(n % 36));
}

/// Builds the short account id for a given number of seconds since the epoch.
pub fn account_id_from_secs(secs: u64) -> (id: String)
    ensures
        id@ == account_id_text(secs),
{
    let mut x: u64 = secs.wrapping_mul(2862933555777941757).wrapping_add(3037000493);
    assert(x == id_seed(secs));
    let mut suffix = String::new();
    let mut i: u64 = 0;
    while i < 4
        invariant
            i <= 4,
            suffix@ + base36_suffix(x as nat, (4 - i) as nat) == base36_suffix(
                id_seed(secs) as nat,
                4,
            ),
        decreases 4 - i,
    {
        let c = (x % 36) as u8;
        let ch = if c < 10 {
            (48u8 + c) as char
        } else {
            (97u8 + (c - 10)) as char
        };
        assert(ch == base36_char((x % 36) as nat));
        let ghost before = suffix@;
        suffix.push(ch);
        assert(base36_suffix(x as nat, (4 - i) as nat) == seq![ch] + base36_suffix(
            (x / 36) as nat,
            (4 - i - 1) as nat,
        ));
        assert(suffix@ + base36_suffix((x / 36) as nat, (4 - i - 1) as nat) =~= before
            + base36_suffix(x as nat, (4 - i) as nat));
        x = x / 36;
        i = i + 1;
    }
    assert(suffix@ =~= base36_suffix(id_seed(secs) as nat, 4));
    let mut id = String::new();
    push_str(&mut id, "a_");
    push_base36_digits(&mut id, secs);
    push_str(&mut id, "_");
    push_str(&mut id, suffix.as_str());
    proof {
        reveal_strlit("a_");
        reveal_strlit("_");
    }
    assert(id@ =~= account_id_text(secs));
    id
}

/// Short random-looking account id ("a_<base-36 epoch seconds>_<4 base-36 chars>")
/// derived from the current clock.
pub fn new_account_id() -> (id: String)
    ensures
        exists|secs: u64| id@ == account_id_text(secs),
{
    account_id_from_secs(crate::time::unix_time_secs())
}

} // verus!
