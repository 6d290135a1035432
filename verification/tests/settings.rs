use ggo_launcher::profile::{
    account_id_from_secs, Account, EncryptionType, Profile, SecondaryLayoutPreset, ServerConfig,
};
use ggo_launcher::settings::{migrate, Settings, UiSettings};

fn profile(id: &str) -> Profile {
    Profile {
        id: id.to_string(),
        name: id.to_string(),
        uo_path: String::new(),
        cuo_path: None,
        server: ServerConfig {
            address: "localhost".to_string(),
            port: 2593,
            encryption: EncryptionType::Auto,
            accounts: Vec::new(),
            active_account_id: None,
            username: String::new(),
            password_encrypted: String::new(),
        },
        client_version: None,
        secondary_layout_preset: SecondaryLayoutPreset::default(),
    }
}

fn account(id: &str) -> Account {
    Account {
        id: id.to_string(),
        username: format!("user-{id}"),
        password_encrypted: String::new(),
        character_name: None,
        display_name: None,
        multi_enabled: None,
        secondary_slot: None,
    }
}

#[test]
fn legacy_main_profiles_become_profile_order() {
    let mut settings = Settings {
        active_profile_id: Some("c".to_string()),
        profiles: vec![profile("a"), profile("b"), profile("c")],
        plugins: Vec::new(),
        ui: UiSettings {
            main_profile_ids: Some(vec!["b".to_string(), "a".to_string()]),
            ..UiSettings::default()
        },
    };

    migrate(&mut settings);

    let ids: Vec<&str> = settings.profiles.iter().map(|p| p.id.as_str()).collect();
    assert_eq!(ids, vec!["b", "a", "c"]);
    assert_eq!(settings.active_profile_id.as_deref(), Some("c"));
    assert!(settings.ui.main_profile_ids.is_none());
}

#[test]
fn missing_active_profile_falls_back_to_first_profile() {
    let mut settings = Settings {
        active_profile_id: Some("missing".to_string()),
        profiles: vec![profile("a"), profile("b")],
        plugins: Vec::new(),
        ui: UiSettings::default(),
    };

    migrate(&mut settings);

    assert_eq!(settings.active_profile_id.as_deref(), Some("a"));
}

#[test]
fn legacy_credentials_become_the_first_account() {
    let mut p = profile("a");
    p.server.username = "legacy".to_string();
    p.server.password_encrypted = "plain:secret".to_string();
    let mut settings = Settings { profiles: vec![p], ..Settings::default() };

    migrate(&mut settings);

    let server = &settings.profiles[0].server;
    assert_eq!(server.accounts.len(), 1);
    assert_eq!(server.accounts[0].username, "legacy");
    assert_eq!(server.accounts[0].password_encrypted, "plain:secret");
    assert_eq!(server.accounts[0].multi_enabled, Some(true));
    assert!(server.username.is_empty());
    assert!(server.password_encrypted.is_empty());
    assert_eq!(server.active_account_id.as_deref(), Some(server.accounts[0].id.as_str()));
    assert!(server.accounts[0].id.starts_with("a_"));
    assert_eq!(settings.active_profile_id.as_deref(), Some("a"));
}

#[test]
fn missing_active_account_falls_back_to_first_account() {
    let mut p = profile("a");
    p.server.accounts = vec![account("x"), account("y")];
    p.server.active_account_id = Some("gone".to_string());
    let mut settings = Settings { profiles: vec![p], ..Settings::default() };

    migrate(&mut settings);

    assert_eq!(settings.profiles[0].server.active_account_id.as_deref(), Some("x"));
}

#[test]
fn migration_twice_changes_nothing_more() {
    let mut settings = Settings {
        active_profile_id: Some("missing".to_string()),
        profiles: vec![profile("a"), profile("b")],
        plugins: Vec::new(),
        ui: UiSettings {
            main_profile_ids: Some(vec!["b".to_string()]),
            ..UiSettings::default()
        },
    };
    migrate(&mut settings);
    let once: Vec<String> = settings.profiles.iter().map(|p| p.id.clone()).collect();
    let active = settings.active_profile_id.clone();
    migrate(&mut settings);
    let twice: Vec<String> = settings.profiles.iter().map(|p| p.id.clone()).collect();
    assert_eq!(once, twice);
    assert_eq!(settings.active_profile_id, active);
    assert_eq!(once, vec!["b".to_string(), "a".to_string()]);
}

#[test]
fn no_profiles_means_no_active_profile() {
    let mut settings = Settings { active_profile_id: Some("x".to_string()), ..Settings::default() };
    migrate(&mut settings);
    assert!(settings.active_profile_id.is_none());
}

#[test]
fn account_ids_are_base36_seconds_and_a_base36_suffix() {
    // 0x1234 = 4660 = 3 * 36^2 + 21 * 36 + 16
    let id = account_id_from_secs(0x1234);
    assert!(id.starts_with("a_3lg_"));
    assert_eq!(id.len(), "a_3lg_".len() + 4);
    assert!(id["a_3lg_".len()..].chars().all(|c| c.is_ascii_digit() || c.is_ascii_lowercase()));
    assert_eq!(account_id_from_secs(0x1234), id);
    assert!(account_id_from_secs(36).starts_with("a_10_"));
    assert!(account_id_from_secs(0).starts_with("a_0_"));
}
