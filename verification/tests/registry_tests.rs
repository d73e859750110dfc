use drive_fuse::app_config::AppConfig;
use drive_fuse::codec::ConfigError;
use drive_fuse::enums::{AppTheme, Message, StorageType, Tab};
use drive_fuse::error_app::{check_dependencies, ErrorApp};
use drive_fuse::name_map::NameMap;
use drive_fuse::platform::Platform;
use drive_fuse::rclone::{Rclone, RegistryError};
use drive_fuse::text::{stripped_text, white_space};

const TOKEN: &str = "token = {\"access_token\":\"x\",\"expiry\":\"2030-01-01T00:00:00Z\"}";

fn lines(text: &[&str]) -> Vec<String> {
    text.iter().map(|s| s.to_string()).collect()
}

fn registry_text() -> Vec<String> {
    lines(&["[Work]", "type = drive", TOKEN, "", "[Home]", "type = dropbox", TOKEN, ""])
}

#[test]
fn init_reads_the_registry() {
    let registry = Rclone::init(&registry_text()).unwrap();
    assert_eq!(registry.names(), lines(&["Work", "Home"]));
    assert!(registry.contains("Work"));
    assert!(!registry.contains("work"));
    assert_eq!(
        Rclone::init(&lines(&["[Work]", "type = drive", ""])).unwrap_err(),
        ConfigError::MissingToken { line: 0 }
    );
    assert_eq!(Rclone::init(&Vec::new()).unwrap().storages.len(), 0);
}

#[test]
fn reload_replaces_the_storages_or_keeps_them() {
    let mut registry = Rclone::init(&registry_text()).unwrap();
    assert_eq!(registry.reload(&lines(&["[Only]", TOKEN])), Ok(()));
    assert_eq!(registry.names(), lines(&["Only"]));
    assert_eq!(
        registry.reload(&lines(&["[Bad]", "token = nope"])),
        Err(ConfigError::InvalidToken { line: 1 })
    );
    assert_eq!(registry.names(), lines(&["Only"]));
}

#[test]
fn add_storage_builds_the_provider_command() {
    let registry = Rclone::init(&registry_text()).unwrap();
    let cmd = registry.add_storage("  Photos ", StorageType::GooglePhotos).unwrap();
    assert_eq!(cmd.program, "rclone");
    assert!(!cmd.show_terminal);
    assert_eq!(
        cmd.args,
        lines(&["config", "create", "Photos", "googlephotos", "config_is_local=true"])
    );
    assert_eq!(registry.storages.len(), 2);
    let cmd = registry.add_storage("My Cloud", StorageType::NextCloud).unwrap();
    assert_eq!(cmd.args[2], "My Cloud");
    assert_eq!(cmd.args[3], "nextcloud");
}

#[test]
fn add_storage_checks_the_name() {
    let registry = Rclone::init(&registry_text()).unwrap();
    assert_eq!(
        registry.add_storage("", StorageType::GoogleDrive).unwrap_err(),
        RegistryError::EmptyName
    );
    assert_eq!(
        registry.add_storage("   ", StorageType::GoogleDrive).unwrap_err(),
        RegistryError::EmptyName
    );
    assert_eq!(
        registry.add_storage("Work", StorageType::OneDrive).unwrap_err(),
        RegistryError::DuplicateName
    );
    assert_eq!(
        registry.add_storage(" Home  ", StorageType::OneDrive).unwrap_err(),
        RegistryError::DuplicateName
    );
}

#[test]
fn rename_rewrites_the_first_matching_header_only() {
    let text = lines(&[
        "# note",
        "[Work]",
        "type = drive",
        "name = [Work]",
        TOKEN,
        "",
        "[Work]",
        "type = dropbox",
        TOKEN,
    ]);
    let mut registry = Rclone::init(&text).unwrap();
    let renamed = registry.edit_storage_name(&text, "Work", "Office").unwrap();
    let mut expected = text.clone();
    expected[1] = "[Office]".to_string();
    assert_eq!(renamed, expected);
    assert_eq!(registry.names(), lines(&["Office", "Work"]));
    assert_eq!(registry.storages[0].drive_type, "drive");
    assert_eq!(Rclone::init(&renamed).unwrap(), registry);
}

#[test]
fn rename_is_refused_without_change() {
    let text = registry_text();
    let mut registry = Rclone::init(&text).unwrap();
    let before = registry.clone();
    assert_eq!(
        registry.edit_storage_name(&text, "Gone", "New").unwrap_err(),
        RegistryError::NotFound
    );
    assert_eq!(
        registry.edit_storage_name(&text, "Work", "").unwrap_err(),
        RegistryError::EmptyName
    );
    assert_eq!(
        registry.edit_storage_name(&text, "Work", "Home").unwrap_err(),
        RegistryError::DuplicateName
    );
    assert_eq!(registry, before);
    assert_eq!(registry.edit_storage_name(&text, "Work", "Work").unwrap(), text);
    assert_eq!(registry, before);
}

#[test]
fn remove_follows_the_provider_tool() {
    let cmd = Rclone::remove_command("Work");
    assert_eq!(cmd.program, "rclone");
    assert_eq!(cmd.args, lines(&["config", "delete", "Work"]));
    let mut registry = Rclone::init(&registry_text()).unwrap();
    assert!(!registry.remove_storage("Work", false));
    assert_eq!(registry.names(), lines(&["Work", "Home"]));
    assert!(registry.remove_storage("Work", true));
    assert_eq!(registry.names(), lines(&["Home"]));
    assert!(registry.remove_storage("Gone", true));
    assert_eq!(registry.names(), lines(&["Home"]));
}

#[test]
fn name_map_keeps_one_value_for_each_name() {
    let mut map: NameMap<char> = NameMap::new();
    assert_eq!(map.len(), 0);
    assert_eq!(map.get("a"), None);
    map.insert("a".to_string(), 'X');
    map.insert("b".to_string(), 'Y');
    map.insert("a".to_string(), 'Z');
    assert_eq!(map.len(), 2);
    assert_eq!(map.get("a"), Some('Z'));
    assert_eq!(map.get("b"), Some('Y'));
    assert_eq!(map.get("c"), None);
    assert_eq!(map.name_at(0), "a");
    assert_eq!(map.value_at(0), 'Z');
    assert_eq!(map.name_at(1), "b");
    assert_eq!(map.value_at(1), 'Y');
    assert_eq!(map.clone(), map);
}

#[test]
fn app_config_starts_with_the_defaults() {
    let config = AppConfig::new();
    assert!(config.is_first_run);
    assert!(!config.is_auto_mount);
    assert_eq!(config.current_theme, AppTheme::Dark);
    assert!(!config.hide_storage_label);
    assert!(!config.enable_network_mode);
    assert_eq!(config.drives_letters.len(), 0);
    assert_eq!(config.drives_auto_mount.len(), 0);
}

#[test]
fn app_config_setters_change_one_value() {
    let mut config = AppConfig::new();
    config.set_is_first_run(false);
    config.set_is_auto_mount(true);
    config.set_current_theme(AppTheme::MOCHA);
    config.set_hide_storage_label(true);
    config.set_enable_network_mode(true);
    assert!(!config.is_first_run);
    assert!(config.is_auto_mount);
    assert_eq!(config.current_theme, AppTheme::MOCHA);
    assert!(config.hide_storage_label);
    assert!(config.enable_network_mode);
    config.set_is_auto_mount(false);
    assert!(!config.is_auto_mount);
    assert!(config.hide_storage_label);
}

#[test]
fn app_config_keeps_letters_and_auto_mount_by_name() {
    let mut config = AppConfig::new();
    assert_eq!(config.get_drive_letter("Work"), None);
    assert_eq!(config.get_drive_auto_mount("Work"), None);
    config.set_drives_letters("Work".to_string(), 'Z');
    config.set_drives_letters("Home".to_string(), 'H');
    config.set_drives_letters("Work".to_string(), 'W');
    assert_eq!(config.get_drive_letter("Work"), Some("W".to_string()));
    assert_eq!(config.get_drive_letter("Home"), Some("H".to_string()));
    config.set_drives_auto_mount("Work".to_string(), true);
    config.set_drives_auto_mount("Home".to_string(), false);
    assert_eq!(config.get_drive_auto_mount("Work"), Some(true));
    assert_eq!(config.get_drive_auto_mount("Home"), Some(false));
    assert_eq!(config.get_drive_auto_mount("Else"), None);
    assert_eq!(
        config.auto_mount_selection(&lines(&["Home", "Else", "Work", "Work"])),
        lines(&["Work", "Work"])
    );
    assert_eq!(config.auto_mount_selection(&Vec::new()), Vec::<String>::new());
}

#[test]
fn enums_have_their_names() {
    assert_eq!(Tab::values(), [Tab::MountUnmount, Tab::Manage, Tab::Settings]);
    assert_eq!(Tab::MountUnmount.to_str(), "Mount - Unmount");
    assert_eq!(Tab::Manage.to_str(), "Manage Storages");
    assert_eq!(Tab::Settings.to_str(), "Settings");
    let names: Vec<&str> = StorageType::values().iter().map(|t| t.name()).collect();
    assert_eq!(
        names,
        vec!["Google Drive", "OneDrive", "Dropbox", "Google Photos", "Mega", "NextCloud"]
    );
    let names: Vec<&str> = AppTheme::values().iter().map(|t| t.name()).collect();
    assert_eq!(names, vec!["Light", "Dark", "Frappe", "Latte", "Macchiato", "Mocha"]);
}

#[test]
fn storage_type_is_found_by_its_key() {
    for provider in StorageType::values() {
        assert_eq!(StorageType::from_key(provider.key()), Some(provider));
    }
    assert_eq!(StorageType::from_key("drive"), Some(StorageType::GoogleDrive));
    assert_eq!(StorageType::from_key("s3"), None);
    assert_eq!(StorageType::from_key("Drive"), None);
    assert_eq!(StorageType::from_key(""), None);
}

#[test]
fn messages_are_read_from_menu_ids() {
    assert_eq!(Message::from_menu_id("quit"), Some(Message::Quit));
    assert_eq!(Message::from_menu_id("show_app"), Some(Message::ShowApp));
    assert_eq!(Message::from_menu_id("hide_app"), Some(Message::HideApp));
    assert_eq!(Message::from_menu_id("mount_all"), Some(Message::MountAll));
    assert_eq!(Message::from_menu_id("unmount_all"), Some(Message::UnmountAll));
    assert_eq!(Message::from_menu_id("about"), None);
}

#[test]
fn missing_dependencies_are_named() {
    assert_eq!(check_dependencies(Some(Platform::Linux), true, true), Vec::<String>::new());
    assert_eq!(check_dependencies(Some(Platform::Windows), false, true), lines(&["WinFsp"]));
    assert_eq!(check_dependencies(Some(Platform::Linux), false, false), lines(&["FUSE", "Rclone"]));
    assert_eq!(check_dependencies(Some(Platform::MacOs), false, true), lines(&["FUSE"]));
    assert_eq!(check_dependencies(None, false, false), lines(&["Rclone"]));
    assert_eq!(check_dependencies(None, false, true), Vec::<String>::new());
}

#[test]
fn error_report_blocks_the_start() {
    let fine = ErrorApp::new("linux", Vec::new());
    assert!(fine.is_platform_supported);
    assert_eq!(fine.platform, "linux");
    assert!(!fine.blocks_start());
    let missing = ErrorApp::new("windows", lines(&["WinFsp"]));
    assert!(missing.is_platform_supported);
    assert!(missing.blocks_start());
    let unsupported = ErrorApp::new("freebsd", Vec::new());
    assert!(!unsupported.is_platform_supported);
    assert!(unsupported.blocks_start());
}

#[test]
fn type_fields_have_a_label() {
    assert_eq!(StorageType::label_of_key("drive"), "Google Drive");
    assert_eq!(StorageType::label_of_key("onedrive"), "OneDrive");
    assert_eq!(StorageType::label_of_key("dropbox"), "Dropbox");
    assert_eq!(StorageType::label_of_key("googlephotos"), "Google Photos");
    assert_eq!(StorageType::label_of_key("mega"), "Mega");
    assert_eq!(StorageType::label_of_key("nextcloud"), "NextCloud");
    assert_eq!(StorageType::label_of_key("s3"), "Unknown");
}

#[test]
fn white_space_is_what_the_standard_library_says() {
    for code in 0..=0x10FFFFu32 {
        if let Some(c) = char::from_u32(code) {
            assert_eq!(white_space(c), c.is_whitespace(), "U+{:04X}", code);
        }
    }
}

#[test]
fn stripped_text_removes_the_white_space_at_both_ends() {
    assert_eq!(stripped_text(""), "");
    assert_eq!(stripped_text(" \t\n "), "");
    assert_eq!(stripped_text("\tMy Cloud\r\n"), "My Cloud");
    assert_eq!(stripped_text("\u{3000}a\u{a0}b\u{2003}"), "a\u{a0}b");
    for text in ["", " a ", "\u{85}x y\u{2028}", "plain", "\t\t", " \u{1680}z"] {
        assert_eq!(stripped_text(text), text.trim());
    }
}

#[test]
fn add_storage_strips_every_white_space_around_the_name() {
    let registry = Rclone::init(&registry_text()).unwrap();
    let cmd = registry.add_storage("\tPhotos\n", StorageType::GooglePhotos).unwrap();
    assert_eq!(cmd.args[2], "Photos");
    assert_eq!(
        registry.add_storage("\t \n", StorageType::GoogleDrive).unwrap_err(),
        RegistryError::EmptyName
    );
    assert_eq!(
        registry.add_storage("\tWork\u{a0}", StorageType::OneDrive).unwrap_err(),
        RegistryError::DuplicateName
    );
}
