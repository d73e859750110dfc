use drive_fuse::platform::{
    app_config_path, available_drives, build_mount_target, decimal, is_target_occupied, letter_in_use,
    mount_command, mount_directory, mount_root, rclone_config_path, teardown_command, CommandLine, Host, MountOptions,
    OsResource, Platform,
};

fn host(platform: Platform) -> Host {
    Host {
        platform,
        username: "alice".to_string(),
        document_dir: Some("C:/Users/alice/Documents".to_string()),
        config_dir: Some("/home/alice/.config".to_string()),
        drives_in_use: 0b100,
    }
}

fn plain() -> MountOptions {
    MountOptions { show_terminal: false, network_mode: false, allow_other: false }
}

fn args(cmd: &CommandLine) -> Vec<&str> {
    cmd.args.iter().map(|s| s.as_str()).collect()
}

#[test]
fn platform_is_read_from_the_os_name() {
    assert_eq!(Platform::from_os_name("windows"), Some(Platform::Windows));
    assert_eq!(Platform::from_os_name("linux"), Some(Platform::Linux));
    assert_eq!(Platform::from_os_name("macos"), Some(Platform::MacOs));
    assert_eq!(Platform::from_os_name("freebsd"), None);
    assert_eq!(Platform::from_os_name("Linux"), None);
    assert_eq!(Platform::from_os_name(""), None);
}

#[test]
fn decimal_writes_numbers() {
    assert_eq!(decimal(0), "0");
    assert_eq!(decimal(7), "7");
    assert_eq!(decimal(10), "10");
    assert_eq!(decimal(4242), "4242");
    assert_eq!(decimal(u32::MAX), "4294967295");
}

#[test]
fn available_drives_lists_the_letters_whose_bit_is_clear() {
    let all: Vec<char> = ('A'..='Z').collect();
    assert_eq!(available_drives(0), all);
    assert_eq!(available_drives(0x03FF_FFFF), Vec::<char>::new());
    assert_eq!(available_drives(u32::MAX), Vec::<char>::new());
    // A, B and Z free
    assert_eq!(available_drives(0x01FF_FFFC), vec!['A', 'B', 'Z']);
    // only C in use
    let free = available_drives(0b100);
    assert_eq!(free.len(), 25);
    assert_eq!(free[0], 'A');
    assert_eq!(free[2], 'D');
    assert!(!free.contains(&'C'));
}

#[test]
fn letter_in_use_reads_one_bit() {
    assert!(letter_in_use(0b100, 'C'));
    assert!(!letter_in_use(0b100, 'A'));
    assert!(!letter_in_use(0b100, 'D'));
    assert!(letter_in_use(1 << 25, 'Z'));
    assert!(!letter_in_use(u32::MAX, 'c'));
    assert!(!letter_in_use(u32::MAX, '1'));
}

#[test]
fn target_is_occupied_by_the_system_or_by_a_claim() {
    let h = host(Platform::Windows);
    assert!(is_target_occupied(&h, &vec![], 'C'));
    assert!(is_target_occupied(&h, &vec!['X', 'D'], 'D'));
    assert!(!is_target_occupied(&h, &vec!['X', 'D'], 'E'));
    assert!(!is_target_occupied(&h, &vec![], 'A'));
}

#[test]
fn windows_target_is_the_assigned_letter_when_it_is_free() {
    let h = host(Platform::Windows);
    assert_eq!(
        build_mount_target(&h, &vec![], "Work", Some('Z')),
        Some(OsResource::DriveLetter('Z'))
    );
    assert_eq!(build_mount_target(&h, &vec![], "Work", Some('C')), None);
    assert_eq!(build_mount_target(&h, &vec!['Z'], "Work", Some('Z')), None);
    assert_eq!(build_mount_target(&h, &vec![], "Work", Some('z')), None);
    assert_eq!(build_mount_target(&h, &vec![], "Work", Some('?')), None);
}

#[test]
fn windows_target_is_the_first_free_letter_without_assignment() {
    let mut h = host(Platform::Windows);
    assert_eq!(
        build_mount_target(&h, &vec![], "Work", None),
        Some(OsResource::DriveLetter('A'))
    );
    assert_eq!(
        build_mount_target(&h, &vec!['A', 'B'], "Work", None),
        Some(OsResource::DriveLetter('D'))
    );
    h.drives_in_use = 0x03FF_FFFF;
    assert_eq!(build_mount_target(&h, &vec![], "Work", None), None);
    h.drives_in_use = 0x01FF_FFFF;
    assert_eq!(
        build_mount_target(&h, &vec![], "Work", None),
        Some(OsResource::DriveLetter('Z'))
    );
    assert_eq!(build_mount_target(&h, &vec!['Z'], "Work", None), None);
}

#[test]
fn unix_target_is_the_directory_of_the_storage() {
    assert_eq!(
        build_mount_target(&host(Platform::Linux), &vec![], "Work", Some('Z')),
        Some(OsResource::Directory("/home/alice/drive_fuse/Work".to_string()))
    );
    assert_eq!(
        build_mount_target(&host(Platform::MacOs), &vec![], "My Drive", None),
        Some(OsResource::Directory("/Users/alice/drive_fuse/My Drive".to_string()))
    );
    assert_eq!(mount_root(&host(Platform::Linux)), "/home/alice/drive_fuse");
    assert_eq!(mount_root(&host(Platform::MacOs)), "/Users/alice/drive_fuse");
    assert_eq!(mount_directory(&host(Platform::Linux), "x"), "/home/alice/drive_fuse/x");
}

#[test]
fn resource_text_and_label() {
    let letter = OsResource::DriveLetter('Q');
    assert_eq!(letter.text(), "Q:");
    assert_eq!(letter.label(), "Q");
    let dir = OsResource::Directory("/home/a/drive_fuse/x".to_string());
    assert_eq!(dir.text(), "/home/a/drive_fuse/x");
    assert_eq!(dir.label(), "/home/a/drive_fuse/x");
    assert_eq!(dir.duplicate(), dir);
    assert_eq!(letter.duplicate(), letter);
}

#[test]
fn windows_mount_command() {
    let h = host(Platform::Windows);
    let cmd = mount_command(&h, "Work", &OsResource::DriveLetter('Z'), plain());
    assert_eq!(cmd.program, "rclone");
    assert!(!cmd.show_terminal);
    assert_eq!(
        args(&cmd),
        vec![
            "mount",
            "Work:",
            "Z:",
            "--vfs-cache-mode",
            "full",
            "--volname",
            "Work",
            "--log-level",
            "ERROR",
            "--log-file",
            "C:/Users/alice/Documents/drive_fuse/rclone-Work.log",
        ]
    );
}

#[test]
fn windows_mount_command_with_options() {
    let mut h = host(Platform::Windows);
    h.document_dir = None;
    let options = MountOptions { show_terminal: true, network_mode: true, allow_other: true };
    let cmd = mount_command(&h, "Work", &OsResource::DriveLetter('Z'), options);
    assert!(cmd.show_terminal);
    assert_eq!(
        args(&cmd),
        vec![
            "mount",
            "Work:",
            "Z:",
            "--vfs-cache-mode",
            "full",
            "--volname",
            "Work",
            "--network-mode",
        ]
    );
}

#[test]
fn unix_mount_command() {
    let h = host(Platform::Linux);
    let target = OsResource::Directory("/home/alice/drive_fuse/Work".to_string());
    let cmd = mount_command(&h, "Work", &target, plain());
    assert_eq!(cmd.program, "rclone");
    assert_eq!(
        args(&cmd),
        vec!["mount", "Work:", "/home/alice/drive_fuse/Work", "--vfs-cache-mode", "full"]
    );
    let options = MountOptions { show_terminal: true, network_mode: true, allow_other: true };
    let cmd = mount_command(&host(Platform::MacOs), "Work", &target, options);
    assert!(!cmd.show_terminal);
    assert_eq!(
        args(&cmd),
        vec![
            "mount",
            "Work:",
            "/home/alice/drive_fuse/Work",
            "--vfs-cache-mode",
            "full",
            "--allow-other",
        ]
    );
}

#[test]
fn teardown_commands() {
    let dir = OsResource::Directory("/home/alice/drive_fuse/Work".to_string());
    let cmd = teardown_command(Platform::Windows, 4242, &OsResource::DriveLetter('Z'));
    assert_eq!(cmd.program, "taskkill");
    assert_eq!(args(&cmd), vec!["/F", "/PID", "4242"]);
    let cmd = teardown_command(Platform::Linux, 1, &dir);
    assert_eq!(cmd.program, "fusermount");
    assert_eq!(args(&cmd), vec!["-u", "-z", "/home/alice/drive_fuse/Work"]);
    let cmd = teardown_command(Platform::MacOs, 1, &dir);
    assert_eq!(cmd.program, "umount");
    assert_eq!(args(&cmd), vec!["/home/alice/drive_fuse/Work"]);
    assert!(!cmd.show_terminal);
}

#[test]
fn detect_keeps_what_the_caller_gives() {
    let h = Host::detect(Platform::Linux, 0b1010, None);
    assert_eq!(h.platform, Platform::Linux);
    assert_eq!(h.drives_in_use, 0b1010);
    assert_eq!(h.document_dir, None);
    let w = Host::detect(Platform::Windows, 4, Some("C:/Users/alice/Documents".to_string()));
    assert_eq!(w.platform, Platform::Windows);
    assert_eq!(w.drives_in_use, 4);
    assert_eq!(w.document_dir, Some("C:/Users/alice/Documents".to_string()));
    assert_eq!(w.username, h.username);
    assert_eq!(mount_root(&h), format!("/home/{}/drive_fuse", h.username));
}

#[test]
fn config_paths_follow_the_platform() {
    let mut windows = host(Platform::Windows);
    windows.config_dir = Some("C:/Users/alice/AppData/Roaming".to_string());
    assert_eq!(
        rclone_config_path(&windows),
        Some("C:/Users/alice/AppData/Roaming/rclone".to_string())
    );
    assert_eq!(
        app_config_path(&windows),
        Some("C:/Users/alice/Documents/drive_fuse".to_string())
    );
    windows.config_dir = None;
    windows.document_dir = None;
    assert_eq!(rclone_config_path(&windows), None);
    assert_eq!(app_config_path(&windows), None);
    let linux = host(Platform::Linux);
    assert_eq!(rclone_config_path(&linux), Some("/home/alice/.config/rclone".to_string()));
    assert_eq!(app_config_path(&linux), Some("/home/alice/.config/drive_fuse".to_string()));
    let mac = host(Platform::MacOs);
    assert_eq!(rclone_config_path(&mac), Some("/Users/alice/.config/rclone".to_string()));
    assert_eq!(app_config_path(&mac), Some("/Users/alice/.config/drive_fuse".to_string()));
}
