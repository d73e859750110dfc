use drive_fuse::mounting::{MountError, MountState, MountStep, MountingStorage, UnmountStep};
use drive_fuse::name_map::NameMap;
use drive_fuse::platform::{Host, MountOptions, Platform};

fn host(platform: Platform, drives_in_use: u32) -> Host {
    Host {
        platform,
        username: "alice".to_string(),
        document_dir: None,
        config_dir: None,
        drives_in_use,
    }
}

fn plain() -> MountOptions {
    MountOptions { show_terminal: false, network_mode: false, allow_other: false }
}

fn names(list: &[&str]) -> Vec<String> {
    list.iter().map(|s| s.to_string()).collect()
}

fn spawned(step: &MountStep) -> bool {
    matches!(step, MountStep::Spawn(_))
}

#[test]
fn new_orchestrator_is_empty() {
    let ms = MountingStorage::new(host(Platform::Windows, 0));
    assert_eq!(ms.total_mounted(), 0);
    assert_eq!(ms.mounted_names(), Vec::<String>::new());
    assert!(!ms.is_mounted("Work", true));
    assert_eq!(ms.get_mounted("Work"), None);
    assert_eq!(ms.state_of("Work"), None);
    assert_eq!(ms.process_id_of("Work"), None);
    assert_eq!(ms.host().username, "alice");
}

#[test]
fn mount_then_unmount_on_an_assigned_letter() {
    let mut ms = MountingStorage::new(host(Platform::Windows, 0b100));
    let step = ms.prepare_mount("Work", Some('Z'), plain());
    match &step {
        MountStep::Spawn(cmd) => {
            assert_eq!(cmd.program, "rclone");
            assert_eq!(cmd.args[1], "Work:");
            assert_eq!(cmd.args[2], "Z:");
        }
        other => panic!("no command: {:?}", other),
    }
    assert_eq!(ms.state_of("Work"), Some(MountState::Mounting));
    assert!(ms.mount("Work", Ok(4242)));
    assert!(ms.is_mounted("Work", false));
    assert_eq!(ms.state_of("Work"), Some(MountState::Mounted));
    assert_eq!(ms.process_id_of("Work"), Some(4242));
    assert_eq!(ms.get_mounted("Work"), Some("Z".to_string()));
    assert_eq!(ms.total_mounted(), 1);
    assert!(ms.is_drive_letter_mounted('Z'));
    assert!(ms.is_drive_letter_mounted('C'));
    assert!(!ms.is_drive_letter_mounted('Y'));

    match ms.prepare_unmount("Work") {
        UnmountStep::Terminate(cmd) => {
            assert_eq!(cmd.program, "taskkill");
            assert_eq!(cmd.args, names(&["/F", "/PID", "4242"]));
        }
        other => panic!("no command: {:?}", other),
    }
    assert_eq!(ms.state_of("Work"), Some(MountState::Unmounting));
    assert!(ms.unmount("Work", Ok(())));
    assert!(!ms.is_mounted("Work", true));
    assert_eq!(ms.total_mounted(), 0);
    assert!(!ms.is_drive_letter_mounted('Z'));
}

#[test]
fn second_mount_spawns_nothing() {
    let mut ms = MountingStorage::new(host(Platform::Windows, 0));
    assert!(spawned(&ms.prepare_mount("Work", None, plain())));
    assert!(ms.mount("Work", Ok(10)));
    assert_eq!(ms.prepare_mount("Work", Some('Q'), plain()), MountStep::AlreadyMounted);
    assert!(ms.mount("Work", Err(MountError::SpawnFailed)));
    assert!(ms.mount("Work", Ok(11)));
    assert_eq!(ms.total_mounted(), 1);
    assert_eq!(ms.process_id_of("Work"), Some(10));
    assert_eq!(ms.get_mounted("Work"), Some("A".to_string()));
}

#[test]
fn failed_spawn_leaves_no_handle() {
    let mut ms = MountingStorage::new(host(Platform::Windows, 0));
    assert!(spawned(&ms.prepare_mount("Work", Some('Z'), plain())));
    assert!(ms.is_drive_letter_mounted('Z'));
    assert!(!ms.mount("Work", Err(MountError::SpawnFailed)));
    assert_eq!(ms.total_mounted(), 0);
    assert!(!ms.is_mounted("Work", true));
    assert!(!ms.is_drive_letter_mounted('Z'));
}

#[test]
fn mount_without_preparation_fails() {
    let mut ms = MountingStorage::new(host(Platform::Linux, 0));
    assert!(!ms.mount("Work", Ok(1)));
    assert_eq!(ms.total_mounted(), 0);
}

#[test]
fn unmount_without_handle_is_a_no_op() {
    let mut ms = MountingStorage::new(host(Platform::Linux, 0));
    assert!(spawned(&ms.prepare_mount("Other", None, plain())));
    assert!(ms.mount("Other", Ok(5)));
    assert_eq!(ms.prepare_unmount("Work"), UnmountStep::NotMounted);
    assert!(ms.unmount("Work", Ok(())));
    assert!(ms.unmount("Work", Err(MountError::TerminateFailed)));
    assert_eq!(ms.total_mounted(), 1);
    assert_eq!(ms.state_of("Other"), Some(MountState::Mounted));
    assert_eq!(ms.process_id_of("Other"), Some(5));
}

#[test]
fn failed_teardown_keeps_the_handle() {
    let mut ms = MountingStorage::new(host(Platform::Linux, 0));
    assert!(spawned(&ms.prepare_mount("Work", None, plain())));
    assert!(ms.mount("Work", Ok(77)));
    match ms.prepare_unmount("Work") {
        UnmountStep::Terminate(cmd) => {
            assert_eq!(cmd.program, "fusermount");
            assert_eq!(cmd.args, names(&["-u", "-z", "/home/alice/drive_fuse/Work"]));
        }
        other => panic!("no command: {:?}", other),
    }
    assert!(!ms.unmount("Work", Err(MountError::TerminateFailed)));
    assert!(ms.is_mounted("Work", true));
    assert_eq!(ms.state_of("Work"), Some(MountState::Mounted));
    assert_eq!(ms.process_id_of("Work"), Some(77));
}

#[test]
fn unmount_without_preparation_fails() {
    let mut ms = MountingStorage::new(host(Platform::MacOs, 0));
    assert!(spawned(&ms.prepare_mount("Work", None, plain())));
    assert!(ms.mount("Work", Ok(77)));
    assert!(!ms.unmount("Work", Ok(())));
    assert_eq!(ms.state_of("Work"), Some(MountState::Mounted));
}

#[test]
fn pending_spawn_is_never_torn_down() {
    let mut ms = MountingStorage::new(host(Platform::Linux, 0));
    assert!(spawned(&ms.prepare_mount("Work", None, plain())));
    assert_eq!(ms.prepare_unmount("Work"), UnmountStep::Busy);
    assert_eq!(ms.state_of("Work"), Some(MountState::Mounting));
    assert!(!ms.unmount("Work", Ok(())));
    assert!(ms.mount("Work", Ok(3)));
    assert_eq!(ms.state_of("Work"), Some(MountState::Mounted));
}

#[test]
fn linux_asks_for_a_directory_that_is_not_empty() {
    let mut ms = MountingStorage::new(host(Platform::Linux, 0));
    assert!(spawned(&ms.prepare_mount("Work", None, plain())));
    assert!(ms.mount("Work", Ok(3)));
    assert!(ms.is_mounted("Work", true));
    assert!(!ms.is_mounted("Work", false));
    assert!(!ms.is_mounted("Else", true));
    assert_eq!(ms.get_mounted("Work"), Some("/home/alice/drive_fuse/Work".to_string()));

    let mut mac = MountingStorage::new(host(Platform::MacOs, 0));
    assert!(spawned(&mac.prepare_mount("Work", None, plain())));
    assert!(mac.mount("Work", Ok(3)));
    assert!(mac.is_mounted("Work", false));
    assert_eq!(mac.get_mounted("Work"), Some("/Users/alice/drive_fuse/Work".to_string()));
}

#[test]
fn occupied_letter_is_refused() {
    let mut ms = MountingStorage::new(host(Platform::Windows, 0b100));
    assert_eq!(ms.prepare_mount("Work", Some('C'), plain()), MountStep::Unavailable);
    assert_eq!(ms.total_mounted(), 0);
    assert!(!ms.mount("Work", Ok(1)));
    assert!(spawned(&ms.prepare_mount("A", Some('D'), plain())));
    assert_eq!(ms.prepare_mount("B", Some('D'), plain()), MountStep::Unavailable);
    ms.set_drives_in_use(0);
    assert!(spawned(&ms.prepare_mount("Work", Some('C'), plain())));
    assert_eq!(ms.host().drives_in_use, 0);
}

#[test]
fn mount_all_goes_on_after_a_failure() {
    let mut ms = MountingStorage::new(host(Platform::Linux, 0));
    let batch = names(&["A", "B"]);
    let steps = ms.prepare_mount_all(&batch, &NameMap::new(), plain());
    assert_eq!(steps.len(), 2);
    assert!(spawned(&steps[0]) && spawned(&steps[1]));
    let all = ms.mount_all(&batch, &vec![Err(MountError::SpawnFailed), Ok(9)]);
    assert!(!all);
    assert!(!ms.is_mounted("A", true));
    assert!(ms.is_mounted("B", true));
    assert_eq!(ms.process_id_of("B"), Some(9));
    assert_eq!(ms.mounted_names(), names(&["B"]));
}

#[test]
fn mount_all_succeeds_when_every_spawn_does() {
    let mut ms = MountingStorage::new(host(Platform::MacOs, 0));
    let batch = names(&["A", "B", "C"]);
    let steps = ms.prepare_mount_all(&batch, &NameMap::new(), plain());
    assert_eq!(steps.len(), 3);
    assert!(ms.mount_all(&batch, &vec![Ok(1), Ok(2), Ok(3)]));
    assert_eq!(ms.total_mounted(), 3);
    assert_eq!(ms.mounted_names(), batch);
    // a second batch over the same storages spawns nothing
    let again = ms.prepare_mount_all(&batch, &NameMap::new(), plain());
    assert_eq!(
        again,
        vec![MountStep::AlreadyMounted, MountStep::AlreadyMounted, MountStep::AlreadyMounted]
    );
    assert!(ms.mount_all(&batch, &Vec::new()));
    assert_eq!(ms.total_mounted(), 3);
}

#[test]
fn mount_all_counts_a_missing_outcome_as_failed() {
    let mut ms = MountingStorage::new(host(Platform::Linux, 0));
    let batch = names(&["A", "B"]);
    ms.prepare_mount_all(&batch, &NameMap::new(), plain());
    assert!(!ms.mount_all(&batch, &vec![Ok(1)]));
    assert_eq!(ms.mounted_names(), names(&["A"]));
    assert!(ms.mount_all(&Vec::new(), &Vec::new()));
}

#[test]
fn batch_gives_distinct_free_letters() {
    // A and C are in use
    let mut ms = MountingStorage::new(host(Platform::Windows, 0b101));
    let batch = names(&["One", "Two"]);
    let steps = ms.prepare_mount_all(&batch, &NameMap::new(), plain());
    match (&steps[0], &steps[1]) {
        (MountStep::Spawn(one), MountStep::Spawn(two)) => {
            assert_eq!(one.args[2], "B:");
            assert_eq!(two.args[2], "D:");
        }
        other => panic!("no commands: {:?}", other),
    }
    assert!(ms.is_drive_letter_mounted('B'));
    assert!(ms.is_drive_letter_mounted('D'));
    assert!(ms.mount_all(&batch, &vec![Ok(1), Ok(2)]));
    assert_eq!(ms.get_mounted("One"), Some("B".to_string()));
    assert_eq!(ms.get_mounted("Two"), Some("D".to_string()));
}

#[test]
fn batch_refuses_a_letter_claimed_in_the_same_batch() {
    let mut ms = MountingStorage::new(host(Platform::Windows, 0));
    let mut letters = NameMap::new();
    letters.insert("One".to_string(), 'M');
    letters.insert("Two".to_string(), 'M');
    letters.insert("Three".to_string(), 'N');
    let batch = names(&["One", "Two", "Three", "Four"]);
    let steps = ms.prepare_mount_all(&batch, &letters, plain());
    assert!(spawned(&steps[0]));
    assert_eq!(steps[1], MountStep::Unavailable);
    assert!(spawned(&steps[2]));
    assert!(spawned(&steps[3]));
    let all = ms.mount_all(&batch, &vec![Ok(1), Err(MountError::SpawnFailed), Ok(3), Ok(4)]);
    assert!(!all);
    assert_eq!(ms.mounted_names(), names(&["One", "Three", "Four"]));
    assert_eq!(ms.get_mounted("One"), Some("M".to_string()));
    assert_eq!(ms.get_mounted("Three"), Some("N".to_string()));
    assert_eq!(ms.get_mounted("Four"), Some("A".to_string()));
}

#[test]
fn unmount_all_goes_on_after_a_failure() {
    let mut ms = MountingStorage::new(host(Platform::Linux, 0));
    let batch = names(&["A", "B", "C"]);
    ms.prepare_mount_all(&batch, &NameMap::new(), plain());
    assert!(ms.mount_all(&batch, &vec![Ok(1), Ok(2), Ok(3)]));
    let mounted = ms.mounted_names();
    let steps = ms.prepare_unmount_all(&mounted);
    assert_eq!(steps.len(), 3);
    assert!(steps.iter().all(|s| matches!(s, UnmountStep::Terminate(_))));
    let all = ms.unmount_all(&mounted, &vec![Ok(()), Err(MountError::TerminateFailed), Ok(())]);
    assert!(!all);
    assert_eq!(ms.mounted_names(), names(&["B"]));
    assert_eq!(ms.state_of("B"), Some(MountState::Mounted));
    // the retry succeeds
    let mounted = ms.mounted_names();
    ms.prepare_unmount_all(&mounted);
    assert!(ms.unmount_all(&mounted, &vec![Ok(())]));
    assert_eq!(ms.total_mounted(), 0);
    assert!(ms.unmount_all(&mounted, &Vec::new()));
}
