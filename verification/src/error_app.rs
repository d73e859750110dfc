//! What is shown in place of the main window when the application cannot
//! run: an unsupported platform, or a missing dependency.

use crate::platform::Platform;
use vstd::prelude::*;

verus! {

/// The reasons for which the application cannot run.
#[derive(Debug)]
pub struct ErrorApp {
    /// False when the platform is none of those that can mount.
    pub is_platform_supported: bool,
    /// The name of the operating system.
    pub platform: String,
    /// The dependencies that were not found.
    pub missing_dependencies: Vec<String>,
}

/// The name of the driver that mounts file systems in user space on a
/// platform.
pub open spec fn mount_layer_name(platform: Platform) -> Seq<char> {
    match platform {
        Platform::Windows => "WinFsp"@,
        Platform::Linux => "FUSE"@,
        Platform::MacOs => "FUSE"@,
    }
}

/// The dependencies that are missing: the mount layer of the platform where
/// it was not found, then the mount tool where it was not found. On an
/// unsupported platform only the mount tool is asked for.
pub open spec fn missing_dependencies_spec(
    platform: Option<Platform>,
    mount_layer_found: bool,
    rclone_found: bool,
) -> Seq<Seq<char>> {
    (match platform {
        Some(p) => if mount_layer_found {
            Seq::<Seq<char>>::empty()
        } else {
            seq![mount_layer_name(p)]
        },
        None => Seq::<Seq<char>>::empty(),
    }) + (if rclone_found {
        Seq::<Seq<char>>::empty()
    } else {
        seq!["Rclone"@]
    })
}

/// Names the dependencies that are missing, from what the caller's probes
/// have found.
pub fn check_dependencies(platform: Option<Platform>, mount_layer_found: bool, rclone_found: bool) -> (missing:
    Vec<String>)
    ensures
        missing.deep_view() == missing_dependencies_spec(platform, mount_layer_found, rclone_found),
{
    let mut missing: Vec<String> = Vec::new();
    if !mount_layer_found {
        match platform {
            Some(Platform::Windows) => {
                missing.push("WinFsp".to_owned());
            },
            Some(_) => {
                missing.push("FUSE".to_owned());
            },
            None => {},
        }
    }
    if !rclone_found {
        missing.push("Rclone".to_owned());
    }
    assert(missing.deep_view() =~= missing_dependencies_spec(
        platform,
        mount_layer_found,
        rclone_found,
    ));
    missing
}

impl ErrorApp {
    /// The report for an operating system and the dependencies that are
    /// missing on it.
    pub fn new(os_name: &str, missing_dependencies: Vec<String>) -> (out: ErrorApp)
        ensures
            out.is_platform_supported == (Platform::of_name(os_name@) is Some),
            out.platform@ == os_name@,
            out.missing_dependencies == missing_dependencies,
    {
        ErrorApp {
            is_platform_supported: Platform::from_os_name(os_name).is_some(),
            platform: os_name.to_owned(),
            missing_dependencies,
        }
    }

    /// True when there is something to report: the application cannot run.
    pub fn blocks_start(&self) -> (r: bool)
        ensures
            r == (!self.is_platform_supported || self.missing_dependencies@.len() > 0),
    {
        !self.is_platform_supported || self.missing_dependencies.len() > 0
    }
}

} // verus!
