//! What differs between operating systems: where a storage is mounted, the
//! command line that mounts it and the one that tears the mount down.
//!
//! Nothing here runs a process. The functions build command lines as plain
//! values; the caller spawns them and reports the outcome to the orchestrator.

use vstd::prelude::*;
use vstd::string::StringExecFns;

verus! {

/// The operating-system family that the mounts are made on.
#[derive(Clone, Copy, Debug, PartialEq, Eq, Structural)]
pub enum Platform {
    /// Mounts on drive letters; teardown kills the mount process.
    Windows,
    /// Mounts on directories under `/home`; teardown is `fusermount -u -z`.
    Linux,
    /// Mounts on directories under `/Users`; teardown is `umount`.
    MacOs,
}

impl Platform {
    /// The platform that an operating-system name stands for.
    pub open spec fn of_name(name: Seq<char>) -> Option<Platform> {
        if name == "windows"@ {
            Some(Platform::Windows)
        } else if name == "linux"@ {
            Some(Platform::Linux)
        } else if name == "macos"@ {
            Some(Platform::MacOs)
        } else {
            None
        }
    }

    /// Reads a platform from the name that the standard library gives the
    /// operating system. Any other name is unsupported.
    pub fn from_os_name(name: &str) -> (r: Option<Platform>)
        ensures
            r == Platform::of_name(name@),
    {
        if name.eq("windows") {
            Some(Platform::Windows)
        } else if name.eq("linux") {
            Some(Platform::Linux)
        } else if name.eq("macos") {
            Some(Platform::MacOs)
        } else {
            None
        }
    }

    /// True for the platforms that mount on drive letters.
    pub open spec fn uses_letters(self) -> bool {
        self is Windows
    }
}

/// The drive letter with the given index: `A` for 0, `Z` for 25.
pub open spec fn letter_at(i: int) -> char {
    ((i + 65) as u8) as char
}

/// True for the 26 upper-case drive letters.
pub open spec fn is_drive_letter(c: char) -> bool {
    'A' <= c <= 'Z'
}

/// The index of a drive letter: 0 for `A`, 25 for `Z`.
pub open spec fn letter_index(c: char) -> int {
    c as u32 - 65
}

/// True when bit `i` of the logical-drive mask is set.
pub open spec fn mask_bit(mask: u32, i: u32) -> bool {
    (mask >> i) & 1u32 == 1u32
}

/// True when the operating system reports the letter in use: the mask has one
/// bit per letter, bit 0 for `A`.
pub open spec fn os_reports_in_use(mask: u32, c: char) -> bool {
    is_drive_letter(c) && mask_bit(mask, letter_index(c) as u32)
}

/// The letters among the first `upto` that the mask does not report in use,
/// in alphabetical order.
pub open spec fn free_letters(mask: u32, upto: int) -> Seq<char>
    decreases upto,
{
    if upto <= 0 {
        Seq::empty()
    } else if mask_bit(mask, (upto - 1) as u32) {
        free_letters(mask, upto - 1)
    } else {
        free_letters(mask, upto - 1).push(letter_at(upto - 1))
    }
}

/// A letter is among the free letters exactly if it is one of the first
/// `upto` drive letters and the mask does not report it in use.
pub proof fn lemma_free_letters_members(mask: u32, upto: int, c: char)
    requires
        0 <= upto <= 26,
    ensures
        free_letters(mask, upto).contains(c) <==> (is_drive_letter(c) && letter_index(c) < upto
            && !os_reports_in_use(mask, c)),
    decreases upto,
{
    if upto > 0 {
        lemma_free_letters_members(mask, upto - 1, c);
        let rest = free_letters(mask, upto - 1);
        let last = letter_at(upto - 1);
        assert(letter_index(last) == upto - 1);
        if mask_bit(mask, (upto - 1) as u32) {
        } else {
            assert(rest.push(last)[rest.len() as int] == last);
            if rest.push(last).contains(c) && c != last {
                let j = choose|j: int| 0 <= j < rest.push(last).len() && rest.push(last)[j] == c;
                assert(rest[j] == c);
            }
            if rest.contains(c) {
                let j = choose|j: int| 0 <= j < rest.len() && rest[j] == c;
                assert(rest.push(last)[j] == c);
            }
        }
    }
}

/// True when the operating system reports the drive letter in use.
pub fn letter_in_use(mask: u32, c: char) -> (r: bool)
    ensures
        r == os_reports_in_use(mask, c),
{
    if 'A' <= c && c <= 'Z' {
        let i: u32 = c as u32 - 65;
        (mask >> i) & 1u32 == 1u32
    } else {
        false
    }
}

/// The drive letters that the operating system does not report in use, in
/// alphabetical order. `mask` is the logical-drive mask: bit 0 for `A`.
pub fn available_drives(mask: u32) -> (out: Vec<char>)
    ensures
        out@ == free_letters(mask, 26),
        forall|c: char| out@.contains(c) <==> is_drive_letter(c) && !os_reports_in_use(mask, c),
{
    let mut out: Vec<char> = Vec::new();
    let mut i: u32 = 0;
    while i < 26
        invariant
            i <= 26,
            out@ == free_letters(mask, i as int),
        decreases 26 - i,
    {
        if (mask >> i) & 1u32 != 1u32 {
            out.push((i + 65) as u8 as char);
        }
        i += 1;
    }
    proof {
        assert forall|c: char| out@.contains(c) <==> is_drive_letter(c) && !os_reports_in_use(
            mask,
            c,
        ) by {
            lemma_free_letters_members(mask, 26, c);
        }
    }
    out
}

/// The decimal digit for `d`.
pub open spec fn digit_at(d: int) -> char {
    ((d + 48) as u8) as char
}

/// `n` written in decimal, without leading zeros.
pub open spec fn decimal_text(n: nat) -> Seq<char>
    decreases n,
{
    if n < 10 {
        seq![digit_at(n as int)]
    } else {
        decimal_text(n / 10).push(digit_at((n % 10) as int))
    }
}

fn push_decimal(out: &mut String, n: u32)
    ensures
        final(out)@ == old(out)@ + decimal_text(n as nat),
    decreases n,
{
    if n >= 10 {
        push_decimal(out, n / 10);
    }
    out.push(((n % 10) as u8 + 48) as char);
    assert(out@ == old(out)@ + decimal_text(n as nat));
}

/// `n` written in decimal.
pub fn decimal(n: u32) -> (out: String)
    ensures
        out@ == decimal_text(n as nat),
{
    let mut out = String::new();
    push_decimal(&mut out, n);
    assert(Seq::<char>::empty() + decimal_text(n as nat) == decimal_text(n as nat));
    out
}

/// Asks `whoami::username` for the name of the user who runs the process.
/// Nothing is promised of the name: it is whatever the system reports.
#[verifier::external_body]
fn current_username() -> (name: String) {
    whoami::username()
}

/// Asks `directories::BaseDirs::new` for the user's base directories and
/// `BaseDirs::config_dir` for the configuration folder among them. `None`
/// where the system reports none, or a path that is not Unicode.
#[verifier::external_body]
fn config_directory() -> (dir: Option<String>) {
    directories::BaseDirs::new().and_then(|dirs| dirs.config_dir().to_str().map(|s| s.to_owned()))
}

/// What the orchestrator has to know of the machine it runs on.
#[derive(Clone, Debug, PartialEq, Eq)]
pub struct Host {
    /// The operating-system family.
    pub platform: Platform,
    /// The login name of the user; Unix mount points lie under their home.
    pub username: String,
    /// The user's documents folder, where Windows mounts write their log.
    pub document_dir: Option<String>,
    /// The user's configuration folder.
    pub config_dir: Option<String>,
    /// The logical-drive mask of the system: bit 0 set when `A` is in use.
    pub drives_in_use: u32,
}

/// A host as plain values.
pub struct HostModel {
    pub platform: Platform,
    pub username: Seq<char>,
    pub document_dir: Option<Seq<char>>,
    pub config_dir: Option<Seq<char>>,
    pub drives_in_use: u32,
}

impl View for Host {
    type V = HostModel;

    open spec fn view(&self) -> HostModel {
        HostModel {
            platform: self.platform,
            username: self.username@,
            document_dir: match self.document_dir {
                Some(d) => Some(d@),
                None => None,
            },
            config_dir: match self.config_dir {
                Some(d) => Some(d@),
                None => None,
            },
            drives_in_use: self.drives_in_use,
        }
    }
}

impl Host {
    /// Describes the machine the process runs on. The platform, the drive mask
    /// and the documents folder are the caller's; the user name and the
    /// configuration folder are asked of the system, and are whatever it
    /// reports.
    pub fn detect(platform: Platform, drives_in_use: u32, document_dir: Option<String>) -> (host:
        Host)
        ensures
            host.platform == platform,
            host.drives_in_use == drives_in_use,
            host.document_dir == document_dir,
    {
        Host {
            platform,
            username: current_username(),
            document_dir,
            config_dir: config_directory(),
            drives_in_use,
        }
    }
}

/// Where a storage is mounted.
#[derive(Clone, Debug, PartialEq, Eq)]
pub enum OsResource {
    /// A drive letter.
    DriveLetter(char),
    /// The absolute path of a directory.
    Directory(String),
}

/// A mount target as plain values.
pub enum ResourceModel {
    DriveLetter(char),
    Directory(Seq<char>),
}

impl View for OsResource {
    type V = ResourceModel;

    open spec fn view(&self) -> ResourceModel {
        match self {
            OsResource::DriveLetter(c) => ResourceModel::DriveLetter(*c),
            OsResource::Directory(p) => ResourceModel::Directory(p@),
        }
    }
}

impl ResourceModel {
    /// The target as the mount tool wants it: `X:` for a letter, the path for
    /// a directory.
    pub open spec fn text(self) -> Seq<char> {
        match self {
            ResourceModel::DriveLetter(c) => seq![c, ':'],
            ResourceModel::Directory(p) => p,
        }
    }

    /// The letter of a drive-letter target.
    pub open spec fn letter(self) -> Option<char> {
        match self {
            ResourceModel::DriveLetter(c) => Some(c),
            ResourceModel::Directory(_) => None,
        }
    }
}

impl OsResource {
    /// The target as the mount tool wants it.
    pub fn text(&self) -> (out: String)
        ensures
            out@ == self@.text(),
    {
        match self {
            OsResource::DriveLetter(c) => {
                let mut out = String::new();
                out.push(*c);
                out.push(':');
                assert(out@ == seq![*c, ':']);
                out
            },
            OsResource::Directory(p) => p.clone(),
        }
    }

    /// The target as it is shown: the bare letter, or the path.
    pub fn label(&self) -> (out: String)
        ensures
            out@ == match self@ {
                ResourceModel::DriveLetter(c) => seq![c],
                ResourceModel::Directory(p) => p,
            },
    {
        match self {
            OsResource::DriveLetter(c) => {
                let mut out = String::new();
                out.push(*c);
                assert(out@ == seq![*c]);
                out
            },
            OsResource::Directory(p) => p.clone(),
        }
    }

    /// A copy of the target.
    pub fn duplicate(&self) -> (out: OsResource)
        ensures
            out@ == self@,
    {
        match self {
            OsResource::DriveLetter(c) => OsResource::DriveLetter(*c),
            OsResource::Directory(p) => OsResource::Directory(p.clone()),
        }
    }
}

/// The directory under which the users' home directories lie.
pub open spec fn home_root(platform: Platform) -> Seq<char> {
    if platform is MacOs {
        "/Users"@
    } else {
        "/home"@
    }
}

/// The directory that holds the mount points of a user.
pub open spec fn mount_root_text(platform: Platform, username: Seq<char>) -> Seq<char> {
    home_root(platform) + "/"@ + username + "/drive_fuse"@
}

/// The directory on which a storage is mounted on Unix.
pub open spec fn mount_directory_text(platform: Platform, username: Seq<char>, name: Seq<char>) -> Seq<
    char,
> {
    mount_root_text(platform, username) + "/"@ + name
}

/// The directory that holds the mount points of the host's user.
pub fn mount_root(host: &Host) -> (out: String)
    ensures
        out@ == mount_root_text(host.platform, host.username@),
{
    let mut out = match host.platform {
        Platform::MacOs => "/Users".to_owned(),
        _ => "/home".to_owned(),
    };
    out.append("/");
    out.append(host.username.as_str());
    out.append("/drive_fuse");
    out
}

/// The directory on which a storage is mounted on Unix.
pub fn mount_directory(host: &Host, name: &str) -> (out: String)
    ensures
        out@ == mount_directory_text(host.platform, host.username@, name@),
{
    let mut out = mount_root(host);
    out.append("/");
    out.append(name);
    out
}

/// The first drive letter at or after index `from` that neither the system
/// reports in use nor `claimed` holds.
pub open spec fn first_free_letter(mask: u32, claimed: Seq<char>, from: int) -> Option<char>
    decreases 26 - from,
{
    if from < 0 || from >= 26 {
        None
    } else if !mask_bit(mask, from as u32) && !claimed.contains(letter_at(from)) {
        Some(letter_at(from))
    } else {
        first_free_letter(mask, claimed, from + 1)
    }
}

/// True when a letter cannot be given to a new mount: the system reports it
/// in use, or a mount that is still held claims it.
pub open spec fn target_occupied(mask: u32, claimed: Seq<char>, c: char) -> bool {
    os_reports_in_use(mask, c) || claimed.contains(c)
}

/// The letter that `first_free_letter` picks is a drive letter that is not
/// occupied, and every drive letter before it is.
pub proof fn lemma_first_free_letter(mask: u32, claimed: Seq<char>, from: int)
    requires
        0 <= from <= 26,
    ensures
        match first_free_letter(mask, claimed, from) {
            Some(c) => is_drive_letter(c) && from <= letter_index(c) && !target_occupied(
                mask,
                claimed,
                c,
            ) && forall|i: int|
                from <= i < letter_index(c) ==> target_occupied(mask, claimed, #[trigger] letter_at(i)),
            None => forall|i: int|
                from <= i < 26 ==> target_occupied(mask, claimed, #[trigger] letter_at(i)),
        },
    decreases 26 - from,
{
    if from < 26 {
        assert(letter_index(letter_at(from)) == from);
        assert(is_drive_letter(letter_at(from)));
        if !mask_bit(mask, from as u32) && !claimed.contains(letter_at(from)) {
        } else {
            lemma_first_free_letter(mask, claimed, from + 1);
        }
    }
}

fn holds_letter(claimed: &Vec<char>, c: char) -> (r: bool)
    ensures
        r == claimed@.contains(c),
{
    let mut i: usize = 0;
    while i < claimed.len()
        invariant
            i <= claimed.len(),
            forall|j: int| 0 <= j < i ==> claimed@[j] != c,
        decreases claimed.len() - i,
    {
        if claimed[i] == c {
            return true;
        }
        i += 1;
    }
    false
}

/// True when the letter cannot be given to a new mount: the system reports
/// it in use, or one of the `claimed` letters is this one.
pub fn is_target_occupied(host: &Host, claimed: &Vec<char>, letter: char) -> (r: bool)
    ensures
        r == target_occupied(host.drives_in_use, claimed@, letter),
{
    letter_in_use(host.drives_in_use, letter) || holds_letter(claimed, letter)
}

/// Where a storage is to be mounted, if anywhere.
///
/// On a platform with drive letters: the assigned letter, provided it is a
/// drive letter that is not occupied; without an assignment the first letter
/// that is not occupied. On Unix: the storage's directory under the user's
/// mount root, whatever is assigned.
pub open spec fn mount_target(
    host: HostModel,
    claimed: Seq<char>,
    name: Seq<char>,
    assigned: Option<char>,
) -> Option<ResourceModel> {
    if host.platform.uses_letters() {
        match assigned {
            Some(c) => if is_drive_letter(c) && !target_occupied(host.drives_in_use, claimed, c) {
                Some(ResourceModel::DriveLetter(c))
            } else {
                None
            },
            None => match first_free_letter(host.drives_in_use, claimed, 0) {
                Some(c) => Some(ResourceModel::DriveLetter(c)),
                None => None,
            },
        }
    } else {
        Some(ResourceModel::Directory(mount_directory_text(host.platform, host.username, name)))
    }
}

/// Resolves the mount target of a storage; `None` where no letter can be had.
pub fn build_mount_target(host: &Host, claimed: &Vec<char>, name: &str, assigned: Option<char>) -> (r:
    Option<OsResource>)
    ensures
        match r {
            Some(t) => mount_target(host@, claimed@, name@, assigned) == Some(t@),
            None => mount_target(host@, claimed@, name@, assigned) is None,
        },
{
    match host.platform {
        Platform::Windows => match assigned {
            Some(c) => {
                if 'A' <= c && c <= 'Z' && !is_target_occupied(host, claimed, c) {
                    Some(OsResource::DriveLetter(c))
                } else {
                    None
                }
            },
            None => {
                let mut i: u32 = 0;
                while i < 26
                    invariant
                        i <= 26,
                        host.platform is Windows,
                        assigned is None,
                        first_free_letter(host.drives_in_use, claimed@, 0) == first_free_letter(
                            host.drives_in_use,
                            claimed@,
                            i as int,
                        ),
                    decreases 26 - i,
                {
                    let c = (i + 65) as u8 as char;
                    if (host.drives_in_use >> i) & 1u32 != 1u32 && !holds_letter(claimed, c) {
                        return Some(OsResource::DriveLetter(c));
                    }
                    i += 1;
                }
                None
            },
        },
        _ => Some(OsResource::Directory(mount_directory(host, name))),
    }
}

/// What the caller may choose about a mount.
#[derive(Clone, Copy, Debug, PartialEq, Eq, Structural)]
pub struct MountOptions {
    /// Windows: give the mount process a console window of its own.
    pub show_terminal: bool,
    /// Windows: mount as a network drive.
    pub network_mode: bool,
    /// Unix: let other users reach the mount.
    pub allow_other: bool,
}

/// A command line: the program and its arguments, not yet run.
#[derive(Clone, Debug, PartialEq, Eq)]
pub struct CommandLine {
    /// The program to run.
    pub program: String,
    /// Its arguments, in order.
    pub args: Vec<String>,
    /// Windows: run it in a new console window, else in none.
    pub show_terminal: bool,
}

/// A command line as plain values.
pub struct CommandModel {
    pub program: Seq<char>,
    pub args: Seq<Seq<char>>,
    pub show_terminal: bool,
}

impl View for CommandLine {
    type V = CommandModel;

    open spec fn view(&self) -> CommandModel {
        CommandModel {
            program: self.program@,
            args: self.args.deep_view(),
            show_terminal: self.show_terminal,
        }
    }
}

/// Appends one argument.
pub fn push_arg(args: &mut Vec<String>, arg: String)
    ensures
        final(args).deep_view() == old(args).deep_view().push(arg@),
{
    let ghost before = args.deep_view();
    args.push(arg);
    assert(args.deep_view() =~= before.push(arg@));
}

/// The log file of a storage's mount, in the user's documents folder.
pub open spec fn log_file_text(document_dir: Seq<char>, name: Seq<char>) -> Seq<char> {
    document_dir + "/drive_fuse/rclone-"@ + name + ".log"@
}

/// The arguments that name the volume: Windows only.
pub open spec fn volume_args(platform: Platform, name: Seq<char>) -> Seq<Seq<char>> {
    if platform is Windows {
        seq!["--volname"@, name]
    } else {
        Seq::empty()
    }
}

/// The network-drive flag: Windows only, and only where it is asked for.
pub open spec fn network_args(platform: Platform, options: MountOptions) -> Seq<Seq<char>> {
    if platform is Windows && options.network_mode {
        seq!["--network-mode"@]
    } else {
        Seq::empty()
    }
}

/// The flag that opens the mount to other users: Unix only, and only where it
/// is asked for.
pub open spec fn sharing_args(platform: Platform, options: MountOptions) -> Seq<Seq<char>> {
    if !(platform is Windows) && options.allow_other {
        seq!["--allow-other"@]
    } else {
        Seq::empty()
    }
}

/// The logging arguments: Windows only, and only where the documents folder
/// is known.
pub open spec fn log_args(host: HostModel, name: Seq<char>) -> Seq<Seq<char>> {
    if host.platform is Windows && host.document_dir is Some {
        seq![
            "--log-level"@,
            "ERROR"@,
            "--log-file"@,
            log_file_text(host.document_dir->Some_0, name),
        ]
    } else {
        Seq::empty()
    }
}

/// The command line that mounts storage `name` on `target`:
/// `rclone mount <name>: <target> --vfs-cache-mode full`, then the volume
/// name, the network-drive flag, the allow-other flag and the logging
/// arguments, each where the platform and the options call for it.
pub open spec fn mount_command_spec(
    host: HostModel,
    name: Seq<char>,
    target: ResourceModel,
    options: MountOptions,
) -> CommandModel {
    CommandModel {
        program: "rclone"@,
        args: seq!["mount"@, name + ":"@, target.text(), "--vfs-cache-mode"@, "full"@]
            + volume_args(host.platform, name) + network_args(host.platform, options)
            + sharing_args(host.platform, options) + log_args(host, name),
        show_terminal: host.platform is Windows && options.show_terminal,
    }
}

/// Builds the command line that mounts a storage on a target.
pub fn mount_command(host: &Host, name: &str, target: &OsResource, options: MountOptions) -> (cmd:
    CommandLine)
    ensures
        cmd@ == mount_command_spec(host@, name@, target@, options),
{
    let windows = match host.platform {
        Platform::Windows => true,
        _ => false,
    };
    let mut args: Vec<String> = Vec::new();
    assert(args.deep_view() =~= Seq::<Seq<char>>::empty());
    push_arg(&mut args, "mount".to_owned());
    let mut remote = name.to_owned();
    remote.append(":");
    push_arg(&mut args, remote);
    push_arg(&mut args, target.text());
    push_arg(&mut args, "--vfs-cache-mode".to_owned());
    push_arg(&mut args, "full".to_owned());
    assert(args.deep_view() =~= seq![
        "mount"@,
        name@ + ":"@,
        target@.text(),
        "--vfs-cache-mode"@,
        "full"@,
    ]);
    let ghost head = args.deep_view();
    if windows {
        push_arg(&mut args, "--volname".to_owned());
        push_arg(&mut args, name.to_owned());
    }
    assert(args.deep_view() =~= head + volume_args(host.platform, name@));
    let ghost named = args.deep_view();
    if windows && options.network_mode {
        push_arg(&mut args, "--network-mode".to_owned());
    }
    assert(args.deep_view() =~= named + network_args(host.platform, options));
    let ghost networked = args.deep_view();
    if !windows && options.allow_other {
        push_arg(&mut args, "--allow-other".to_owned());
    }
    assert(args.deep_view() =~= networked + sharing_args(host.platform, options));
    let ghost shared = args.deep_view();
    if windows {
        match &host.document_dir {
            Some(dir) => {
                let mut file = dir.clone();
                file.append("/drive_fuse/rclone-");
                file.append(name);
                file.append(".log");
                push_arg(&mut args, "--log-level".to_owned());
                push_arg(&mut args, "ERROR".to_owned());
                push_arg(&mut args, "--log-file".to_owned());
                push_arg(&mut args, file);
            },
            None => {},
        }
    }
    assert(args.deep_view() =~= shared + log_args(host@, name@));
    CommandLine { program: "rclone".to_owned(), args, show_terminal: windows && options.show_terminal }
}

/// The command line that tears a mount down. Windows kills the mount process
/// by its id; Unix unmounts the target, because killing the process could
/// leave a stale mount point behind.
pub open spec fn teardown_command_spec(
    platform: Platform,
    process_id: u32,
    target: ResourceModel,
) -> CommandModel {
    match platform {
        Platform::Windows => CommandModel {
            program: "taskkill"@,
            args: seq!["/F"@, "/PID"@, decimal_text(process_id as nat)],
            show_terminal: false,
        },
        Platform::Linux => CommandModel {
            program: "fusermount"@,
            args: seq!["-u"@, "-z"@, target.text()],
            show_terminal: false,
        },
        Platform::MacOs => CommandModel {
            program: "umount"@,
            args: seq![target.text()],
            show_terminal: false,
        },
    }
}

/// Builds the command line that tears a mount down.
pub fn teardown_command(platform: Platform, process_id: u32, target: &OsResource) -> (cmd:
    CommandLine)
    ensures
        cmd@ == teardown_command_spec(platform, process_id, target@),
{
    let mut args: Vec<String> = Vec::new();
    assert(args.deep_view() =~= Seq::<Seq<char>>::empty());
    match platform {
        Platform::Windows => {
            push_arg(&mut args, "/F".to_owned());
            push_arg(&mut args, "/PID".to_owned());
            push_arg(&mut args, decimal(process_id));
            assert(args.deep_view() =~= seq!["/F"@, "/PID"@, decimal_text(process_id as nat)]);
            CommandLine { program: "taskkill".to_owned(), args, show_terminal: false }
        },
        Platform::Linux => {
            push_arg(&mut args, "-u".to_owned());
            push_arg(&mut args, "-z".to_owned());
            push_arg(&mut args, target.text());
            assert(args.deep_view() =~= seq!["-u"@, "-z"@, target@.text()]);
            CommandLine { program: "fusermount".to_owned(), args, show_terminal: false }
        },
        Platform::MacOs => {
            push_arg(&mut args, target.text());
            assert(args.deep_view() =~= seq![target@.text()]);
            CommandLine { program: "umount".to_owned(), args, show_terminal: false }
        },
    }
}

/// The directory that holds a user's configuration on Unix.
pub open spec fn unix_config_root(platform: Platform, username: Seq<char>) -> Seq<char> {
    home_root(platform) + "/"@ + username + "/.config"@
}

/// The directory that holds the registry file: `rclone` under the user's
/// configuration folder. On Windows the folder is the one the system reports,
/// and there is no directory where it reports none.
pub open spec fn rclone_config_path_spec(host: HostModel) -> Option<Seq<char>> {
    if host.platform is Windows {
        match host.config_dir {
            Some(dir) => Some(dir + "/rclone"@),
            None => None,
        }
    } else {
        Some(unix_config_root(host.platform, host.username) + "/rclone"@)
    }
}

/// The directory that holds the preference file: `drive_fuse` under the
/// documents folder on Windows, under the user's configuration folder on
/// Unix.
pub open spec fn app_config_path_spec(host: HostModel) -> Option<Seq<char>> {
    if host.platform is Windows {
        match host.document_dir {
            Some(dir) => Some(dir + "/drive_fuse"@),
            None => None,
        }
    } else {
        Some(unix_config_root(host.platform, host.username) + "/drive_fuse"@)
    }
}

fn unix_config_dir(host: &Host) -> (out: String)
    ensures
        out@ == unix_config_root(host.platform, host.username@),
{
    let mut out = match host.platform {
        Platform::MacOs => "/Users".to_owned(),
        _ => "/home".to_owned(),
    };
    out.append("/");
    out.append(host.username.as_str());
    out.append("/.config");
    out
}

/// The directory that holds the registry file.
pub fn rclone_config_path(host: &Host) -> (r: Option<String>)
    ensures
        match r {
            Some(path) => rclone_config_path_spec(host@) == Some(path@),
            None => rclone_config_path_spec(host@) is None,
        },
{
    match host.platform {
        Platform::Windows => match &host.config_dir {
            Some(dir) => {
                let mut path = dir.clone();
                path.append("/rclone");
                Some(path)
            },
            None => None,
        },
        _ => {
            let mut path = unix_config_dir(host);
            path.append("/rclone");
            Some(path)
        },
    }
}

/// The directory that holds the preference file.
pub fn app_config_path(host: &Host) -> (r: Option<String>)
    ensures
        match r {
            Some(path) => app_config_path_spec(host@) == Some(path@),
            None => app_config_path_spec(host@) is None,
        },
{
    match host.platform {
        Platform::Windows => match &host.document_dir {
            Some(dir) => {
                let mut path = dir.clone();
                path.append("/drive_fuse");
                Some(path)
            },
            None => None,
        },
        _ => {
            let mut path = unix_config_dir(host);
            path.append("/drive_fuse");
            Some(path)
        },
    }
}

} // verus!
