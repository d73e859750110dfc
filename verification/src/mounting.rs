//! The mount orchestrator: one handle for each storage that is considered
//! mounted, and the steps that create and destroy handles.
//!
//! The orchestrator runs no process. Mounting a storage takes two calls:
//! `prepare_mount` reserves the target and hands out the command line, the
//! caller spawns it, and `mount` records how the spawn ended. Unmounting works
//! the same way with `prepare_unmount` and `unmount`. Between the two calls the
//! handle is in a transient state, so that a target that is reserved cannot be
//! given away twice and a handle that was never fully created is never torn
//! down.

use crate::name_map::NameMap;
use crate::platform::{
    build_mount_target, is_drive_letter, is_target_occupied,
    lemma_first_free_letter, mount_command, mount_command_spec, mount_target, target_occupied,
    teardown_command, teardown_command_spec, CommandLine, CommandModel, Host, HostModel,
    MountOptions, OsResource, Platform, ResourceModel,
};
use vstd::prelude::*;

verus! {

/// Where a handle stands in its life.
#[derive(Clone, Copy, Debug, PartialEq, Eq, Structural)]
pub enum MountState {
    /// The target is reserved; the outcome of the spawn is not yet known.
    Mounting,
    /// The mount process was spawned.
    Mounted,
    /// The teardown command was handed out; its outcome is not yet known.
    Unmounting,
}

/// Why a mount or an unmount failed.
#[derive(Clone, Copy, Debug, PartialEq, Eq, Structural)]
pub enum MountError {
    /// The mount process could not be spawned.
    SpawnFailed,
    /// The teardown command could not be run, or did not exit with code zero.
    TerminateFailed,
}

/// The lease of one mounted storage.
#[derive(Debug, PartialEq, Eq)]
pub struct MountHandle {
    /// The storage that is mounted.
    pub storage_name: String,
    /// Where it is mounted.
    pub os_resource: OsResource,
    /// The id of the mount process; 0 until the spawn has succeeded.
    pub process_id: u32,
    /// Where the handle stands in its life.
    pub state: MountState,
}

/// A handle as plain values.
pub struct HandleModel {
    pub name: Seq<char>,
    pub resource: ResourceModel,
    pub process_id: u32,
    pub state: MountState,
}

impl View for MountHandle {
    type V = HandleModel;

    open spec fn view(&self) -> HandleModel {
        HandleModel {
            name: self.storage_name@,
            resource: self.os_resource@,
            process_id: self.process_id,
            state: self.state,
        }
    }
}

impl DeepView for MountHandle {
    type V = HandleModel;

    open spec fn deep_view(&self) -> HandleModel {
        self@
    }
}

/// What `prepare_mount` asks of the caller.
#[derive(Debug, PartialEq, Eq)]
pub enum MountStep {
    /// The storage has a handle already: nothing to spawn.
    AlreadyMounted,
    /// No target can be had for the storage: nothing to spawn.
    Unavailable,
    /// Spawn this command line and report the outcome to `mount`.
    Spawn(CommandLine),
}

/// A mount step as plain values.
pub enum MountStepModel {
    AlreadyMounted,
    Unavailable,
    Spawn(CommandModel),
}

impl View for MountStep {
    type V = MountStepModel;

    open spec fn view(&self) -> MountStepModel {
        match self {
            MountStep::AlreadyMounted => MountStepModel::AlreadyMounted,
            MountStep::Unavailable => MountStepModel::Unavailable,
            MountStep::Spawn(c) => MountStepModel::Spawn(c@),
        }
    }
}

impl DeepView for MountStep {
    type V = MountStepModel;

    open spec fn deep_view(&self) -> MountStepModel {
        self@
    }
}

/// What `prepare_unmount` asks of the caller.
#[derive(Debug, PartialEq, Eq)]
pub enum UnmountStep {
    /// The storage has no handle: nothing to run.
    NotMounted,
    /// The spawn of the storage's mount is still pending: nothing to run.
    Busy,
    /// Run this command line and report the outcome to `unmount`.
    Terminate(CommandLine),
}

/// An unmount step as plain values.
pub enum UnmountStepModel {
    NotMounted,
    Busy,
    Terminate(CommandModel),
}

impl View for UnmountStep {
    type V = UnmountStepModel;

    open spec fn view(&self) -> UnmountStepModel {
        match self {
            UnmountStep::NotMounted => UnmountStepModel::NotMounted,
            UnmountStep::Busy => UnmountStepModel::Busy,
            UnmountStep::Terminate(c) => UnmountStepModel::Terminate(c@),
        }
    }
}

impl DeepView for UnmountStep {
    type V = UnmountStepModel;

    open spec fn deep_view(&self) -> UnmountStepModel {
        self@
    }
}

/// True when handle `i` is the handle of storage `name`.
pub open spec fn is_handle_of(handles: Seq<HandleModel>, i: int, name: Seq<char>) -> bool {
    0 <= i < handles.len() && handles[i].name == name
}

/// True when storage `name` has a handle.
pub open spec fn has_handle(handles: Seq<HandleModel>, name: Seq<char>) -> bool {
    exists|i: int| is_handle_of(handles, i, name)
}

/// The position of the handle of storage `name`.
pub open spec fn handle_index(handles: Seq<HandleModel>, name: Seq<char>) -> int {
    choose|i: int| is_handle_of(handles, i, name)
}

/// True when handle `i` claims drive letter `c`.
pub open spec fn claims_letter(handles: Seq<HandleModel>, i: int, c: char) -> bool {
    0 <= i < handles.len() && handles[i].resource == ResourceModel::DriveLetter(c)
}

/// The drive letters that the handles claim, in the order of the handles.
pub open spec fn claimed_letters(handles: Seq<HandleModel>) -> Seq<char>
    decreases handles.len(),
{
    if handles.len() == 0 {
        Seq::empty()
    } else {
        match handles.last().resource {
            ResourceModel::DriveLetter(c) => claimed_letters(handles.drop_last()).push(c),
            ResourceModel::Directory(_) => claimed_letters(handles.drop_last()),
        }
    }
}

/// A letter is among the claimed letters exactly if some handle claims it.
pub proof fn lemma_claimed_letters(handles: Seq<HandleModel>, c: char)
    ensures
        claimed_letters(handles).contains(c) <==> exists|i: int| claims_letter(handles, i, c),
    decreases handles.len(),
{
    if handles.len() > 0 {
        let front = handles.drop_last();
        let n = front.len() as int;
        lemma_claimed_letters(front, c);
        let rest = claimed_letters(front);
        if claimed_letters(handles).contains(c) {
            let j = choose|j: int|
                0 <= j < claimed_letters(handles).len() && claimed_letters(handles)[j] == c;
            if j < rest.len() {
                assert(rest[j] == c);
                let i = choose|i: int| claims_letter(front, i, c);
                assert(claims_letter(handles, i, c));
            } else {
                assert(claims_letter(handles, n, c));
            }
        }
        if exists|i: int| claims_letter(handles, i, c) {
            let i = choose|i: int| claims_letter(handles, i, c);
            if i < n {
                assert(claims_letter(front, i, c));
                let j = choose|j: int| 0 <= j < rest.len() && rest[j] == c;
                assert(claimed_letters(handles)[j] == c);
            } else {
                assert(claimed_letters(handles) == rest.push(c));
                assert(rest.push(c)[rest.len() as int] == c);
            }
        }
    }
}

/// No two handles belong to the same storage.
pub open spec fn names_distinct(handles: Seq<HandleModel>) -> bool {
    forall|i: int, j: int|
        0 <= i < handles.len() && 0 <= j < handles.len() && i != j ==> handles[i].name
            != handles[j].name
}

/// No two handles claim the same drive letter.
pub open spec fn letters_distinct(handles: Seq<HandleModel>) -> bool {
    forall|i: int, j: int, c: char|
        claims_letter(handles, i, c) && claims_letter(handles, j, c) ==> i == j
}

/// With distinct names, a storage's handle is the one handle that bears its
/// name.
pub proof fn lemma_handle_index(handles: Seq<HandleModel>, i: int, name: Seq<char>)
    requires
        names_distinct(handles),
        is_handle_of(handles, i, name),
    ensures
        has_handle(handles, name),
        handle_index(handles, name) == i,
{
    let j = choose|j: int| is_handle_of(handles, j, name);
    assert(j == i);
}

/// The orchestrator as plain values.
pub struct MountingModel {
    pub host: HostModel,
    pub handles: Seq<HandleModel>,
}

/// How a spawn ended, for the storage at position `k` of a batch: failed
/// where the caller reported nothing.
pub open spec fn spawn_outcome_at(outcomes: Seq<Result<u32, MountError>>, k: int) -> Result<
    u32,
    MountError,
> {
    if 0 <= k < outcomes.len() {
        outcomes[k]
    } else {
        Err(MountError::SpawnFailed)
    }
}

/// How a teardown ended, for the storage at position `k` of a batch: failed
/// where the caller reported nothing.
pub open spec fn teardown_outcome_at(outcomes: Seq<Result<(), MountError>>, k: int) -> Result<
    (),
    MountError,
> {
    if 0 <= k < outcomes.len() {
        outcomes[k]
    } else {
        Err(MountError::TerminateFailed)
    }
}

/// The letter assigned to a storage, if any.
pub open spec fn assigned_letter(letters: Map<Seq<char>, char>, name: Seq<char>) -> Option<char> {
    if letters.contains_key(name) {
        Some(letters[name])
    } else {
        None
    }
}

impl MountingModel {
    /// No storage has two handles and no drive letter is claimed twice.
    pub open spec fn wf(self) -> bool {
        names_distinct(self.handles) && letters_distinct(self.handles)
    }

    /// The same orchestrator with other handles.
    pub open spec fn with_handles(self, handles: Seq<HandleModel>) -> MountingModel {
        MountingModel { host: self.host, handles }
    }

    /// True when the storage is considered mounted: it has a handle and, on
    /// Linux, its mount directory is not empty.
    pub open spec fn is_mounted(self, name: Seq<char>, directory_nonempty: bool) -> bool {
        has_handle(self.handles, name) && (self.host.platform is Linux ==> directory_nonempty)
    }

    /// True when the letter cannot be given to a new mount.
    pub open spec fn letter_occupied(self, c: char) -> bool {
        target_occupied(self.host.drives_in_use, claimed_letters(self.handles), c)
    }

    /// The first half of a mount. A storage that has a handle is left alone.
    /// Otherwise its target is resolved against the letters that the system
    /// reports in use and those that the handles claim; where one is found, a
    /// handle in state `Mounting` reserves it and the command line is handed
    /// out.
    pub open spec fn prepare_mount(
        self,
        name: Seq<char>,
        assigned: Option<char>,
        options: MountOptions,
    ) -> (MountingModel, MountStepModel) {
        if has_handle(self.handles, name) {
            (self, MountStepModel::AlreadyMounted)
        } else {
            match mount_target(self.host, claimed_letters(self.handles), name, assigned) {
                None => (self, MountStepModel::Unavailable),
                Some(target) => (
                    self.with_handles(
                        self.handles.push(
                            HandleModel {
                                name,
                                resource: target,
                                process_id: 0,
                                state: MountState::Mounting,
                            },
                        ),
                    ),
                    MountStepModel::Spawn(mount_command_spec(self.host, name, target, options)),
                ),
            }
        }
    }

    /// The second half of a mount. A storage without a handle is not mounted:
    /// false. A handle whose spawn was pending becomes `Mounted` with the
    /// process id where the spawn succeeded, and is removed where it failed.
    /// Any other handle is left alone: the storage is mounted already.
    pub open spec fn mount(self, name: Seq<char>, spawned: Result<u32, MountError>) -> (
        MountingModel,
        bool,
    ) {
        if !has_handle(self.handles, name) {
            (self, false)
        } else {
            let i = handle_index(self.handles, name);
            let handle = self.handles[i];
            if handle.state is Mounting {
                match spawned {
                    Ok(process_id) => (
                        self.with_handles(
                            self.handles.update(
                                i,
                                HandleModel {
                                    name: handle.name,
                                    resource: handle.resource,
                                    process_id,
                                    state: MountState::Mounted,
                                },
                            ),
                        ),
                        true,
                    ),
                    Err(_) => (self.with_handles(self.handles.remove(i)), false),
                }
            } else {
                (self, true)
            }
        }
    }

    /// The first half of an unmount. A storage without a handle needs no
    /// teardown. A handle whose spawn is pending is left alone. Any other
    /// handle becomes `Unmounting` and the teardown command is handed out.
    pub open spec fn prepare_unmount(self, name: Seq<char>) -> (MountingModel, UnmountStepModel) {
        if !has_handle(self.handles, name) {
            (self, UnmountStepModel::NotMounted)
        } else {
            let i = handle_index(self.handles, name);
            let handle = self.handles[i];
            if handle.state is Mounting {
                (self, UnmountStepModel::Busy)
            } else {
                (
                    self.with_handles(
                        self.handles.update(
                            i,
                            HandleModel {
                                name: handle.name,
                                resource: handle.resource,
                                process_id: handle.process_id,
                                state: MountState::Unmounting,
                            },
                        ),
                    ),
                    UnmountStepModel::Terminate(
                        teardown_command_spec(
                            self.host.platform,
                            handle.process_id,
                            handle.resource,
                        ),
                    ),
                )
            }
        }
    }

    /// The second half of an unmount. A storage without a handle is unmounted
    /// already: true, and nothing changes. A handle whose teardown was pending
    /// is removed where the teardown succeeded and goes back to `Mounted` where
    /// it failed. Any other handle is left alone: false.
    pub open spec fn unmount(self, name: Seq<char>, terminated: Result<(), MountError>) -> (
        MountingModel,
        bool,
    ) {
        if !has_handle(self.handles, name) {
            (self, true)
        } else {
            let i = handle_index(self.handles, name);
            let handle = self.handles[i];
            if handle.state is Unmounting {
                match terminated {
                    Ok(_) => (self.with_handles(self.handles.remove(i)), true),
                    Err(_) => (
                        self.with_handles(
                            self.handles.update(
                                i,
                                HandleModel {
                                    name: handle.name,
                                    resource: handle.resource,
                                    process_id: handle.process_id,
                                    state: MountState::Mounted,
                                },
                            ),
                        ),
                        false,
                    ),
                }
            } else {
                (self, false)
            }
        }
    }

    /// `prepare_mount` for each storage of a batch in turn, each with the
    /// letter that `letters` assigns to it.
    pub open spec fn prepare_mount_all(
        self,
        names: Seq<Seq<char>>,
        letters: Map<Seq<char>, char>,
        options: MountOptions,
    ) -> (MountingModel, Seq<MountStepModel>)
        decreases names.len(),
    {
        if names.len() == 0 {
            (self, Seq::empty())
        } else {
            let before = self.prepare_mount_all(names.drop_last(), letters, options);
            let last = before.0.prepare_mount(
                names.last(),
                assigned_letter(letters, names.last()),
                options,
            );
            (last.0, before.1.push(last.1))
        }
    }

    /// `mount` for each storage of a batch in turn, each with the outcome at
    /// its position. True when every one of them returned true.
    pub open spec fn mount_all(
        self,
        names: Seq<Seq<char>>,
        outcomes: Seq<Result<u32, MountError>>,
    ) -> (MountingModel, bool)
        decreases names.len(),
    {
        if names.len() == 0 {
            (self, true)
        } else {
            let before = self.mount_all(names.drop_last(), outcomes);
            let last = before.0.mount(names.last(), spawn_outcome_at(outcomes, names.len() - 1));
            (last.0, before.1 && last.1)
        }
    }

    /// `prepare_unmount` for each storage of a batch in turn.
    pub open spec fn prepare_unmount_all(self, names: Seq<Seq<char>>) -> (
        MountingModel,
        Seq<UnmountStepModel>,
    )
        decreases names.len(),
    {
        if names.len() == 0 {
            (self, Seq::empty())
        } else {
            let before = self.prepare_unmount_all(names.drop_last());
            let last = before.0.prepare_unmount(names.last());
            (last.0, before.1.push(last.1))
        }
    }

    /// `unmount` for each storage of a batch in turn, each with the outcome at
    /// its position. True when every one of them returned true.
    pub open spec fn unmount_all(
        self,
        names: Seq<Seq<char>>,
        outcomes: Seq<Result<(), MountError>>,
    ) -> (MountingModel, bool)
        decreases names.len(),
    {
        if names.len() == 0 {
            (self, true)
        } else {
            let before = self.unmount_all(names.drop_last(), outcomes);
            let last = before.0.unmount(
                names.last(),
                teardown_outcome_at(outcomes, names.len() - 1),
            );
            (last.0, before.1 && last.1)
        }
    }

    /// The names of the storages that have a handle, in the order of the
    /// handles.
    pub open spec fn mounted_names(self) -> Seq<Seq<char>> {
        Seq::new(self.handles.len(), |i: int| self.handles[i].name)
    }
}

/// Replacing one handle by another with the same name and target keeps the
/// handles well formed.
pub proof fn lemma_update_keeps_wf(handles: Seq<HandleModel>, i: int, handle: HandleModel)
    requires
        names_distinct(handles),
        letters_distinct(handles),
        0 <= i < handles.len(),
        handle.name == handles[i].name,
        handle.resource == handles[i].resource,
    ensures
        names_distinct(handles.update(i, handle)),
        letters_distinct(handles.update(i, handle)),
        claimed_letters(handles.update(i, handle)) == claimed_letters(handles),
        forall|name: Seq<char>|
            has_handle(handles.update(i, handle), name) == has_handle(handles, name),
    decreases handles.len(),
{
    let after = handles.update(i, handle);
    assert forall|a: int, b: int, c: char|
        claims_letter(after, a, c) && claims_letter(after, b, c) implies a == b by {
        assert(claims_letter(handles, a, c) && claims_letter(handles, b, c));
    }
    assert forall|name: Seq<char>| has_handle(after, name) == has_handle(handles, name) by {
        if has_handle(after, name) {
            let j = choose|j: int| is_handle_of(after, j, name);
            assert(is_handle_of(handles, j, name));
        }
        if has_handle(handles, name) {
            let j = choose|j: int| is_handle_of(handles, j, name);
            assert(is_handle_of(after, j, name));
        }
    }
    lemma_update_keeps_claims(handles, i, handle);
}

/// Replacing one handle by another with the same target keeps the claimed
/// letters.
pub proof fn lemma_update_keeps_claims(handles: Seq<HandleModel>, i: int, handle: HandleModel)
    requires
        0 <= i < handles.len(),
        handle.resource == handles[i].resource,
    ensures
        claimed_letters(handles.update(i, handle)) == claimed_letters(handles),
    decreases handles.len(),
{
    let after = handles.update(i, handle);
    if i == handles.len() - 1 {
        assert(after.drop_last() == handles.drop_last());
    } else {
        assert(after.drop_last() == handles.drop_last().update(i, handle));
        lemma_update_keeps_claims(handles.drop_last(), i, handle);
    }
}

/// Removing a handle keeps the handles well formed, and removes its storage
/// from them and no other.
pub proof fn lemma_remove_keeps_wf(handles: Seq<HandleModel>, i: int)
    requires
        names_distinct(handles),
        letters_distinct(handles),
        0 <= i < handles.len(),
    ensures
        names_distinct(handles.remove(i)),
        letters_distinct(handles.remove(i)),
        forall|name: Seq<char>|
            has_handle(handles.remove(i), name) == (has_handle(handles, name) && name
                != handles[i].name),
{
    let after = handles.remove(i);
    assert forall|a: int, b: int, c: char|
        claims_letter(after, a, c) && claims_letter(after, b, c) implies a == b by {
        let a0 = if a < i {
            a
        } else {
            a + 1
        };
        let b0 = if b < i {
            b
        } else {
            b + 1
        };
        assert(claims_letter(handles, a0, c) && claims_letter(handles, b0, c));
    }
    assert forall|name: Seq<char>|
        has_handle(after, name) == (has_handle(handles, name) && name != handles[i].name) by {
        if has_handle(after, name) {
            let j = choose|j: int| is_handle_of(after, j, name);
            let j0 = if j < i {
                j
            } else {
                j + 1
            };
            assert(is_handle_of(handles, j0, name));
        }
        if has_handle(handles, name) && name != handles[i].name {
            let j = choose|j: int| is_handle_of(handles, j, name);
            let j1 = if j < i {
                j
            } else {
                j - 1
            };
            assert(is_handle_of(after, j1, name));
        }
    }
}

/// Adding a handle for a storage that has none, on a target that no handle
/// claims, keeps the handles well formed.
pub proof fn lemma_push_keeps_wf(handles: Seq<HandleModel>, handle: HandleModel)
    requires
        names_distinct(handles),
        letters_distinct(handles),
        !has_handle(handles, handle.name),
        match handle.resource.letter() {
            Some(c) => !claimed_letters(handles).contains(c),
            None => true,
        },
    ensures
        names_distinct(handles.push(handle)),
        letters_distinct(handles.push(handle)),
        forall|name: Seq<char>|
            has_handle(handles.push(handle), name) == (has_handle(handles, name) || name
                == handle.name),
{
    let after = handles.push(handle);
    let n = handles.len() as int;
    assert forall|a: int, b: int|
        0 <= a < after.len() && 0 <= b < after.len() && a != b implies after[a].name
        != after[b].name by {
        if a < n {
            assert(!is_handle_of(handles, a, handle.name));
        }
        if b < n {
            assert(!is_handle_of(handles, b, handle.name));
        }
    }
    assert forall|a: int, b: int, c: char|
        claims_letter(after, a, c) && claims_letter(after, b, c) implies a == b by {
        lemma_claimed_letters(handles, c);
        if a < n && b < n {
            assert(claims_letter(handles, a, c) && claims_letter(handles, b, c));
        } else if a < n {
            assert(claims_letter(handles, a, c));
        } else if b < n {
            assert(claims_letter(handles, b, c));
        }
    }
    assert forall|name: Seq<char>|
        has_handle(after, name) == (has_handle(handles, name) || name == handle.name) by {
        if has_handle(after, name) {
            let j = choose|j: int| is_handle_of(after, j, name);
            if j < n {
                assert(is_handle_of(handles, j, name));
            }
        }
        if has_handle(handles, name) {
            let j = choose|j: int| is_handle_of(handles, j, name);
            assert(is_handle_of(after, j, name));
        }
        if name == handle.name {
            assert(is_handle_of(after, n, name));
        }
    }
}

/// The target that `mount_target` resolves is not claimed by any handle.
pub proof fn lemma_target_unclaimed(
    host: HostModel,
    claimed: Seq<char>,
    name: Seq<char>,
    assigned: Option<char>,
)
    ensures
        match mount_target(host, claimed, name, assigned) {
            Some(target) => match target.letter() {
                Some(c) => is_drive_letter(c) && !target_occupied(host.drives_in_use, claimed, c),
                None => true,
            },
            None => true,
        },
{
    lemma_first_free_letter(host.drives_in_use, claimed, 0);
}

impl MountingModel {
    /// Every step keeps the orchestrator well formed.
    pub proof fn lemma_steps_keep_wf(
        self,
        name: Seq<char>,
        assigned: Option<char>,
        options: MountOptions,
        spawned: Result<u32, MountError>,
        terminated: Result<(), MountError>,
    )
        requires
            self.wf(),
        ensures
            self.prepare_mount(name, assigned, options).0.wf(),
            self.mount(name, spawned).0.wf(),
            self.prepare_unmount(name).0.wf(),
            self.unmount(name, terminated).0.wf(),
    {
        let hs = self.handles;
        if has_handle(hs, name) {
            let i = handle_index(hs, name);
            let h = hs[i];
            lemma_remove_keeps_wf(hs, i);
            lemma_update_keeps_wf(
                hs,
                i,
                HandleModel {
                    name: h.name,
                    resource: h.resource,
                    process_id: h.process_id,
                    state: MountState::Unmounting,
                },
            );
            lemma_update_keeps_wf(
                hs,
                i,
                HandleModel {
                    name: h.name,
                    resource: h.resource,
                    process_id: h.process_id,
                    state: MountState::Mounted,
                },
            );
            match spawned {
                Ok(process_id) => {
                    lemma_update_keeps_wf(
                        hs,
                        i,
                        HandleModel {
                            name: h.name,
                            resource: h.resource,
                            process_id,
                            state: MountState::Mounted,
                        },
                    );
                },
                Err(_) => {},
            }
        } else {
            let claimed = claimed_letters(hs);
            lemma_target_unclaimed(self.host, claimed, name, assigned);
            match mount_target(self.host, claimed, name, assigned) {
                Some(target) => {
                    lemma_push_keeps_wf(
                        hs,
                        HandleModel {
                            name,
                            resource: target,
                            process_id: 0,
                            state: MountState::Mounting,
                        },
                    );
                },
                None => {},
            }
        }
    }
}

/// The live mounts of one machine.
#[derive(Debug)]
pub struct MountingStorage {
    host: Host,
    handles: Vec<MountHandle>,
}

impl View for MountingStorage {
    type V = MountingModel;

    closed spec fn view(&self) -> MountingModel {
        MountingModel { host: self.host@, handles: self.handles.deep_view() }
    }
}

impl MountingStorage {
    /// No storage has two handles and no drive letter is claimed twice.
    #[verifier::type_invariant]
    pub closed spec fn inv(self) -> bool {
        self@.wf()
    }

    /// An orchestrator without mounts.
    pub fn new(host: Host) -> (out: Self)
        ensures
            out@ == (MountingModel { host: host@, handles: Seq::empty() }),
            out@.wf(),
    {
        let out = MountingStorage { host, handles: Vec::new() };
        assert(out@.handles =~= Seq::empty());
        out
    }

    /// The machine that the mounts are made on.
    pub fn host(&self) -> (host: &Host)
        ensures
            host@ == self@.host,
    {
        &self.host
    }

    /// Brings the system's logical-drive mask up to date.
    pub fn set_drives_in_use(&mut self, mask: u32)
        ensures
            final(self)@.handles == old(self)@.handles,
            final(self)@.host == (HostModel { drives_in_use: mask, ..old(self)@.host }),
            final(self)@.wf(),
    {
        proof {
            use_type_invariant(&*self);
        }
        self.host.drives_in_use = mask;
    }

    fn find(&self, name: &str) -> (r: Option<usize>)
        ensures
            match r {
                Some(i) => i < self.handles.len() && is_handle_of(self@.handles, i as int, name@)
                    && has_handle(self@.handles, name@) && handle_index(self@.handles, name@)
                    == i,
                None => !has_handle(self@.handles, name@),
            },
    {
        let mut i: usize = 0;
        while i < self.handles.len()
            invariant
                i <= self.handles.len(),
                forall|j: int| 0 <= j < i ==> !is_handle_of(self@.handles, j, name@),
            decreases self.handles.len() - i,
        {
            if self.handles[i].storage_name.as_str().eq(name) {
                proof {
                    use_type_invariant(self);
                    lemma_handle_index(self@.handles, i as int, name@);
                }
                return Some(i);
            }
            i += 1;
        }
        None
    }

    fn claimed(&self) -> (out: Vec<char>)
        ensures
            out@ == claimed_letters(self@.handles),
    {
        let mut out: Vec<char> = Vec::new();
        let mut i: usize = 0;
        while i < self.handles.len()
            invariant
                i <= self.handles.len(),
                out@ == claimed_letters(self@.handles.take(i as int)),
            decreases self.handles.len() - i,
        {
            proof {
                let next = self@.handles.take(i as int + 1);
                assert(next.drop_last() == self@.handles.take(i as int));
                assert(next.last() == self.handles@[i as int]@);
            }
            match &self.handles[i].os_resource {
                OsResource::DriveLetter(c) => {
                    out.push(*c);
                },
                OsResource::Directory(_) => {},
            }
            i += 1;
        }
        assert(self@.handles.take(self.handles.len() as int) == self@.handles);
        out
    }

    /// The number of handles, at most `u32::MAX`.
    pub fn total_mounted(&self) -> (n: u32)
        ensures
            n == if self@.handles.len() <= u32::MAX {
                self@.handles.len() as int
            } else {
                u32::MAX as int
            },
    {
        let n = self.handles.len();
        if n <= u32::MAX as usize {
            n as u32
        } else {
            u32::MAX
        }
    }

    /// True when the drive letter cannot be given to a new mount: the system
    /// reports it in use, or a handle claims it.
    pub fn is_drive_letter_mounted(&self, drive: char) -> (r: bool)
        ensures
            r == self@.letter_occupied(drive),
    {
        let claimed = self.claimed();
        is_target_occupied(&self.host, &claimed, drive)
    }

    /// True when the storage is considered mounted. On Linux a handle alone
    /// is not enough: the mount directory must hold something as well, which
    /// the caller has probed.
    pub fn is_mounted(&self, name: &str, directory_nonempty: bool) -> (r: bool)
        ensures
            r == self@.is_mounted(name@, directory_nonempty),
    {
        match self.find(name) {
            Some(_) => match self.host.platform {
                Platform::Linux => directory_nonempty,
                _ => true,
            },
            None => false,
        }
    }

    /// Where the storage is mounted, as it is shown: the bare drive letter or
    /// the directory. `None` where the storage has no handle.
    pub fn get_mounted(&self, name: &str) -> (r: Option<String>)
        ensures
            match r {
                Some(label) => has_handle(self@.handles, name@) && label@ == match self@.handles[handle_index(
                    self@.handles,
                    name@,
                )].resource {
                    ResourceModel::DriveLetter(c) => seq![c],
                    ResourceModel::Directory(p) => p,
                },
                None => !has_handle(self@.handles, name@),
            },
    {
        match self.find(name) {
            Some(i) => {
                Some(self.handles[i].os_resource.label())
            },
            None => None,
        }
    }

    /// The state of the storage's handle, if it has one.
    pub fn state_of(&self, name: &str) -> (r: Option<MountState>)
        ensures
            r == if has_handle(self@.handles, name@) {
                Some(self@.handles[handle_index(self@.handles, name@)].state)
            } else {
                None
            },
    {
        match self.find(name) {
            Some(i) => {
                Some(self.handles[i].state)
            },
            None => None,
        }
    }

    /// The id of the storage's mount process, if it has a handle.
    pub fn process_id_of(&self, name: &str) -> (r: Option<u32>)
        ensures
            r == if has_handle(self@.handles, name@) {
                Some(self@.handles[handle_index(self@.handles, name@)].process_id)
            } else {
                None
            },
    {
        match self.find(name) {
            Some(i) => {
                Some(self.handles[i].process_id)
            },
            None => None,
        }
    }

    /// The names of the storages that have a handle, in the order of the
    /// handles.
    pub fn mounted_names(&self) -> (names: Vec<String>)
        ensures
            names.deep_view() == self@.mounted_names(),
    {
        let mut names: Vec<String> = Vec::new();
        let mut i: usize = 0;
        while i < self.handles.len()
            invariant
                i <= self.handles.len(),
                names@.len() == i,
                forall|j: int| 0 <= j < i ==> names@[j]@ == self@.handles[j].name,
            decreases self.handles.len() - i,
        {
            names.push(self.handles[i].storage_name.clone());
            i += 1;
        }
        assert(names.deep_view() =~= self@.mounted_names());
        names
    }

    fn replace(&mut self, i: usize, process_id: u32, state: MountState)
        requires
            i < old(self)@.handles.len(),
        ensures
            final(self)@ == old(self)@.with_handles(
                old(self)@.handles.update(
                    i as int,
                    HandleModel {
                        name: old(self)@.handles[i as int].name,
                        resource: old(self)@.handles[i as int].resource,
                        process_id,
                        state,
                    },
                ),
            ),
            final(self)@.wf(),
    {
        proof {
            use_type_invariant(&*self);
        }
        let ghost before = self@.handles;
        let mut handles: Vec<MountHandle> = Vec::new();
        core::mem::swap(&mut self.handles, &mut handles);
        let handle = MountHandle {
            storage_name: handles[i].storage_name.clone(),
            os_resource: handles[i].os_resource.duplicate(),
            process_id,
            state,
        };
        handles.set(i, handle);
        proof {
            assert(handles.deep_view() =~= before.update(i as int, handle@));
            lemma_update_keeps_wf(before, i as int, handle@);
        }
        self.handles = handles;
    }

    fn discard(&mut self, i: usize)
        requires
            i < old(self)@.handles.len(),
        ensures
            final(self)@ == old(self)@.with_handles(old(self)@.handles.remove(i as int)),
            final(self)@.wf(),
    {
        proof {
            use_type_invariant(&*self);
        }
        let ghost before = self@.handles;
        let mut handles: Vec<MountHandle> = Vec::new();
        core::mem::swap(&mut self.handles, &mut handles);
        let _ = handles.remove(i);
        proof {
            assert(handles.deep_view() =~= before.remove(i as int));
            lemma_remove_keeps_wf(before, i as int);
        }
        self.handles = handles;
    }

    /// The first half of a mount: reserves the storage's target and hands out
    /// the command line that mounts it. `assigned` is the drive letter that
    /// the user has chosen for the storage, if any.
    pub fn prepare_mount(&mut self, name: &str, assigned: Option<char>, options: MountOptions) -> (step:
        MountStep)
        ensures
            (final(self)@, step@) == old(self)@.prepare_mount(name@, assigned, options),
            final(self)@.wf(),
    {
        proof {
            use_type_invariant(&*self);
        }
        if self.find(name).is_some() {
            return MountStep::AlreadyMounted;
        }
        let claimed = self.claimed();
        match build_mount_target(&self.host, &claimed, name, assigned) {
            None => MountStep::Unavailable,
            Some(target) => {
                let command = mount_command(&self.host, name, &target, options);
                let handle = MountHandle {
                    storage_name: name.to_owned(),
                    os_resource: target,
                    process_id: 0,
                    state: MountState::Mounting,
                };
                let ghost before = self@.handles;
                let mut handles: Vec<MountHandle> = Vec::new();
                core::mem::swap(&mut self.handles, &mut handles);
                proof {
                    lemma_target_unclaimed(self@.host, claimed@, name@, assigned);
                    lemma_push_keeps_wf(before, handle@);
                }
                handles.push(handle);
                assert(handles.deep_view() =~= before.push(handle@));
                self.handles = handles;
                MountStep::Spawn(command)
            },
        }
    }

    /// The second half of a mount: records how the spawn ended. True when the
    /// storage is mounted afterwards.
    pub fn mount(&mut self, name: &str, spawned: Result<u32, MountError>) -> (mounted: bool)
        ensures
            (final(self)@, mounted) == old(self)@.mount(name@, spawned),
            final(self)@.wf(),
    {
        proof {
            use_type_invariant(&*self);
        }
        match self.find(name) {
            None => false,
            Some(i) => {
                match self.handles[i].state {
                    MountState::Mounting => match spawned {
                        Ok(process_id) => {
                            self.replace(i, process_id, MountState::Mounted);
                            true
                        },
                        Err(_) => {
                            self.discard(i);
                            false
                        },
                    },
                    _ => true,
                }
            },
        }
    }

    /// The first half of an unmount: hands out the command line that tears
    /// the storage's mount down.
    pub fn prepare_unmount(&mut self, name: &str) -> (step: UnmountStep)
        ensures
            (final(self)@, step@) == old(self)@.prepare_unmount(name@),
            final(self)@.wf(),
    {
        proof {
            use_type_invariant(&*self);
        }
        match self.find(name) {
            None => UnmountStep::NotMounted,
            Some(i) => {
                match self.handles[i].state {
                    MountState::Mounting => UnmountStep::Busy,
                    _ => {
                        let process_id = self.handles[i].process_id;
                        let command = teardown_command(
                            self.host.platform,
                            process_id,
                            &self.handles[i].os_resource,
                        );
                        self.replace(i, process_id, MountState::Unmounting);
                        UnmountStep::Terminate(command)
                    },
                }
            },
        }
    }

    /// The second half of an unmount: records how the teardown ended. True
    /// when the storage is unmounted afterwards.
    pub fn unmount(&mut self, name: &str, terminated: Result<(), MountError>) -> (unmounted: bool)
        ensures
            (final(self)@, unmounted) == old(self)@.unmount(name@, terminated),
            final(self)@.wf(),
    {
        proof {
            use_type_invariant(&*self);
        }
        match self.find(name) {
            None => true,
            Some(i) => {
                match self.handles[i].state {
                    MountState::Unmounting => match terminated {
                        Ok(_) => {
                            self.discard(i);
                            true
                        },
                        Err(_) => {
                            let process_id = self.handles[i].process_id;
                            self.replace(i, process_id, MountState::Mounted);
                            false
                        },
                    },
                    _ => false,
                }
            },
        }
    }

    /// The first half of a batch of mounts: `prepare_mount` for each storage
    /// in turn, with the letter that `letters` assigns to it. The steps come
    /// back in the order of the storages.
    pub fn prepare_mount_all(
        &mut self,
        names: &Vec<String>,
        letters: &NameMap<char>,
        options: MountOptions,
    ) -> (steps: Vec<MountStep>)
        ensures
            (final(self)@, steps.deep_view()) == old(self)@.prepare_mount_all(
                names.deep_view(),
                letters@,
                options,
            ),
            final(self)@.wf(),
    {
        proof {
            use_type_invariant(&*self);
        }
        let ghost start = self@;
        let mut steps: Vec<MountStep> = Vec::new();
        let mut i: usize = 0;
        assert(names.deep_view().take(0) =~= Seq::<Seq<char>>::empty());
        assert(steps.deep_view() =~= Seq::<MountStepModel>::empty());
        while i < names.len()
            invariant
                i <= names.len(),
                self@.wf(),
                (self@, steps.deep_view()) == start.prepare_mount_all(
                    names.deep_view().take(i as int),
                    letters@,
                    options,
                ),
            decreases names.len() - i,
        {
            let ghost before = steps.deep_view();
            let assigned = letters.get(names[i].as_str());
            let step = self.prepare_mount(names[i].as_str(), assigned, options);
            let ghost step_model = step@;
            steps.push(step);
            proof {
                let taken = names.deep_view().take(i as int + 1);
                assert(taken.drop_last() == names.deep_view().take(i as int));
                assert(taken.last() == names@[i as int]@);
                assert(steps.deep_view() =~= before.push(step_model));
            }
            i += 1;
        }
        assert(names.deep_view().take(names.len() as int) == names.deep_view());
        steps
    }

    /// The second half of a batch of mounts: `mount` for each storage in
    /// turn, with the outcome at its position; a storage without an outcome
    /// counts as failed. A failure does not stop the batch. True when every
    /// storage of the batch is mounted afterwards.
    pub fn mount_all(&mut self, names: &Vec<String>, outcomes: &Vec<Result<u32, MountError>>) -> (all:
        bool)
        ensures
            (final(self)@, all) == old(self)@.mount_all(names.deep_view(), outcomes@),
            final(self)@.wf(),
    {
        proof {
            use_type_invariant(&*self);
        }
        let ghost start = self@;
        let mut all = true;
        let mut i: usize = 0;
        assert(names.deep_view().take(0) =~= Seq::<Seq<char>>::empty());
        while i < names.len()
            invariant
                i <= names.len(),
                self@.wf(),
                (self@, all) == start.mount_all(names.deep_view().take(i as int), outcomes@),
            decreases names.len() - i,
        {
            let outcome = if i < outcomes.len() {
                outcomes[i]
            } else {
                Err(MountError::SpawnFailed)
            };
            let mounted = self.mount(names[i].as_str(), outcome);
            proof {
                let taken = names.deep_view().take(i as int + 1);
                assert(taken.drop_last() == names.deep_view().take(i as int));
                assert(taken.last() == names@[i as int]@);
            }
            all = all && mounted;
            i += 1;
        }
        assert(names.deep_view().take(names.len() as int) == names.deep_view());
        all
    }

    /// The first half of a batch of unmounts: `prepare_unmount` for each
    /// storage in turn. The steps come back in the order of the storages.
    pub fn prepare_unmount_all(&mut self, names: &Vec<String>) -> (steps: Vec<UnmountStep>)
        ensures
            (final(self)@, steps.deep_view()) == old(self)@.prepare_unmount_all(names.deep_view()),
            final(self)@.wf(),
    {
        proof {
            use_type_invariant(&*self);
        }
        let ghost start = self@;
        let mut steps: Vec<UnmountStep> = Vec::new();
        let mut i: usize = 0;
        assert(names.deep_view().take(0) =~= Seq::<Seq<char>>::empty());
        assert(steps.deep_view() =~= Seq::<UnmountStepModel>::empty());
        while i < names.len()
            invariant
                i <= names.len(),
                self@.wf(),
                (self@, steps.deep_view()) == start.prepare_unmount_all(
                    names.deep_view().take(i as int),
                ),
            decreases names.len() - i,
        {
            let ghost before = steps.deep_view();
            let step = self.prepare_unmount(names[i].as_str());
            let ghost step_model = step@;
            steps.push(step);
            proof {
                let taken = names.deep_view().take(i as int + 1);
                assert(taken.drop_last() == names.deep_view().take(i as int));
                assert(taken.last() == names@[i as int]@);
                assert(steps.deep_view() =~= before.push(step_model));
            }
            i += 1;
        }
        assert(names.deep_view().take(names.len() as int) == names.deep_view());
        steps
    }

    /// The second half of a batch of unmounts: `unmount` for each storage in
    /// turn, with the outcome at its position; a storage without an outcome
    /// counts as failed. A failure does not stop the batch. True when every
    /// storage of the batch is unmounted afterwards.
    pub fn unmount_all(&mut self, names: &Vec<String>, outcomes: &Vec<Result<(), MountError>>) -> (all:
        bool)
        ensures
            (final(self)@, all) == old(self)@.unmount_all(names.deep_view(), outcomes@),
            final(self)@.wf(),
    {
        proof {
            use_type_invariant(&*self);
        }
        let ghost start = self@;
        let mut all = true;
        let mut i: usize = 0;
        assert(names.deep_view().take(0) =~= Seq::<Seq<char>>::empty());
        while i < names.len()
            invariant
                i <= names.len(),
                self@.wf(),
                (self@, all) == start.unmount_all(names.deep_view().take(i as int), outcomes@),
            decreases names.len() - i,
        {
            let outcome = if i < outcomes.len() {
                outcomes[i]
            } else {
                Err(MountError::TerminateFailed)
            };
            let unmounted = self.unmount(names[i].as_str(), outcome);
            proof {
                let taken = names.deep_view().take(i as int + 1);
                assert(taken.drop_last() == names.deep_view().take(i as int));
                assert(taken.last() == names@[i as int]@);
            }
            all = all && unmounted;
            i += 1;
        }
        assert(names.deep_view().take(names.len() as int) == names.deep_view());
        all
    }
}

} // verus!
