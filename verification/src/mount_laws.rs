//! What holds of the orchestrator whatever the storages, the machine and the
//! outcomes of the spawned commands are.

use crate::mounting::{
    assigned_letter, claimed_letters, handle_index, has_handle, is_handle_of, letters_distinct,
    lemma_handle_index, names_distinct,
    lemma_push_keeps_wf, lemma_remove_keeps_wf, lemma_target_unclaimed, lemma_update_keeps_wf,
    spawn_outcome_at, teardown_outcome_at, HandleModel, MountError, MountState, MountStepModel,
    MountingModel, UnmountStepModel,
};
use crate::platform::{mount_target, MountOptions, ResourceModel};
use vstd::prelude::*;

verus! {

/// Every step, single or batched, leaves at most one handle for each storage
/// and at most one handle on each drive letter.
pub proof fn lemma_batches_keep_wf(
    m: MountingModel,
    names: Seq<Seq<char>>,
    letters: Map<Seq<char>, char>,
    options: MountOptions,
    spawned: Seq<Result<u32, MountError>>,
    terminated: Seq<Result<(), MountError>>,
)
    requires
        m.wf(),
    ensures
        m.prepare_mount_all(names, letters, options).0.wf(),
        m.mount_all(names, spawned).0.wf(),
        m.prepare_unmount_all(names).0.wf(),
        m.unmount_all(names, terminated).0.wf(),
        m.prepare_mount_all(names, letters, options).1.len() == names.len(),
        m.prepare_unmount_all(names).1.len() == names.len(),
    decreases names.len(),
{
    if names.len() > 0 {
        let front = names.drop_last();
        let k = names.len() - 1;
        lemma_batches_keep_wf(m, front, letters, options, spawned, terminated);
        let any_spawn: Result<u32, MountError> = Err(MountError::SpawnFailed);
        let any_teardown: Result<(), MountError> = Err(MountError::TerminateFailed);
        m.prepare_mount_all(front, letters, options).0.lemma_steps_keep_wf(
            names.last(),
            assigned_letter(letters, names.last()),
            options,
            any_spawn,
            any_teardown,
        );
        m.mount_all(front, spawned).0.lemma_steps_keep_wf(
            names.last(),
            None,
            options,
            spawn_outcome_at(spawned, k),
            any_teardown,
        );
        m.prepare_unmount_all(front).0.lemma_steps_keep_wf(
            names.last(),
            None,
            options,
            any_spawn,
            any_teardown,
        );
        m.unmount_all(front, terminated).0.lemma_steps_keep_wf(
            names.last(),
            None,
            options,
            any_spawn,
            teardown_outcome_at(terminated, k),
        );
    }
}

/// Mounting is idempotent. Once a storage's spawn has succeeded, a second
/// mount of it hands out no command line, adds no handle and reports the
/// storage as mounted, whatever letter, options or outcome come with it.
pub proof fn lemma_mount_twice(
    m: MountingModel,
    name: Seq<char>,
    assigned: Option<char>,
    options: MountOptions,
    process_id: u32,
    assigned_again: Option<char>,
    options_again: MountOptions,
    spawned_again: Result<u32, MountError>,
)
    requires
        m.wf(),
        m.prepare_mount(name, assigned, options).1 is Spawn,
    ensures
        ({
            let first = m.prepare_mount(name, assigned, options).0.mount(name, Ok(process_id));
            let again = first.0.prepare_mount(name, assigned_again, options_again);
            &&& first.1
            &&& has_handle(first.0.handles, name)
            &&& again.1 is AlreadyMounted
            &&& again.0 == first.0
            &&& again.0.mount(name, spawned_again) == (first.0, true)
        }),
{
    let prepared = m.prepare_mount(name, assigned, options).0;
    let target = mount_target(m.host, claimed_letters(m.handles), name, assigned)->Some_0;
    let fresh = HandleModel { name, resource: target, process_id: 0, state: MountState::Mounting };
    let n = m.handles.len() as int;
    lemma_target_unclaimed(m.host, claimed_letters(m.handles), name, assigned);
    lemma_push_keeps_wf(m.handles, fresh);
    assert(prepared.handles == m.handles.push(fresh));
    assert(is_handle_of(prepared.handles, n, name));
    lemma_handle_index(prepared.handles, n, name);
    let first = prepared.mount(name, Ok(process_id));
    assert(is_handle_of(first.0.handles, n, name));
    m.prepare_mount(name, assigned, options).0.lemma_steps_keep_wf(
        name,
        None,
        options,
        Ok(process_id),
        Err(MountError::TerminateFailed),
    );
    lemma_handle_index(first.0.handles, n, name);
}

/// A storage that has a handle whose spawn is not pending is mounted: a
/// mount of it changes nothing and returns true.
pub proof fn lemma_mount_when_mounted(
    m: MountingModel,
    name: Seq<char>,
    assigned: Option<char>,
    options: MountOptions,
    spawned: Result<u32, MountError>,
)
    requires
        has_handle(m.handles, name),
        !(m.handles[handle_index(m.handles, name)].state is Mounting),
    ensures
        m.prepare_mount(name, assigned, options) == (m, MountStepModel::AlreadyMounted),
        m.mount(name, spawned) == (m, true),
{
}

/// Unmounting a storage that has no handle is a no-op that returns true.
pub proof fn lemma_unmount_without_handle(
    m: MountingModel,
    name: Seq<char>,
    terminated: Result<(), MountError>,
)
    requires
        !has_handle(m.handles, name),
    ensures
        m.prepare_unmount(name) == (m, UnmountStepModel::NotMounted),
        m.unmount(name, terminated) == (m, true),
{
}

/// The handle of a storage whose teardown failed is kept, and the storage
/// still counts as mounted.
pub proof fn lemma_failed_unmount_keeps_handle(
    m: MountingModel,
    name: Seq<char>,
    error: MountError,
)
    requires
        m.wf(),
        has_handle(m.handles, name),
    ensures
        !m.unmount(name, Err(error)).1,
        has_handle(m.unmount(name, Err(error)).0.handles, name),
{
    let i = handle_index(m.handles, name);
    let after = m.unmount(name, Err(error)).0;
    assert(is_handle_of(after.handles, i, name));
}

/// The handle that reserves a target for a storage whose spawn is pending.
pub open spec fn fresh_handle(name: Seq<char>, target: ResourceModel) -> HandleModel {
    HandleModel { name, resource: target, process_id: 0, state: MountState::Mounting }
}

/// What a batch over two storages leaves behind where both get a command
/// line: the storages differ, and their two handles stand at the end of the
/// handles, in the order of the batch.
pub proof fn lemma_two_reserved(
    m: MountingModel,
    a: Seq<char>,
    b: Seq<char>,
    letters: Map<Seq<char>, char>,
    options: MountOptions,
)
    requires
        m.wf(),
        m.prepare_mount_all(seq![a, b], letters, options).1[0] is Spawn,
        m.prepare_mount_all(seq![a, b], letters, options).1[1] is Spawn,
    ensures
        ({
            let la = assigned_letter(letters, a);
            let lb = assigned_letter(letters, b);
            let first = m.prepare_mount(a, la, options).0;
            let both = m.prepare_mount_all(seq![a, b], letters, options).0;
            let ta = mount_target(m.host, claimed_letters(m.handles), a, la);
            let tb = mount_target(first.host, claimed_letters(first.handles), b, lb);
            let n = m.handles.len() as int;
            &&& a != b
            &&& ta is Some
            &&& tb is Some
            &&& first.handles == m.handles.push(fresh_handle(a, ta->Some_0))
            &&& both == first.prepare_mount(b, lb, options).0
            &&& both.handles == first.handles.push(fresh_handle(b, tb->Some_0))
            &&& first.wf()
            &&& both.wf()
            &&& has_handle(both.handles, a)
            &&& handle_index(both.handles, a) == n
            &&& has_handle(both.handles, b)
            &&& handle_index(both.handles, b) == n + 1
        }),
{
    let names = seq![a, b];
    let la = assigned_letter(letters, a);
    let lb = assigned_letter(letters, b);
    assert(names.drop_last() == seq![a]);
    assert(seq![a].drop_last() == Seq::<Seq<char>>::empty());
    assert(names.last() == b && seq![a].last() == a);
    let none = m.prepare_mount_all(Seq::<Seq<char>>::empty(), letters, options);
    assert(none.0 == m);
    let one = m.prepare_mount_all(seq![a], letters, options);
    assert(one.0 == m.prepare_mount(a, la, options).0);
    assert(one.1 == Seq::<MountStepModel>::empty().push(m.prepare_mount(a, la, options).1));
    let two = m.prepare_mount_all(names, letters, options);
    assert(two.0 == one.0.prepare_mount(b, lb, options).0);
    assert(two.1 == one.1.push(one.0.prepare_mount(b, lb, options).1));
    assert(two.1[0] == m.prepare_mount(a, la, options).1);
    assert(two.1[1] == one.0.prepare_mount(b, lb, options).1);
    let n = m.handles.len() as int;
    let claimed = claimed_letters(m.handles);
    let ha = fresh_handle(a, mount_target(m.host, claimed, a, la)->Some_0);
    lemma_target_unclaimed(m.host, claimed, a, la);
    lemma_push_keeps_wf(m.handles, ha);
    assert(one.0.handles == m.handles.push(ha));
    assert(is_handle_of(one.0.handles, n, a));
    let claimed_one = claimed_letters(one.0.handles);
    let hb = fresh_handle(b, mount_target(one.0.host, claimed_one, b, lb)->Some_0);
    lemma_target_unclaimed(one.0.host, claimed_one, b, lb);
    lemma_push_keeps_wf(one.0.handles, hb);
    assert(two.0.handles == one.0.handles.push(hb));
    assert(is_handle_of(two.0.handles, n, a));
    assert(is_handle_of(two.0.handles, n + 1, b));
    lemma_handle_index(two.0.handles, n, a);
    lemma_handle_index(two.0.handles, n + 1, b);
}

/// A batch of mounts tolerates partial failure. Where the spawn of the first
/// of two storages fails and that of the second succeeds, the batch returns
/// false, the second storage is mounted and the first is not.
pub proof fn lemma_mount_all_partial_failure(
    m: MountingModel,
    a: Seq<char>,
    b: Seq<char>,
    letters: Map<Seq<char>, char>,
    options: MountOptions,
    error: MountError,
    process_id: u32,
)
    requires
        m.wf(),
        m.prepare_mount_all(seq![a, b], letters, options).1[0] is Spawn,
        m.prepare_mount_all(seq![a, b], letters, options).1[1] is Spawn,
    ensures
        ({
            let prepared = m.prepare_mount_all(seq![a, b], letters, options).0;
            let done = prepared.mount_all(seq![a, b], seq![Err(error), Ok(process_id)]);
            &&& !done.1
            &&& !has_handle(done.0.handles, a)
            &&& has_handle(done.0.handles, b)
            &&& done.0.handles[handle_index(done.0.handles, b)].state is Mounted
            &&& forall|probe: bool| !done.0.is_mounted(a, probe)
            &&& done.0.is_mounted(b, true)
        }),
{
    let names = seq![a, b];
    let outcomes: Seq<Result<u32, MountError>> = seq![Err(error), Ok(process_id)];
    lemma_two_reserved(m, a, b, letters, options);
    let prepared = m.prepare_mount_all(names, letters, options).0;
    let n = m.handles.len() as int;
    // the outcomes are recorded in turn
    assert(names.drop_last() == seq![a]);
    assert(seq![a].drop_last() == Seq::<Seq<char>>::empty());
    assert(names.last() == b && seq![a].last() == a);
    let m0 = prepared.mount_all(Seq::<Seq<char>>::empty(), outcomes);
    assert(m0 == (prepared, true));
    let m1 = prepared.mount_all(seq![a], outcomes);
    assert(m1.0 == prepared.mount(a, Err(error)).0);
    assert(m1.0.handles == prepared.handles.remove(n));
    assert(!m1.1);
    lemma_remove_keeps_wf(prepared.handles, n);
    assert(is_handle_of(m1.0.handles, n, b));
    lemma_handle_index(m1.0.handles, n, b);
    let m2 = prepared.mount_all(names, outcomes);
    assert(m2.0 == m1.0.mount(b, Ok(process_id)).0);
    let mounted = HandleModel {
        name: b,
        resource: m1.0.handles[n].resource,
        process_id,
        state: MountState::Mounted,
    };
    assert(m2.0.handles == m1.0.handles.update(n, mounted));
    lemma_update_keeps_wf(m1.0.handles, n, mounted);
    assert(is_handle_of(m2.0.handles, n, b));
    lemma_handle_index(m2.0.handles, n, b);
}

/// The drive letter of a storage's handle, if it has a handle on a letter.
pub open spec fn letter_of(handles: Seq<HandleModel>, name: Seq<char>) -> Option<char> {
    if has_handle(handles, name) {
        handles[handle_index(handles, name)].resource.letter()
    } else {
        None
    }
}

/// On a platform with drive letters, a batch over two storages without
/// assigned letters gives them two distinct letters, each of them free before
/// the batch. Once the first has its letter, the letter is occupied: the
/// second storage cannot have it, not even by assignment.
pub proof fn lemma_batch_letters_distinct(
    m: MountingModel,
    a: Seq<char>,
    b: Seq<char>,
    options: MountOptions,
)
    requires
        m.wf(),
        m.host.platform.uses_letters(),
        m.prepare_mount_all(seq![a, b], Map::empty(), options).1[0] is Spawn,
        m.prepare_mount_all(seq![a, b], Map::empty(), options).1[1] is Spawn,
    ensures
        ({
            let after_first = m.prepare_mount(a, None, options).0;
            let prepared = m.prepare_mount_all(seq![a, b], Map::empty(), options).0;
            let first = letter_of(prepared.handles, a);
            let second = letter_of(prepared.handles, b);
            &&& first is Some
            &&& second is Some
            &&& first != second
            &&& !m.letter_occupied(first->Some_0)
            &&& !m.letter_occupied(second->Some_0)
            &&& after_first.letter_occupied(first->Some_0)
            &&& after_first.prepare_mount(b, first, options) == (
                after_first,
                MountStepModel::Unavailable,
            )
        }),
{
    let letters = Map::<Seq<char>, char>::empty();
    lemma_two_reserved(m, a, b, letters, options);
    let first = m.prepare_mount(a, None, options).0;
    let claimed = claimed_letters(m.handles);
    let claimed_first = claimed_letters(first.handles);
    let ca = mount_target(m.host, claimed, a, None)->Some_0.letter()->Some_0;
    let cb = mount_target(first.host, claimed_first, b, None)->Some_0.letter()->Some_0;
    lemma_target_unclaimed(m.host, claimed, a, None);
    lemma_target_unclaimed(first.host, claimed_first, b, None);
    // the first letter is claimed once its handle is there
    assert(first.handles.drop_last() == m.handles);
    assert(claimed_first == claimed.push(ca));
    assert(claimed_first[claimed.len() as int] == ca);
    assert(claimed_first.contains(ca));
    // the second letter was free before the batch as well
    if claimed.contains(cb) {
        let j = choose|j: int| 0 <= j < claimed.len() && claimed[j] == cb;
        assert(claimed_first[j] == cb);
    }
}

/// A mount that returns true leaves the storage with a handle and takes no
/// handle away.
pub proof fn lemma_mount_true_keeps_handles(
    m: MountingModel,
    name: Seq<char>,
    spawned: Result<u32, MountError>,
)
    requires
        m.wf(),
        m.mount(name, spawned).1,
    ensures
        has_handle(m.mount(name, spawned).0.handles, name),
        forall|other: Seq<char>|
            has_handle(m.handles, other) ==> has_handle(m.mount(name, spawned).0.handles, other),
{
    let i = handle_index(m.handles, name);
    let h = m.handles[i];
    match spawned {
        Ok(process_id) => {
            lemma_update_keeps_wf(
                m.handles,
                i,
                HandleModel {
                    name: h.name,
                    resource: h.resource,
                    process_id,
                    state: MountState::Mounted,
                },
            );
        },
        Err(_) => {},
    }
}

/// An unmount that returns true leaves the storage without a handle and adds
/// no handle.
pub proof fn lemma_unmount_true_drops_handle(
    m: MountingModel,
    name: Seq<char>,
    terminated: Result<(), MountError>,
)
    requires
        m.wf(),
        m.unmount(name, terminated).1,
    ensures
        !has_handle(m.unmount(name, terminated).0.handles, name),
        forall|other: Seq<char>|
            has_handle(m.unmount(name, terminated).0.handles, other) ==> has_handle(
                m.handles,
                other,
            ),
{
    if has_handle(m.handles, name) {
        let i = handle_index(m.handles, name);
        lemma_remove_keeps_wf(m.handles, i);
    }
}

/// A batch of mounts returns true only if every storage of the batch is
/// mounted afterwards.
pub proof fn lemma_mount_all_true(
    m: MountingModel,
    names: Seq<Seq<char>>,
    outcomes: Seq<Result<u32, MountError>>,
)
    requires
        m.wf(),
        m.mount_all(names, outcomes).1,
    ensures
        forall|k: int|
            0 <= k < names.len() ==> has_handle(
                m.mount_all(names, outcomes).0.handles,
                #[trigger] names[k],
            ),
    decreases names.len(),
{
    if names.len() > 0 {
        let front = names.drop_last();
        let before = m.mount_all(front, outcomes);
        let outcome = spawn_outcome_at(outcomes, names.len() - 1);
        lemma_mount_all_true(m, front, outcomes);
        lemma_batches_keep_wf(
            m,
            front,
            Map::empty(),
            MountOptions { show_terminal: false, network_mode: false, allow_other: false },
            outcomes,
            Seq::empty(),
        );
        lemma_mount_true_keeps_handles(before.0, names.last(), outcome);
        let after = before.0.mount(names.last(), outcome).0;
        assert forall|k: int| 0 <= k < names.len() implies has_handle(
            after.handles,
            #[trigger] names[k],
        ) by {
            if k < front.len() {
                assert(front[k] == names[k]);
                assert(has_handle(before.0.handles, front[k]));
            }
        }
    }
}

/// A batch of unmounts returns true only if no storage of the batch is
/// mounted afterwards.
pub proof fn lemma_unmount_all_true(
    m: MountingModel,
    names: Seq<Seq<char>>,
    outcomes: Seq<Result<(), MountError>>,
)
    requires
        m.wf(),
        m.unmount_all(names, outcomes).1,
    ensures
        forall|k: int|
            0 <= k < names.len() ==> !has_handle(
                m.unmount_all(names, outcomes).0.handles,
                #[trigger] names[k],
            ),
    decreases names.len(),
{
    if names.len() > 0 {
        let front = names.drop_last();
        let before = m.unmount_all(front, outcomes);
        let outcome = teardown_outcome_at(outcomes, names.len() - 1);
        lemma_unmount_all_true(m, front, outcomes);
        lemma_batches_keep_wf(
            m,
            front,
            Map::empty(),
            MountOptions { show_terminal: false, network_mode: false, allow_other: false },
            Seq::empty(),
            outcomes,
        );
        lemma_unmount_true_drops_handle(before.0, names.last(), outcome);
        let after = before.0.unmount(names.last(), outcome).0;
        assert forall|k: int| 0 <= k < names.len() implies !has_handle(
            after.handles,
            #[trigger] names[k],
        ) by {
            if k < front.len() {
                assert(front[k] == names[k]);
                assert(!has_handle(before.0.handles, front[k]));
            }
        }
    }
}

/// The handle of a storage, if it has one.
pub open spec fn handle_of(handles: Seq<HandleModel>, name: Seq<char>) -> Option<HandleModel> {
    if has_handle(handles, name) {
        Some(handles[handle_index(handles, name)])
    } else {
        None
    }
}

/// A handle in another state, with another process id.
pub open spec fn moved(handle: HandleModel, process_id: u32, state: MountState) -> HandleModel {
    HandleModel { name: handle.name, resource: handle.resource, process_id, state }
}

/// One step for each storage of a batch of mounts, in the order of the
/// batch: step `k` is what `prepare_mount` answers for storage `k` after the
/// storages before it.
pub proof fn lemma_mount_steps_in_order(
    m: MountingModel,
    names: Seq<Seq<char>>,
    letters: Map<Seq<char>, char>,
    options: MountOptions,
    k: int,
)
    requires
        0 <= k < names.len(),
    ensures
        m.prepare_mount_all(names, letters, options).1.len() == names.len(),
        m.prepare_mount_all(names, letters, options).1[k] == m.prepare_mount_all(
            names.take(k),
            letters,
            options,
        ).0.prepare_mount(names[k], assigned_letter(letters, names[k]), options).1,
    decreases names.len(),
{
    let front = names.drop_last();
    assert(front == names.take(names.len() - 1));
    if front.len() > 0 {
        lemma_mount_steps_in_order(m, front, letters, options, 0);
    }
    if k < names.len() - 1 {
        lemma_mount_steps_in_order(m, front, letters, options, k);
        assert(front.take(k) == names.take(k));
    }
}

/// One step for each storage of a batch of unmounts, in the order of the
/// batch.
pub proof fn lemma_unmount_steps_in_order(m: MountingModel, names: Seq<Seq<char>>, k: int)
    requires
        0 <= k < names.len(),
    ensures
        m.prepare_unmount_all(names).1.len() == names.len(),
        m.prepare_unmount_all(names).1[k] == m.prepare_unmount_all(
            names.take(k),
        ).0.prepare_unmount(names[k]).1,
    decreases names.len(),
{
    let front = names.drop_last();
    assert(front == names.take(names.len() - 1));
    if front.len() > 0 {
        lemma_unmount_steps_in_order(m, front, 0);
    }
    if k < names.len() - 1 {
        lemma_unmount_steps_in_order(m, front, k);
        assert(front.take(k) == names.take(k));
    }
}

/// Replacing the handle of one storage leaves the handle of every other
/// storage as it is.
pub proof fn lemma_update_frame(
    handles: Seq<HandleModel>,
    i: int,
    handle: HandleModel,
    other: Seq<char>,
)
    requires
        names_distinct(handles),
        letters_distinct(handles),
        0 <= i < handles.len(),
        handle.name == handles[i].name,
        handle.resource == handles[i].resource,
    ensures
        handle_of(handles.update(i, handle), other) == if other == handle.name {
            Some(handle)
        } else {
            handle_of(handles, other)
        },
{
    let after = handles.update(i, handle);
    lemma_update_keeps_wf(handles, i, handle);
    if other == handle.name {
        assert(is_handle_of(after, i, other));
        lemma_handle_index(after, i, other);
    } else if has_handle(handles, other) {
        let j = handle_index(handles, other);
        assert(is_handle_of(after, j, other));
        lemma_handle_index(after, j, other);
    }
}

/// Removing the handle of one storage leaves the handle of every other
/// storage as it is.
pub proof fn lemma_remove_frame(handles: Seq<HandleModel>, i: int, other: Seq<char>)
    requires
        names_distinct(handles),
        letters_distinct(handles),
        0 <= i < handles.len(),
    ensures
        handle_of(handles.remove(i), other) == if other == handles[i].name {
            None
        } else {
            handle_of(handles, other)
        },
{
    let after = handles.remove(i);
    lemma_remove_keeps_wf(handles, i);
    if other != handles[i].name && has_handle(handles, other) {
        let j = handle_index(handles, other);
        let moved_to = if j < i {
            j
        } else {
            j - 1
        };
        assert(is_handle_of(after, moved_to, other));
        lemma_handle_index(after, moved_to, other);
    }
}

/// What `mount` does to the handles, storage by storage: a pending handle of
/// the storage becomes `Mounted` with the process id or goes, and nothing
/// else changes.
pub proof fn lemma_mount_effect(
    m: MountingModel,
    name: Seq<char>,
    spawned: Result<u32, MountError>,
    other: Seq<char>,
)
    requires
        m.wf(),
    ensures
        handle_of(m.mount(name, spawned).0.handles, other) == (match handle_of(m.handles, name) {
            Some(handle) => if other == name && handle.state is Mounting {
                match spawned {
                    Ok(process_id) => Some(moved(handle, process_id, MountState::Mounted)),
                    Err(_) => None,
                }
            } else {
                handle_of(m.handles, other)
            },
            None => handle_of(m.handles, other),
        }),
        m.mount(name, spawned).1 == (match handle_of(m.handles, name) {
            Some(handle) => !(handle.state is Mounting) || spawned is Ok,
            None => false,
        }),
{
    if has_handle(m.handles, name) {
        let i = handle_index(m.handles, name);
        let handle = m.handles[i];
        if handle.state is Mounting {
            match spawned {
                Ok(process_id) => {
                    lemma_update_frame(
                        m.handles,
                        i,
                        moved(handle, process_id, MountState::Mounted),
                        other,
                    );
                },
                Err(_) => {
                    lemma_remove_frame(m.handles, i, other);
                },
            }
        }
    }
}

/// What `unmount` does to the handles, storage by storage: a handle of the
/// storage whose teardown was pending goes or becomes `Mounted` again, and
/// nothing else changes.
pub proof fn lemma_unmount_effect(
    m: MountingModel,
    name: Seq<char>,
    terminated: Result<(), MountError>,
    other: Seq<char>,
)
    requires
        m.wf(),
    ensures
        handle_of(m.unmount(name, terminated).0.handles, other) == (match handle_of(
            m.handles,
            name,
        ) {
            Some(handle) => if other == name && handle.state is Unmounting {
                match terminated {
                    Ok(_) => None,
                    Err(_) => Some(moved(handle, handle.process_id, MountState::Mounted)),
                }
            } else {
                handle_of(m.handles, other)
            },
            None => handle_of(m.handles, other),
        }),
        m.unmount(name, terminated).1 == (match handle_of(m.handles, name) {
            Some(handle) => handle.state is Unmounting && terminated is Ok,
            None => true,
        }),
{
    if has_handle(m.handles, name) {
        let i = handle_index(m.handles, name);
        let handle = m.handles[i];
        if handle.state is Unmounting {
            match terminated {
                Ok(_) => {
                    lemma_remove_frame(m.handles, i, other);
                },
                Err(_) => {
                    lemma_update_frame(
                        m.handles,
                        i,
                        moved(handle, handle.process_id, MountState::Mounted),
                        other,
                    );
                },
            }
        }
    }
}

/// A batch of mounts leaves the handle of every storage outside the batch
/// as it is.
pub proof fn lemma_mount_all_frame(
    m: MountingModel,
    names: Seq<Seq<char>>,
    outcomes: Seq<Result<u32, MountError>>,
    other: Seq<char>,
)
    requires
        m.wf(),
        !names.contains(other),
    ensures
        handle_of(m.mount_all(names, outcomes).0.handles, other) == handle_of(m.handles, other),
    decreases names.len(),
{
    if names.len() > 0 {
        let front = names.drop_last();
        let k = names.len() - 1;
        assert(names[k] == names.last());
        assert forall|j: int| 0 <= j < front.len() implies front[j] != other by {
            assert(names[j] == front[j]);
        }
        lemma_mount_all_frame(m, front, outcomes, other);
        lemma_batches_keep_wf(m, front, Map::empty(), no_options(), outcomes, Seq::empty());
        lemma_mount_effect(
            m.mount_all(front, outcomes).0,
            names.last(),
            spawn_outcome_at(outcomes, k),
            other,
        );
    }
}

/// A batch of unmounts leaves the handle of every storage outside the batch
/// as it is.
pub proof fn lemma_unmount_all_frame(
    m: MountingModel,
    names: Seq<Seq<char>>,
    outcomes: Seq<Result<(), MountError>>,
    other: Seq<char>,
)
    requires
        m.wf(),
        !names.contains(other),
    ensures
        handle_of(m.unmount_all(names, outcomes).0.handles, other) == handle_of(m.handles, other),
    decreases names.len(),
{
    if names.len() > 0 {
        let front = names.drop_last();
        let k = names.len() - 1;
        assert(names[k] == names.last());
        assert forall|j: int| 0 <= j < front.len() implies front[j] != other by {
            assert(names[j] == front[j]);
        }
        lemma_unmount_all_frame(m, front, outcomes, other);
        lemma_batches_keep_wf(m, front, Map::empty(), no_options(), Seq::empty(), outcomes);
        lemma_unmount_effect(
            m.unmount_all(front, outcomes).0,
            names.last(),
            teardown_outcome_at(outcomes, k),
            other,
        );
    }
}

/// The options that ask for nothing.
pub open spec fn no_options() -> MountOptions {
    MountOptions { show_terminal: false, network_mode: false, allow_other: false }
}

/// True when every storage of the list has a handle in the given state.
pub open spec fn all_in_state(
    handles: Seq<HandleModel>,
    names: Seq<Seq<char>>,
    state: MountState,
) -> bool {
    forall|k: int|
        0 <= k < names.len() ==> handle_of(handles, #[trigger] names[k]) is Some && handle_of(
            handles,
            names[k],
        )->Some_0.state == state
}

/// A batch of mounts over storages whose spawns are pending is true exactly
/// if every spawn succeeded. Afterwards a storage of the batch has a handle
/// exactly if its spawn succeeded: the handle it had, now `Mounted` with the
/// process id.
pub proof fn lemma_mount_all_of_pending(
    m: MountingModel,
    names: Seq<Seq<char>>,
    outcomes: Seq<Result<u32, MountError>>,
)
    requires
        m.wf(),
        names.no_duplicates(),
        all_in_state(m.handles, names, MountState::Mounting),
    ensures
        m.mount_all(names, outcomes).1 <==> forall|k: int|
            0 <= k < names.len() ==> #[trigger] spawn_outcome_at(outcomes, k) is Ok,
        forall|k: int|
            0 <= k < names.len() ==> handle_of(
                m.mount_all(names, outcomes).0.handles,
                #[trigger] names[k],
            ) == (match spawn_outcome_at(outcomes, k) {
                Ok(process_id) => Some(
                    moved(handle_of(m.handles, names[k])->Some_0, process_id, MountState::Mounted),
                ),
                Err(_) => None,
            }),
    decreases names.len(),
{
    if names.len() > 0 {
        let front = names.drop_last();
        let last = names.len() - 1;
        let before = m.mount_all(front, outcomes);
        let outcome = spawn_outcome_at(outcomes, last);
        assert(names[last] == names.last());
        assert forall|j: int| 0 <= j < front.len() implies #[trigger] front[j] == names[j]
            && front[j] != names.last() by {}
        assert(all_in_state(m.handles, front, MountState::Mounting)) by {
            assert forall|j: int| 0 <= j < front.len() implies handle_of(
                m.handles,
                #[trigger] front[j],
            ) is Some && handle_of(m.handles, front[j])->Some_0.state == MountState::Mounting by {
                assert(front[j] == names[j]);
            }
        }
        lemma_mount_all_of_pending(m, front, outcomes);
        lemma_batches_keep_wf(m, front, Map::empty(), no_options(), outcomes, Seq::empty());
        lemma_mount_all_frame(m, front, outcomes, names.last());
        let done = before.0.mount(names.last(), outcome);
        assert forall|k: int| 0 <= k < names.len() implies handle_of(
            done.0.handles,
            #[trigger] names[k],
        ) == (match spawn_outcome_at(outcomes, k) {
            Ok(process_id) => Some(
                moved(handle_of(m.handles, names[k])->Some_0, process_id, MountState::Mounted),
            ),
            Err(_) => None,
        }) by {
            lemma_mount_effect(before.0, names.last(), outcome, names[k]);
            if k < last {
                assert(front[k] == names[k]);
            }
        }
        lemma_mount_effect(before.0, names.last(), outcome, names.last());
        if m.mount_all(names, outcomes).1 {
            assert forall|k: int| 0 <= k < names.len() implies #[trigger] spawn_outcome_at(
                outcomes,
                k,
            ) is Ok by {
                if k < last {
                    assert(spawn_outcome_at(outcomes, k) is Ok);
                }
            }
        }
        if forall|k: int| 0 <= k < names.len() ==> #[trigger] spawn_outcome_at(outcomes, k) is Ok {
            assert(spawn_outcome_at(outcomes, last) is Ok);
            assert forall|k: int| 0 <= k < front.len() implies #[trigger] spawn_outcome_at(
                outcomes,
                k,
            ) is Ok by {}
        }
    }
}

/// A batch of unmounts over storages whose teardowns are pending is true
/// exactly if every teardown succeeded. Afterwards a storage of the batch has
/// a handle exactly if its teardown failed: the handle it had, `Mounted`
/// again.
pub proof fn lemma_unmount_all_of_pending(
    m: MountingModel,
    names: Seq<Seq<char>>,
    outcomes: Seq<Result<(), MountError>>,
)
    requires
        m.wf(),
        names.no_duplicates(),
        all_in_state(m.handles, names, MountState::Unmounting),
    ensures
        m.unmount_all(names, outcomes).1 <==> forall|k: int|
            0 <= k < names.len() ==> #[trigger] teardown_outcome_at(outcomes, k) is Ok,
        forall|k: int|
            0 <= k < names.len() ==> handle_of(
                m.unmount_all(names, outcomes).0.handles,
                #[trigger] names[k],
            ) == (match teardown_outcome_at(outcomes, k) {
                Ok(_) => None,
                Err(_) => Some(
                    moved(
                        handle_of(m.handles, names[k])->Some_0,
                        handle_of(m.handles, names[k])->Some_0.process_id,
                        MountState::Mounted,
                    ),
                ),
            }),
    decreases names.len(),
{
    if names.len() > 0 {
        let front = names.drop_last();
        let last = names.len() - 1;
        let before = m.unmount_all(front, outcomes);
        let outcome = teardown_outcome_at(outcomes, last);
        assert(names[last] == names.last());
        assert forall|j: int| 0 <= j < front.len() implies #[trigger] front[j] == names[j]
            && front[j] != names.last() by {}
        assert(all_in_state(m.handles, front, MountState::Unmounting)) by {
            assert forall|j: int| 0 <= j < front.len() implies handle_of(
                m.handles,
                #[trigger] front[j],
            ) is Some && handle_of(m.handles, front[j])->Some_0.state
                == MountState::Unmounting by {
                assert(front[j] == names[j]);
            }
        }
        lemma_unmount_all_of_pending(m, front, outcomes);
        lemma_batches_keep_wf(m, front, Map::empty(), no_options(), Seq::empty(), outcomes);
        lemma_unmount_all_frame(m, front, outcomes, names.last());
        let done = before.0.unmount(names.last(), outcome);
        assert forall|k: int| 0 <= k < names.len() implies handle_of(
            done.0.handles,
            #[trigger] names[k],
        ) == (match teardown_outcome_at(outcomes, k) {
            Ok(_) => None,
            Err(_) => Some(
                moved(
                    handle_of(m.handles, names[k])->Some_0,
                    handle_of(m.handles, names[k])->Some_0.process_id,
                    MountState::Mounted,
                ),
            ),
        }) by {
            lemma_unmount_effect(before.0, names.last(), outcome, names[k]);
            if k < last {
                assert(front[k] == names[k]);
            }
        }
        lemma_unmount_effect(before.0, names.last(), outcome, names.last());
        if m.unmount_all(names, outcomes).1 {
            assert forall|k: int| 0 <= k < names.len() implies #[trigger] teardown_outcome_at(
                outcomes,
                k,
            ) is Ok by {
                if k < last {
                    assert(teardown_outcome_at(outcomes, k) is Ok);
                }
            }
        }
        if forall|k: int|
            0 <= k < names.len() ==> #[trigger] teardown_outcome_at(outcomes, k) is Ok {
            assert(teardown_outcome_at(outcomes, last) is Ok);
            assert forall|k: int| 0 <= k < front.len() implies #[trigger] teardown_outcome_at(
                outcomes,
                k,
            ) is Ok by {}
        }
    }
}

/// What `prepare_mount` does to the handles, storage by storage: where a
/// command line is handed out the storage has a fresh handle, and nothing
/// else changes.
pub proof fn lemma_prepare_mount_effect(
    m: MountingModel,
    name: Seq<char>,
    assigned: Option<char>,
    options: MountOptions,
    other: Seq<char>,
)
    requires
        m.wf(),
    ensures
        m.prepare_mount(name, assigned, options).1 is Spawn <==> !has_handle(m.handles, name)
            && mount_target(m.host, claimed_letters(m.handles), name, assigned) is Some,
        handle_of(m.prepare_mount(name, assigned, options).0.handles, other) == if other == name
            && m.prepare_mount(name, assigned, options).1 is Spawn {
            Some(
                fresh_handle(
                    name,
                    mount_target(m.host, claimed_letters(m.handles), name, assigned)->Some_0,
                ),
            )
        } else {
            handle_of(m.handles, other)
        },
{
    if !has_handle(m.handles, name) {
        let claimed = claimed_letters(m.handles);
        match mount_target(m.host, claimed, name, assigned) {
            Some(target) => {
                let fresh = fresh_handle(name, target);
                let after = m.handles.push(fresh);
                let n = m.handles.len() as int;
                lemma_target_unclaimed(m.host, claimed, name, assigned);
                lemma_push_keeps_wf(m.handles, fresh);
                if other == name {
                    assert(is_handle_of(after, n, name));
                    lemma_handle_index(after, n, name);
                } else if has_handle(m.handles, other) {
                    let j = handle_index(m.handles, other);
                    assert(is_handle_of(after, j, other));
                    lemma_handle_index(after, j, other);
                }
            },
            None => {},
        }
    }
}

/// A batch of reservations leaves the handle of every storage outside the
/// batch as it is.
pub proof fn lemma_prepare_mount_all_frame(
    m: MountingModel,
    names: Seq<Seq<char>>,
    letters: Map<Seq<char>, char>,
    options: MountOptions,
    other: Seq<char>,
)
    requires
        m.wf(),
        !names.contains(other),
    ensures
        handle_of(m.prepare_mount_all(names, letters, options).0.handles, other) == handle_of(
            m.handles,
            other,
        ),
    decreases names.len(),
{
    if names.len() > 0 {
        let front = names.drop_last();
        assert(names[names.len() - 1] == names.last());
        assert forall|j: int| 0 <= j < front.len() implies front[j] != other by {
            assert(names[j] == front[j]);
        }
        lemma_prepare_mount_all_frame(m, front, letters, options, other);
        lemma_batches_keep_wf(m, front, letters, options, Seq::empty(), Seq::empty());
        lemma_prepare_mount_effect(
            m.prepare_mount_all(front, letters, options).0,
            names.last(),
            assigned_letter(letters, names.last()),
            options,
            other,
        );
    }
}

/// Where a batch of reservations hands out a command line for every storage,
/// the storages are all different, none had a handle before, and each has a
/// pending handle afterwards.
pub proof fn lemma_prepared_are_pending(
    m: MountingModel,
    names: Seq<Seq<char>>,
    letters: Map<Seq<char>, char>,
    options: MountOptions,
)
    requires
        m.wf(),
        forall|k: int|
            0 <= k < names.len() ==> #[trigger] m.prepare_mount_all(names, letters, options).1[k]
                is Spawn,
    ensures
        names.no_duplicates(),
        forall|k: int| 0 <= k < names.len() ==> !has_handle(m.handles, #[trigger] names[k]),
        all_in_state(
            m.prepare_mount_all(names, letters, options).0.handles,
            names,
            MountState::Mounting,
        ),
    decreases names.len(),
{
    if names.len() > 0 {
        let front = names.drop_last();
        let last = names.len() - 1;
        let before = m.prepare_mount_all(front, letters, options);
        let assigned = assigned_letter(letters, names.last());
        let after = before.0.prepare_mount(names.last(), assigned, options);
        assert(names[last] == names.last());
        lemma_batches_keep_wf(m, front, letters, options, Seq::empty(), Seq::empty());
        assert forall|k: int| 0 <= k < front.len() implies #[trigger] before.1[k] is Spawn by {
            assert(m.prepare_mount_all(names, letters, options).1[k] == before.1[k]);
        }
        assert(m.prepare_mount_all(names, letters, options).1[last] == after.1);
        lemma_prepared_are_pending(m, front, letters, options);
        lemma_prepare_mount_effect(before.0, names.last(), assigned, options, names.last());
        assert forall|j: int| 0 <= j < front.len() implies #[trigger] front[j] == names[j]
            && front[j] != names.last() by {
            assert(handle_of(before.0.handles, front[j]) is Some);
        }
        assert(!front.contains(names.last()));
        lemma_prepare_mount_all_frame(m, front, letters, options, names.last());
        assert forall|k: int| 0 <= k < names.len() implies handle_of(
            after.0.handles,
            #[trigger] names[k],
        ) is Some && handle_of(after.0.handles, names[k])->Some_0.state
            == MountState::Mounting by {
            lemma_prepare_mount_effect(before.0, names.last(), assigned, options, names[k]);
            if k < last {
                assert(front[k] == names[k]);
            }
        }
        assert forall|k: int| 0 <= k < names.len() implies !has_handle(
            m.handles,
            #[trigger] names[k],
        ) by {
            if k < last {
                assert(front[k] == names[k]);
            }
        }
        assert forall|i: int, j: int|
            0 <= i < names.len() && 0 <= j < names.len() && i != j implies names[i]
            != names[j] by {
            if i < last && j < last {
                assert(front[i] == names[i] && front[j] == names[j]);
            } else if i < last {
                assert(front[i] == names[i]);
            } else {
                assert(front[j] == names[j]);
            }
        }
    }
}

/// A whole batch of mounts over storages that all get a command line: the
/// batch is true exactly if every spawn succeeded, a storage of the batch has
/// a handle afterwards exactly if its spawn succeeded, and the handle of
/// every other storage is as it was.
pub proof fn lemma_batch_of_new_storages(
    m: MountingModel,
    names: Seq<Seq<char>>,
    letters: Map<Seq<char>, char>,
    options: MountOptions,
    outcomes: Seq<Result<u32, MountError>>,
)
    requires
        m.wf(),
        forall|k: int|
            0 <= k < names.len() ==> #[trigger] m.prepare_mount_all(names, letters, options).1[k]
                is Spawn,
    ensures
        ({
            let prepared = m.prepare_mount_all(names, letters, options).0;
            let done = prepared.mount_all(names, outcomes);
            &&& done.1 <==> forall|k: int|
                0 <= k < names.len() ==> #[trigger] spawn_outcome_at(outcomes, k) is Ok
            &&& forall|k: int|
                0 <= k < names.len() ==> (has_handle(done.0.handles, #[trigger] names[k])
                    <==> spawn_outcome_at(outcomes, k) is Ok)
            &&& forall|other: Seq<char>|
                !names.contains(other) ==> #[trigger] handle_of(done.0.handles, other)
                    == handle_of(m.handles, other)
        }),
{
    let prepared = m.prepare_mount_all(names, letters, options).0;
    lemma_prepared_are_pending(m, names, letters, options);
    lemma_batches_keep_wf(m, names, letters, options, Seq::empty(), Seq::empty());
    lemma_mount_all_of_pending(prepared, names, outcomes);
    let done = prepared.mount_all(names, outcomes);
    assert forall|k: int| 0 <= k < names.len() implies (has_handle(
        done.0.handles,
        #[trigger] names[k],
    ) <==> spawn_outcome_at(outcomes, k) is Ok) by {
        assert(handle_of(done.0.handles, names[k]) is Some <==> spawn_outcome_at(outcomes, k)
            is Ok);
    }
    assert forall|other: Seq<char>| !names.contains(other) implies #[trigger] handle_of(
        done.0.handles,
        other,
    ) == handle_of(m.handles, other) by {
        lemma_prepare_mount_all_frame(m, names, letters, options, other);
        lemma_mount_all_frame(prepared, names, outcomes, other);
    }
}

} // verus!
