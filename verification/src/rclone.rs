//! The storage registry: the storages that are configured, and the edits of
//! the registry text.
//!
//! The registry file belongs to the external provider tool as much as to this
//! library. The library reads it and rewrites headers; blocks are added and
//! deleted by the tool, through the command lines that are built here.

use crate::codec::{
    header_name, is_header, parse, parse_spec, ConfigError, Storage, StorageModel,
};
use crate::enums::StorageType;
use crate::platform::{push_arg, CommandLine, CommandModel};
use crate::text::{chars_of, string_of_range, stripped, stripped_text};
use vstd::prelude::*;
use vstd::string::StringExecFns;

verus! {

/// Why an edit of the registry was refused.
#[derive(Debug, Clone, Copy, PartialEq, Eq, Structural)]
pub enum RegistryError {
    /// The name of a storage must not be empty.
    EmptyName,
    /// Another storage has that name already.
    DuplicateName,
    /// No storage has that name.
    NotFound,
}

/// The configured storages.
#[derive(Debug, Clone, PartialEq, Eq)]
pub struct Rclone {
    /// The storages, in the order of their blocks in the registry.
    pub storages: Vec<Storage>,
}

/// The first storage at or after position `from` that has the given name.
pub open spec fn first_named(storages: Seq<StorageModel>, name: Seq<char>, from: int) -> Option<
    int,
>
    decreases storages.len() - from,
{
    if from < 0 || from >= storages.len() {
        None
    } else if storages[from].name == name {
        Some(from)
    } else {
        first_named(storages, name, from + 1)
    }
}

/// The first line at or after `from` that is the header of the given name.
pub open spec fn first_header(lines: Seq<Seq<char>>, name: Seq<char>, from: int) -> Option<int>
    decreases lines.len() - from,
{
    if from < 0 || from >= lines.len() {
        None
    } else if is_header(lines[from]) && header_name(lines[from]) == name {
        Some(from)
    } else {
        first_header(lines, name, from + 1)
    }
}

/// The header line of a storage.
pub open spec fn header_line(name: Seq<char>) -> Seq<char> {
    seq!['['] + name + seq![']']
}

/// The command line that asks the provider tool to set a storage up:
/// `rclone config create <name> <provider> config_is_local=true`.
pub open spec fn create_command_spec(name: Seq<char>, provider: StorageType) -> CommandModel {
    CommandModel {
        program: "rclone"@,
        args: seq!["config"@, "create"@, name, provider.key_text(), "config_is_local=true"@],
        show_terminal: false,
    }
}

/// The command line that asks the provider tool to delete a storage:
/// `rclone config delete <name>`.
pub open spec fn delete_command_spec(name: Seq<char>) -> CommandModel {
    CommandModel {
        program: "rclone"@,
        args: seq!["config"@, "delete"@, name],
        show_terminal: false,
    }
}

/// What `add_storage` answers. The name counts without the white space
/// around it.
pub open spec fn add_storage_spec(
    storages: Seq<StorageModel>,
    name: Seq<char>,
    provider: StorageType,
) -> Result<CommandModel, RegistryError> {
    if stripped(name).len() == 0 {
        Err(RegistryError::EmptyName)
    } else if first_named(storages, stripped(name), 0) is Some {
        Err(RegistryError::DuplicateName)
    } else {
        Ok(create_command_spec(stripped(name), provider))
    }
}

/// The registry text after a rename: the first header of the old name
/// becomes the header of the new name, every other line stays as it is. The
/// new name must not be empty, the old name must have a header, and no header
/// may bear the new name already, unless it is the old name itself.
pub open spec fn rename_spec(lines: Seq<Seq<char>>, old_name: Seq<char>, new_name: Seq<char>) -> Result<
    Seq<Seq<char>>,
    RegistryError,
> {
    if new_name.len() == 0 {
        Err(RegistryError::EmptyName)
    } else {
        match first_header(lines, old_name, 0) {
            None => Err(RegistryError::NotFound),
            Some(k) => if new_name != old_name && first_header(lines, new_name, 0) is Some {
                Err(RegistryError::DuplicateName)
            } else {
                Ok(lines.update(k, header_line(new_name)))
            },
        }
    }
}

/// The storages after a rename: the first storage of the old name bears the
/// new name, every other storage stays as it is.
pub open spec fn rename_first(
    storages: Seq<StorageModel>,
    old_name: Seq<char>,
    new_name: Seq<char>,
) -> Seq<StorageModel> {
    match first_named(storages, old_name, 0) {
        Some(i) => storages.update(
            i,
            StorageModel {
                name: new_name,
                drive_type: storages[i].drive_type,
                scope: storages[i].scope,
                token: storages[i].token,
            },
        ),
        None => storages,
    }
}

/// The storages whose name is not `name`, in their order.
pub open spec fn without_name(storages: Seq<StorageModel>, name: Seq<char>) -> Seq<StorageModel> {
    storages.filter(|s: StorageModel| s.name != name)
}

fn find_header(lines: &Vec<String>, name: &str) -> (r: Option<usize>)
    ensures
        match r {
            Some(k) => first_header(lines.deep_view(), name@, 0) == Some(k as int) && k
                < lines.len(),
            None => first_header(lines.deep_view(), name@, 0) is None,
        },
{
    let ghost text = lines.deep_view();
    let mut i: usize = 0;
    while i < lines.len()
        invariant
            i <= lines.len(),
            text == lines.deep_view(),
            first_header(text, name@, 0) == first_header(text, name@, i as int),
        decreases lines.len() - i,
    {
        let line = chars_of(lines[i].as_str());
        let len = line.len();
        if len >= 3 && line[0] == '[' && line[len - 1] == ']' {
            let found = string_of_range(&line, 1, len - 1);
            if found.as_str().eq(name) {
                return Some(i);
            }
        }
        i += 1;
    }
    None
}

impl Rclone {
    /// The storages as plain values.
    pub open spec fn model(&self) -> Seq<StorageModel> {
        self.storages.deep_view()
    }

    /// Reads the registry from its text. A text with a fault gives no
    /// registry at all.
    pub fn init(lines: &Vec<String>) -> (r: Result<Rclone, ConfigError>)
        ensures
            match r {
                Ok(registry) => parse_spec(lines.deep_view()) == Ok::<
                    Seq<StorageModel>,
                    ConfigError,
                >(registry.model()) && forall|i: int|
                    0 <= i < registry.model().len() ==> (#[trigger] registry.model()[i]).wf(),
                Err(e) => parse_spec(lines.deep_view()) == Err::<Seq<StorageModel>, ConfigError>(e),
            },
    {
        match parse(lines) {
            Ok(storages) => Ok(Rclone { storages }),
            Err(e) => Err(e),
        }
    }

    /// Replaces the storages by those of a new registry text. A text with a
    /// fault is reported and leaves the storages as they are.
    pub fn reload(&mut self, lines: &Vec<String>) -> (r: Result<(), ConfigError>)
        ensures
            match r {
                Ok(_) => parse_spec(lines.deep_view()) == Ok::<Seq<StorageModel>, ConfigError>(
                    final(self).model(),
                ),
                Err(e) => parse_spec(lines.deep_view()) == Err::<Seq<StorageModel>, ConfigError>(e)
                    && final(self).model() == old(self).model(),
            },
    {
        match parse(lines) {
            Ok(storages) => {
                self.storages = storages;
                Ok(())
            },
            Err(e) => Err(e),
        }
    }

    fn position(&self, name: &str) -> (r: Option<usize>)
        ensures
            match r {
                Some(i) => first_named(self.model(), name@, 0) == Some(i as int) && i
                    < self.storages.len(),
                None => first_named(self.model(), name@, 0) is None,
            },
    {
        let mut i: usize = 0;
        while i < self.storages.len()
            invariant
                i <= self.storages.len(),
                first_named(self.model(), name@, 0) == first_named(self.model(), name@, i as int),
            decreases self.storages.len() - i,
        {
            if self.storages[i].name.as_str().eq(name) {
                return Some(i);
            }
            i += 1;
        }
        None
    }

    /// True when a storage has the given name.
    pub fn contains(&self, name: &str) -> (r: bool)
        ensures
            r == first_named(self.model(), name@, 0) is Some,
    {
        self.position(name).is_some()
    }

    /// The names of the storages, in their order.
    pub fn names(&self) -> (names: Vec<String>)
        ensures
            names.deep_view() == Seq::new(self.model().len(), |i: int| self.model()[i].name),
    {
        let mut names: Vec<String> = Vec::new();
        let mut i: usize = 0;
        while i < self.storages.len()
            invariant
                i <= self.storages.len(),
                names@.len() == i,
                forall|j: int| 0 <= j < i ==> names@[j]@ == self.model()[j].name,
            decreases self.storages.len() - i,
        {
            names.push(self.storages[i].name.clone());
            i += 1;
        }
        assert(names.deep_view() =~= Seq::new(
            self.model().len(),
            |i: int| self.model()[i].name,
        ));
        names
    }

    /// Checks the name of a new storage and builds the command line that has
    /// the provider tool set it up. The storages are not changed: the tool
    /// writes the registry when the user has gone through the provider's
    /// sign-in, and the registry is read again after that.
    pub fn add_storage(&self, name: &str, storage_type: StorageType) -> (r: Result<
        CommandLine,
        RegistryError,
    >)
        ensures
            match r {
                Ok(command) => add_storage_spec(self.model(), name@, storage_type) == Ok::<
                    CommandModel,
                    RegistryError,
                >(command@),
                Err(e) => add_storage_spec(self.model(), name@, storage_type) == Err::<
                    CommandModel,
                    RegistryError,
                >(e),
            },
    {
        let wanted = stripped_text(name);
        if wanted.as_str().unicode_len() == 0 {
            return Err(RegistryError::EmptyName);
        }
        if self.position(wanted.as_str()).is_some() {
            return Err(RegistryError::DuplicateName);
        }
        let mut args: Vec<String> = Vec::new();
        assert(args.deep_view() =~= Seq::<Seq<char>>::empty());
        push_arg(&mut args, "config".to_owned());
        push_arg(&mut args, "create".to_owned());
        push_arg(&mut args, wanted);
        push_arg(&mut args, storage_type.key().to_owned());
        push_arg(&mut args, "config_is_local=true".to_owned());
        assert(args.deep_view() =~= seq![
            "config"@,
            "create"@,
            stripped(name@),
            storage_type.key_text(),
            "config_is_local=true"@,
        ]);
        Ok(CommandLine { program: "rclone".to_owned(), args, show_terminal: false })
    }

    /// Renames a storage in the registry text and in the registry. Hands
    /// back the new text; where the rename is refused, nothing changes.
    pub fn edit_storage_name(&mut self, lines: &Vec<String>, old_name: &str, new_name: &str) -> (r:
        Result<Vec<String>, RegistryError>)
        ensures
            match r {
                Ok(renamed) => rename_spec(lines.deep_view(), old_name@, new_name@) == Ok::<
                    Seq<Seq<char>>,
                    RegistryError,
                >(renamed.deep_view()) && final(self).model() == rename_first(
                    old(self).model(),
                    old_name@,
                    new_name@,
                ),
                Err(e) => rename_spec(lines.deep_view(), old_name@, new_name@) == Err::<
                    Seq<Seq<char>>,
                    RegistryError,
                >(e) && final(self).model() == old(self).model(),
            },
    {
        if new_name.unicode_len() == 0 {
            return Err(RegistryError::EmptyName);
        }
        let at = match find_header(lines, old_name) {
            None => {
                return Err(RegistryError::NotFound);
            },
            Some(k) => k,
        };
        if !new_name.eq(old_name) && find_header(lines, new_name).is_some() {
            return Err(RegistryError::DuplicateName);
        }
        let mut header = String::new();
        header.push('[');
        header.append(new_name);
        header.push(']');
        assert(header@ =~= header_line(new_name@));
        let mut renamed: Vec<String> = Vec::new();
        let mut i: usize = 0;
        while i < lines.len()
            invariant
                i <= lines.len(),
                at < lines.len(),
                renamed@.len() == i,
                header@ == header_line(new_name@),
                forall|j: int|
                    0 <= j < i ==> renamed@[j]@ == if j == at {
                        header_line(new_name@)
                    } else {
                        lines@[j]@
                    },
            decreases lines.len() - i,
        {
            if i == at {
                renamed.push(header.clone());
            } else {
                renamed.push(lines[i].clone());
            }
            i += 1;
        }
        assert(renamed.deep_view() =~= lines.deep_view().update(
            at as int,
            header_line(new_name@),
        ));
        match self.position(old_name) {
            Some(k) => {
                let ghost before = self.model();
                let storage = Storage {
                    name: new_name.to_owned(),
                    drive_type: self.storages[k].drive_type.clone(),
                    scope: self.storages[k].scope.clone(),
                    token: self.storages[k].token.duplicate(),
                };
                let ghost model = storage@;
                self.storages.set(k, storage);
                assert(self.model() =~= before.update(k as int, model));
            },
            None => {},
        }
        Ok(renamed)
    }

    /// The command line that has the provider tool delete a storage.
    pub fn remove_command(name: &str) -> (command: CommandLine)
        ensures
            command@ == delete_command_spec(name@),
    {
        let mut args: Vec<String> = Vec::new();
        assert(args.deep_view() =~= Seq::<Seq<char>>::empty());
        push_arg(&mut args, "config".to_owned());
        push_arg(&mut args, "delete".to_owned());
        push_arg(&mut args, name.to_owned());
        assert(args.deep_view() =~= seq!["config"@, "delete"@, name@]);
        CommandLine { program: "rclone".to_owned(), args, show_terminal: false }
    }

    /// Records how the provider tool's delete ended: where it succeeded, the
    /// storages of that name leave the registry. True when they have left.
    /// Unmounting the storage first is the caller's business.
    pub fn remove_storage(&mut self, name: &str, deleted: bool) -> (removed: bool)
        ensures
            removed == deleted,
            final(self).model() == if deleted {
                without_name(old(self).model(), name@)
            } else {
                old(self).model()
            },
    {
        if !deleted {
            return false;
        }
        let ghost before = self.model();
        let ghost keep = |s: StorageModel| s.name != name@;
        let mut kept: Vec<Storage> = Vec::new();
        let mut i: usize = 0;
        proof {
            reveal(Seq::filter);
            assert(before.take(0) =~= Seq::<StorageModel>::empty());
            assert(kept.deep_view() =~= Seq::<StorageModel>::empty());
        }
        while i < self.storages.len()
            invariant
                i <= self.storages.len(),
                before == self.model(),
                keep == |s: StorageModel| s.name != name@,
                kept.deep_view() == before.take(i as int).filter(keep),
            decreases self.storages.len() - i,
        {
            let ghost so_far = kept.deep_view();
            proof {
                before.take(i as int).lemma_filter_push(before[i as int], keep);
                assert(before.take(i as int).push(before[i as int]) == before.take(i as int + 1));
            }
            if !self.storages[i].name.as_str().eq(name) {
                let storage = self.storages[i].duplicate();
                kept.push(storage);
                assert(kept.deep_view() =~= so_far.push(before[i as int]));
            }
            i += 1;
        }
        assert(before.take(self.storages.len() as int) == before);
        self.storages = kept;
        true
    }
}

} // verus!
