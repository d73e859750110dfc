//! The preferences of the application. Reading and writing the preference
//! file is the caller's part: every setter changes the value in memory, and
//! the caller saves after it.

use crate::enums::AppTheme;
use crate::name_map::NameMap;
use vstd::prelude::*;

verus! {

/// The preferences.
#[derive(Debug, Clone, PartialEq)]
pub struct AppConfig {
    /// True until the application has been started once.
    pub is_first_run: bool,
    /// Mount the chosen storages when the application starts.
    pub is_auto_mount: bool,
    /// The colour theme.
    pub current_theme: AppTheme,
    /// Show the names of the storages as asterisks.
    pub hide_storage_label: bool,
    /// Windows: mount as network drives.
    pub enable_network_mode: bool,
    /// The drive letter that each storage is mounted on.
    pub drives_letters: NameMap<char>,
    /// Whether each storage is mounted when the application starts.
    pub drives_auto_mount: NameMap<bool>,
}

/// The preferences as plain values.
pub struct AppConfigModel {
    pub is_first_run: bool,
    pub is_auto_mount: bool,
    pub current_theme: AppTheme,
    pub hide_storage_label: bool,
    pub enable_network_mode: bool,
    pub drives_letters: Map<Seq<char>, char>,
    pub drives_auto_mount: Map<Seq<char>, bool>,
}

impl View for AppConfig {
    type V = AppConfigModel;

    open spec fn view(&self) -> AppConfigModel {
        AppConfigModel {
            is_first_run: self.is_first_run,
            is_auto_mount: self.is_auto_mount,
            current_theme: self.current_theme,
            hide_storage_label: self.hide_storage_label,
            enable_network_mode: self.enable_network_mode,
            drives_letters: self.drives_letters@,
            drives_auto_mount: self.drives_auto_mount@,
        }
    }
}

/// True when the storage is among those to mount at start.
pub open spec fn wants_auto_mount(flags: Map<Seq<char>, bool>, name: Seq<char>) -> bool {
    flags.contains_key(name) && flags[name]
}

impl AppConfig {
    /// The preferences of a first run: dark theme, nothing switched on, no
    /// storage known.
    pub fn new() -> (out: AppConfig)
        ensures
            out@ == (AppConfigModel {
                is_first_run: true,
                is_auto_mount: false,
                current_theme: AppTheme::Dark,
                hide_storage_label: false,
                enable_network_mode: false,
                drives_letters: Map::empty(),
                drives_auto_mount: Map::empty(),
            }),
    {
        AppConfig {
            is_first_run: true,
            is_auto_mount: false,
            current_theme: AppTheme::Dark,
            hide_storage_label: false,
            enable_network_mode: false,
            drives_letters: NameMap::new(),
            drives_auto_mount: NameMap::new(),
        }
    }

    pub fn set_is_first_run(&mut self, is_first_run: bool)
        ensures
            final(self)@ == (AppConfigModel { is_first_run, ..old(self)@ }),
    {
        self.is_first_run = is_first_run;
    }

    pub fn set_is_auto_mount(&mut self, is_auto_mount: bool)
        ensures
            final(self)@ == (AppConfigModel { is_auto_mount, ..old(self)@ }),
    {
        self.is_auto_mount = is_auto_mount;
    }

    pub fn set_current_theme(&mut self, current_theme: AppTheme)
        ensures
            final(self)@ == (AppConfigModel { current_theme, ..old(self)@ }),
    {
        self.current_theme = current_theme;
    }

    pub fn set_hide_storage_label(&mut self, hide_storage_label: bool)
        ensures
            final(self)@ == (AppConfigModel { hide_storage_label, ..old(self)@ }),
    {
        self.hide_storage_label = hide_storage_label;
    }

    pub fn set_enable_network_mode(&mut self, enable_network_mode: bool)
        ensures
            final(self)@ == (AppConfigModel { enable_network_mode, ..old(self)@ }),
    {
        self.enable_network_mode = enable_network_mode;
    }

    /// Assigns a drive letter to a storage, in place of the one it had.
    pub fn set_drives_letters(&mut self, key: String, value: char)
        ensures
            final(self)@ == (AppConfigModel {
                drives_letters: old(self)@.drives_letters.insert(key@, value),
                ..old(self)@
            }),
    {
        self.drives_letters.insert(key, value);
    }

    /// The drive letter assigned to a storage, as a text of one letter.
    pub fn get_drive_letter(&self, key: &str) -> (r: Option<String>)
        ensures
            match r {
                Some(letter) => self@.drives_letters.contains_key(key@) && letter@
                    == seq![self@.drives_letters[key@]],
                None => !self@.drives_letters.contains_key(key@),
            },
    {
        match self.drives_letters.get(key) {
            Some(c) => {
                let mut letter = String::new();
                letter.push(c);
                assert(letter@ =~= seq![c]);
                Some(letter)
            },
            None => None,
        }
    }

    /// Sets whether a storage is mounted when the application starts.
    pub fn set_drives_auto_mount(&mut self, key: String, value: bool)
        ensures
            final(self)@ == (AppConfigModel {
                drives_auto_mount: old(self)@.drives_auto_mount.insert(key@, value),
                ..old(self)@
            }),
    {
        self.drives_auto_mount.insert(key, value);
    }

    /// Whether a storage is mounted when the application starts; `None`
    /// where nothing was set for it.
    pub fn get_drive_auto_mount(&self, key: &str) -> (r: Option<bool>)
        ensures
            r == if self@.drives_auto_mount.contains_key(key@) {
                Some(self@.drives_auto_mount[key@])
            } else {
                None
            },
    {
        self.drives_auto_mount.get(key)
    }

    /// Among `names`, the storages to mount at start, in their order: those
    /// for which auto mount was set to true.
    pub fn auto_mount_selection(&self, names: &Vec<String>) -> (chosen: Vec<String>)
        ensures
            chosen.deep_view() == names.deep_view().filter(
                |name: Seq<char>| wants_auto_mount(self@.drives_auto_mount, name),
            ),
    {
        let ghost all = names.deep_view();
        let ghost wanted = |name: Seq<char>| wants_auto_mount(self@.drives_auto_mount, name);
        let mut chosen: Vec<String> = Vec::new();
        let mut i: usize = 0;
        proof {
            reveal(Seq::filter);
            assert(all.take(0) =~= Seq::<Seq<char>>::empty());
            assert(chosen.deep_view() =~= Seq::<Seq<char>>::empty());
        }
        while i < names.len()
            invariant
                i <= names.len(),
                all == names.deep_view(),
                wanted == |name: Seq<char>| wants_auto_mount(self@.drives_auto_mount, name),
                chosen.deep_view() == all.take(i as int).filter(wanted),
            decreases names.len() - i,
        {
            let ghost so_far = chosen.deep_view();
            proof {
                all.take(i as int).lemma_filter_push(all[i as int], wanted);
                assert(all.take(i as int).push(all[i as int]) == all.take(i as int + 1));
            }
            match self.drives_auto_mount.get(names[i].as_str()) {
                Some(true) => {
                    chosen.push(names[i].clone());
                    assert(chosen.deep_view() =~= so_far.push(all[i as int]));
                },
                _ => {},
            }
            i += 1;
        }
        assert(all.take(names.len() as int) == all);
        chosen
    }
}

} // verus!
