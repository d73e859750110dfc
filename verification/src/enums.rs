//! The small closed sets: tabs, messages, storage providers and themes.

use vstd::prelude::*;

verus! {

/// The pages of the main window.
#[derive(Debug, Clone, Copy, PartialEq, Eq, Structural)]
pub enum Tab {
    MountUnmount,
    Manage,
    Settings,
}

impl Tab {
    /// The title of the tab.
    pub open spec fn title(self) -> Seq<char> {
        match self {
            Tab::MountUnmount => "Mount - Unmount"@,
            Tab::Manage => "Manage Storages"@,
            Tab::Settings => "Settings"@,
        }
    }

    /// Every tab, in the order in which they are shown.
    pub fn values() -> (all: [Tab; 3])
        ensures
            all@ == seq![Tab::MountUnmount, Tab::Manage, Tab::Settings],
    {
        let all = [Tab::MountUnmount, Tab::Manage, Tab::Settings];
        assert(all@ =~= seq![Tab::MountUnmount, Tab::Manage, Tab::Settings]);
        all
    }

    /// The title of the tab.
    pub fn to_str(&self) -> (title: &'static str)
        ensures
            title@ == self.title(),
    {
        match self {
            Tab::MountUnmount => "Mount - Unmount",
            Tab::Manage => "Manage Storages",
            Tab::Settings => "Settings",
        }
    }
}

/// What the tray menu, the registry watcher and the orchestrator tell the
/// main window.
#[derive(Debug, Clone, Copy, PartialEq, Eq, Structural)]
pub enum Message {
    Quit,
    Icon,
    ShowApp,
    HideApp,
    RcloneConfigUpdated,
    MountAll,
    UnmountAll,
    MountedSuccess,
}

impl Message {
    /// The message that a tray menu entry stands for, by the entry's id.
    pub open spec fn of_menu_id(id: Seq<char>) -> Option<Message> {
        if id == "quit"@ {
            Some(Message::Quit)
        } else if id == "show_app"@ {
            Some(Message::ShowApp)
        } else if id == "hide_app"@ {
            Some(Message::HideApp)
        } else if id == "mount_all"@ {
            Some(Message::MountAll)
        } else if id == "unmount_all"@ {
            Some(Message::UnmountAll)
        } else {
            None
        }
    }

    /// The message that a tray menu entry stands for; `None` for an id that
    /// the menu does not have.
    pub fn from_menu_id(id: &str) -> (r: Option<Message>)
        ensures
            r == Message::of_menu_id(id@),
    {
        if id.eq("quit") {
            Some(Message::Quit)
        } else if id.eq("show_app") {
            Some(Message::ShowApp)
        } else if id.eq("hide_app") {
            Some(Message::HideApp)
        } else if id.eq("mount_all") {
            Some(Message::MountAll)
        } else if id.eq("unmount_all") {
            Some(Message::UnmountAll)
        } else {
            None
        }
    }
}

/// The providers for which a storage can be set up.
#[derive(Debug, Clone, Copy, PartialEq, Eq, Structural)]
pub enum StorageType {
    GoogleDrive,
    OneDrive,
    Dropbox,
    GooglePhotos,
    Mega,
    NextCloud,
}

impl StorageType {
    /// The provider's name as it is shown.
    pub open spec fn label(self) -> Seq<char> {
        match self {
            StorageType::GoogleDrive => "Google Drive"@,
            StorageType::OneDrive => "OneDrive"@,
            StorageType::Dropbox => "Dropbox"@,
            StorageType::GooglePhotos => "Google Photos"@,
            StorageType::Mega => "Mega"@,
            StorageType::NextCloud => "NextCloud"@,
        }
    }

    /// The provider's name in the registry's `type` field.
    pub open spec fn key_text(self) -> Seq<char> {
        match self {
            StorageType::GoogleDrive => "drive"@,
            StorageType::OneDrive => "onedrive"@,
            StorageType::Dropbox => "dropbox"@,
            StorageType::GooglePhotos => "googlephotos"@,
            StorageType::Mega => "mega"@,
            StorageType::NextCloud => "nextcloud"@,
        }
    }

    /// The provider that a `type` field names, if it is one of these.
    pub open spec fn of_key(key: Seq<char>) -> Option<StorageType> {
        if key == "drive"@ {
            Some(StorageType::GoogleDrive)
        } else if key == "onedrive"@ {
            Some(StorageType::OneDrive)
        } else if key == "dropbox"@ {
            Some(StorageType::Dropbox)
        } else if key == "googlephotos"@ {
            Some(StorageType::GooglePhotos)
        } else if key == "mega"@ {
            Some(StorageType::Mega)
        } else if key == "nextcloud"@ {
            Some(StorageType::NextCloud)
        } else {
            None
        }
    }

    /// The provider's name as it is shown.
    pub fn name(&self) -> (label: &'static str)
        ensures
            label@ == self.label(),
    {
        match self {
            StorageType::GoogleDrive => "Google Drive",
            StorageType::OneDrive => "OneDrive",
            StorageType::Dropbox => "Dropbox",
            StorageType::GooglePhotos => "Google Photos",
            StorageType::Mega => "Mega",
            StorageType::NextCloud => "NextCloud",
        }
    }

    /// Every provider, in the order in which they are offered.
    pub fn values() -> (all: [StorageType; 6])
        ensures
            all@ == seq![
                StorageType::GoogleDrive,
                StorageType::OneDrive,
                StorageType::Dropbox,
                StorageType::GooglePhotos,
                StorageType::Mega,
                StorageType::NextCloud,
            ],
    {
        let all = [
            StorageType::GoogleDrive,
            StorageType::OneDrive,
            StorageType::Dropbox,
            StorageType::GooglePhotos,
            StorageType::Mega,
            StorageType::NextCloud,
        ];
        assert(all@ =~= seq![
            StorageType::GoogleDrive,
            StorageType::OneDrive,
            StorageType::Dropbox,
            StorageType::GooglePhotos,
            StorageType::Mega,
            StorageType::NextCloud,
        ]);
        all
    }

    /// The provider's name in the registry's `type` field.
    pub fn key(&self) -> (key: &'static str)
        ensures
            key@ == self.key_text(),
    {
        match self {
            StorageType::GoogleDrive => "drive",
            StorageType::OneDrive => "onedrive",
            StorageType::Dropbox => "dropbox",
            StorageType::GooglePhotos => "googlephotos",
            StorageType::Mega => "mega",
            StorageType::NextCloud => "nextcloud",
        }
    }

    /// The provider that a `type` field names; `None` for any other text.
    pub fn from_key(key: &str) -> (r: Option<StorageType>)
        ensures
            r == StorageType::of_key(key@),
    {
        if key.eq("drive") {
            Some(StorageType::GoogleDrive)
        } else if key.eq("onedrive") {
            Some(StorageType::OneDrive)
        } else if key.eq("dropbox") {
            Some(StorageType::Dropbox)
        } else if key.eq("googlephotos") {
            Some(StorageType::GooglePhotos)
        } else if key.eq("mega") {
            Some(StorageType::Mega)
        } else if key.eq("nextcloud") {
            Some(StorageType::NextCloud)
        } else {
            None
        }
    }

    /// The name shown for a `type` field: the provider's name, or `Unknown`
    /// for a type that is none of these.
    pub fn label_of_key(key: &str) -> (label: &'static str)
        ensures
            label@ == match StorageType::of_key(key@) {
                Some(provider) => provider.label(),
                None => "Unknown"@,
            },
    {
        match StorageType::from_key(key) {
            Some(provider) => provider.name(),
            None => "Unknown",
        }
    }

    /// A provider is found again by its own key.
    pub proof fn lemma_key_round_trip(self)
        ensures
            StorageType::of_key(self.key_text()) == Some(self),
    {
        reveal_strlit("drive");
        reveal_strlit("onedrive");
        reveal_strlit("dropbox");
        reveal_strlit("googlephotos");
        reveal_strlit("mega");
        reveal_strlit("nextcloud");
        assert("drive"@.len() == 5 && "onedrive"@.len() == 8 && "dropbox"@.len() == 7);
        assert("googlephotos"@.len() == 12 && "mega"@.len() == 4 && "nextcloud"@.len() == 9);
        assert("drive"@[1] != "mega"@[1]);
        assert("onedrive"@[0] != "nextcloud"@[0]);
        assert("dropbox"@[4] != "mega"@[0]);
    }
}

/// The colour themes of the window.
#[derive(Debug, Clone, Copy, PartialEq, Eq, Structural)]
pub enum AppTheme {
    Light,
    Dark,
    FRAPPE,
    LATTE,
    MACCHIATO,
    MOCHA,
}

impl AppTheme {
    /// The theme's name as it is shown.
    pub open spec fn label(self) -> Seq<char> {
        match self {
            AppTheme::Light => "Light"@,
            AppTheme::Dark => "Dark"@,
            AppTheme::FRAPPE => "Frappe"@,
            AppTheme::LATTE => "Latte"@,
            AppTheme::MACCHIATO => "Macchiato"@,
            AppTheme::MOCHA => "Mocha"@,
        }
    }

    /// The theme's name as it is shown.
    pub fn name(&self) -> (label: &'static str)
        ensures
            label@ == self.label(),
    {
        match self {
            AppTheme::Light => "Light",
            AppTheme::Dark => "Dark",
            AppTheme::FRAPPE => "Frappe",
            AppTheme::LATTE => "Latte",
            AppTheme::MACCHIATO => "Macchiato",
            AppTheme::MOCHA => "Mocha",
        }
    }

    /// Every theme, in the order in which they are offered.
    pub fn values() -> (all: [AppTheme; 6])
        ensures
            all@ == seq![
                AppTheme::Light,
                AppTheme::Dark,
                AppTheme::FRAPPE,
                AppTheme::LATTE,
                AppTheme::MACCHIATO,
                AppTheme::MOCHA,
            ],
    {
        let all = [
            AppTheme::Light,
            AppTheme::Dark,
            AppTheme::FRAPPE,
            AppTheme::LATTE,
            AppTheme::MACCHIATO,
            AppTheme::MOCHA,
        ];
        assert(all@ =~= seq![
            AppTheme::Light,
            AppTheme::Dark,
            AppTheme::FRAPPE,
            AppTheme::LATTE,
            AppTheme::MACCHIATO,
            AppTheme::MOCHA,
        ]);
        all
    }
}

} // verus!
