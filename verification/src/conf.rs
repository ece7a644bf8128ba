//! Settings of the local user.

use vstd::prelude::*;

verus! {

/// Everything the engine is configured with.
pub struct Settings {
    pub user: UserSettings,
    pub key: KeySettings,
}

/// The account the engine logs in with.
pub struct UserSettings {
    pub handle: String,
    pub password: String,
}

/// Where the long-term identity is kept.
pub struct KeySettings {
    pub file_path: String,
}

impl Clone for UserSettings {
    fn clone(&self) -> (res: Self)
        ensures
            res.handle@ == self.handle@,
            res.password@ == self.password@,
    {
        UserSettings { handle: self.handle.clone(), password: self.password.clone() }
    }
}

impl Clone for KeySettings {
    fn clone(&self) -> (res: Self)
        ensures
            res.file_path@ == self.file_path@,
    {
        KeySettings { file_path: self.file_path.clone() }
    }
}

impl Clone for Settings {
    fn clone(&self) -> (res: Self)
        ensures
            res.user.handle@ == self.user.handle@,
            res.user.password@ == self.user.password@,
            res.key.file_path@ == self.key.file_path@,
    {
        Settings { user: self.user.clone(), key: self.key.clone() }
    }
}

impl Default for UserSettings {
    fn default() -> (res: Self)
        ensures
            res.handle@.len() == 0,
            res.password@.len() == 0,
    {
        UserSettings { handle: String::new(), password: String::new() }
    }
}

impl Default for KeySettings {
    fn default() -> (res: Self)
        ensures
            res.file_path@.len() == 0,
    {
        KeySettings { file_path: String::new() }
    }
}

impl Default for Settings {
    fn default() -> (res: Self)
        ensures
            res.user.handle@.len() == 0,
            res.user.password@.len() == 0,
            res.key.file_path@.len() == 0,
    {
        Settings { user: UserSettings::default(), key: KeySettings::default() }
    }
}

} // verus!
