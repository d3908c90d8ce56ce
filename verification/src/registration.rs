//! Configuration and plain data of the user-registration layer that runs
//! around the core: remote-storage paths and the user lifecycle status.

use vstd::prelude::*;

use vstd::string::StringExecFns;

verus! {

/// Where the registration layer keeps its user directory: the credentials
/// file, the storage folder, and optionally a shared drive.
#[derive(Debug, Clone)]
pub struct RegistrationConfig {
    /// Path to the service-account credentials file.
    pub credentials_path: String,
    /// Identifier of the folder that holds the registered users.
    pub users_folder_id: String,
    /// Shared-drive identifier, when the folder lives on a shared drive.
    pub shared_drive_id: Option<String>,
}

impl RegistrationConfig {
    /// A configuration on a personal drive: no shared drive set.
    pub fn new(credentials_path: String, users_folder_id: String) -> (c: RegistrationConfig)
        ensures
            c.credentials_path == credentials_path,
            c.users_folder_id == users_folder_id,
            c.shared_drive_id is None,
    {
        RegistrationConfig { credentials_path, users_folder_id, shared_drive_id: Option::None }
    }

    /// The same configuration moved onto a shared drive.
    pub fn with_shared_drive(self, drive_id: String) -> (c: RegistrationConfig)
        ensures
            c.credentials_path == self.credentials_path,
            c.users_folder_id == self.users_folder_id,
            c.shared_drive_id == Option::Some(drive_id),
    {
        RegistrationConfig { shared_drive_id: Option::Some(drive_id), ..self }
    }
}

impl Default for RegistrationConfig {
    /// The conventional locations used when nothing is configured.
    fn default() -> (c: RegistrationConfig)
        ensures
            c.credentials_path@ == "credentials/service-account.json"@,
            c.users_folder_id@ == "REGISTERED_USERS_FOLDER_ID"@,
            c.shared_drive_id is None,
    {
        RegistrationConfig {
            credentials_path: String::from_str("credentials/service-account.json"),
            users_folder_id: String::from_str("REGISTERED_USERS_FOLDER_ID"),
            shared_drive_id: Option::None,
        }
    }
}

/// The lifecycle status of a registered user.
#[derive(Debug, Clone, PartialEq, Eq, Structural)]
pub enum UserStatus {
    Active,
    Inactive,
    Suspended,
}

impl UserStatus {
    /// The status as the lowercase word the registry stores.
    pub fn label(&self) -> (l: String)
        ensures
            self is Active ==> l@ == "active"@,
            self is Inactive ==> l@ == "inactive"@,
            self is Suspended ==> l@ == "suspended"@,
    {
        match self {
            UserStatus::Active => String::from_str("active"),
            UserStatus::Inactive => String::from_str("inactive"),
            UserStatus::Suspended => String::from_str("suspended"),
        }
    }
}

/// A note kept beside a stored image: an adjustment of its view count.
#[derive(Debug, Clone)]
pub struct ImageNote {
    pub image_filename: String,
    pub view_count_edit: i32,
}

} // verus!
