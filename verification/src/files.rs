//! Which files and directories private data may be kept in.
use vstd::prelude::*;

verus! {

/// What the system says of a file or a directory.
#[derive(Clone, Copy, Debug, PartialEq, Eq, Structural)]
pub struct FileFacts {
    pub is_file: bool,
    pub is_dir: bool,
    pub owner: u32,
    pub mode: u32,
    pub length: u64,
}

/// Why a file or a directory is not used.
#[derive(Clone, Copy, Debug, PartialEq, Eq, Structural)]
pub enum FileError {
    /// The directory is not the user's own, or others can reach into it.
    Directory,
    /// Somebody else could replace what lies below.
    Ancestor,
    /// The file is not a regular file of the user's own, or others can read it.
    Database,
    /// The same of a file beside the database.
    Sidecar,
    /// The same of a part of the identity.
    Identity,
    /// A part of the identity is too large.
    IdentitySize,
}

impl FileError {
    /// What to tell a person.
    pub fn message(&self) -> (text: &'static str)
        ensures
            text@ == match self {
                FileError::Directory => {
                    "database directory must be owned by this user with mode 0700"@
                },
                FileError::Ancestor => "unsafe directory ancestor"@,
                FileError::Database => "database must be a regular owner-only file"@,
                FileError::Sidecar => "unsafe database sidecar"@,
                FileError::Identity => "TLS identity must be a regular owner-only file"@,
                FileError::IdentitySize => "TLS identity file too large"@,
            },
    {
        match self {
            FileError::Directory => "database directory must be owned by this user with mode 0700",
            FileError::Ancestor => "unsafe directory ancestor",
            FileError::Database => "database must be a regular owner-only file",
            FileError::Sidecar => "unsafe database sidecar",
            FileError::Identity => "TLS identity must be a regular owner-only file",
            FileError::IdentitySize => "TLS identity file too large",
        }
    }
}

/// The directory that a program's data stands under.
#[derive(Clone, Copy, Debug, PartialEq, Eq, Structural)]
pub enum DataRoot {
    /// The data directory.
    DataHome,
    /// `.local/share` under the home directory.
    Home,
}

/// Where a program's data stands by default. `data_home` says whether the data
/// directory is absolute, where one is set.
pub fn default_directory(data_home: Option<bool>, home_set: bool) -> (base: Option<DataRoot>)
    ensures
        base == (if data_home == Some(true) {
            Some(DataRoot::DataHome)
        } else if home_set {
            Some(DataRoot::Home)
        } else {
            None
        }),
{
    if let Some(absolute) = data_home {
        if absolute {
            return Some(DataRoot::DataHome);
        }
    }
    if home_set {
        Some(DataRoot::Home)
    } else {
        None
    }
}

/// The largest part of an identity, in bytes.
pub const MAX_IDENTITY_FILE: u64 = 64 * 1024;

/// Whether only its owner can do anything with a file.
pub open spec fn owner_only(facts: FileFacts, user: u32) -> bool {
    facts.owner == user && facts.mode & 0o077 == 0
}

/// Whether nobody else can replace what lies below a directory: others may write
/// only where they cannot remove what is not theirs.
pub open spec fn ancestor_safe(facts: FileFacts) -> bool {
    facts.is_dir && (facts.mode & 0o022 == 0 || facts.mode & 0o1000 != 0)
}

/// The directory that holds the database.
pub fn check_directory(facts: &FileFacts, user: u32) -> (result: Result<(), FileError>)
    ensures
        result == (if facts.is_dir && owner_only(*facts, user) {
            Ok::<(), FileError>(())
        } else {
            Err(FileError::Directory)
        }),
{
    if !facts.is_dir || facts.owner != user || facts.mode & 0o077 != 0 {
        return Err(FileError::Directory);
    }
    Ok(())
}

/// A directory above it.
pub fn check_ancestor(facts: &FileFacts) -> (result: Result<(), FileError>)
    ensures
        result == (if ancestor_safe(*facts) {
            Ok::<(), FileError>(())
        } else {
            Err(FileError::Ancestor)
        }),
{
    let sticky = facts.mode & 0o1000 != 0;
    if !facts.is_dir || (facts.mode & 0o022 != 0 && !sticky) {
        return Err(FileError::Ancestor);
    }
    Ok(())
}

/// The database itself.
pub fn check_database(facts: &FileFacts, user: u32) -> (result: Result<(), FileError>)
    ensures
        result == (if facts.is_file && owner_only(*facts, user) {
            Ok::<(), FileError>(())
        } else {
            Err(FileError::Database)
        }),
{
    if !facts.is_file || facts.owner != user || facts.mode & 0o077 != 0 {
        return Err(FileError::Database);
    }
    Ok(())
}

/// A file beside the database.
pub fn check_sidecar(facts: &FileFacts, user: u32) -> (result: Result<(), FileError>)
    ensures
        result == (if facts.is_file && owner_only(*facts, user) {
            Ok::<(), FileError>(())
        } else {
            Err(FileError::Sidecar)
        }),
{
    if !facts.is_file || facts.owner != user || facts.mode & 0o077 != 0 {
        return Err(FileError::Sidecar);
    }
    Ok(())
}

/// A part of the identity.
pub fn check_identity_file(facts: &FileFacts, user: u32) -> (result: Result<(), FileError>)
    ensures
        result == (if !(facts.is_file && owner_only(*facts, user)) {
            Err::<(), FileError>(FileError::Identity)
        } else if facts.length > MAX_IDENTITY_FILE {
            Err(FileError::IdentitySize)
        } else {
            Ok(())
        }),
{
    if !facts.is_file || facts.owner != user || facts.mode & 0o077 != 0 {
        return Err(FileError::Identity);
    }
    if facts.length > MAX_IDENTITY_FILE {
        return Err(FileError::IdentitySize);
    }
    Ok(())
}

} // verus!
