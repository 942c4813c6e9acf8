//! The error kinds that the engine can report. Each failure mode of the
//! install / update / uninstall pipeline is a distinct variant so that
//! callers can react to them individually.

use vstd::prelude::*;
use crate::platform::{CpuArch, System};

verus! {

/// Every failure the engine distinguishes, from resolution through planning,
/// fetching, extraction, collision checking and database transitions.
#[derive(Debug, PartialEq, Eq)]
pub enum Error {
    /// No platform entry matches the host platform.
    UnsupportedPlatform { system: System, cpu_arch: CpuArch },
    /// A name or filename failed validation at repository ingestion.
    ManifestInvalid { issues: Vec<String> },
    /// A requested package exists in no registered repository.
    PackageNotFound { name: String },
    /// A requested package exists in more than one repository.
    AmbiguousPackage { name: String, repos: Vec<String> },
    /// A dependency name is absent from the repository that owns the parent.
    MissingDependency { name: String, required_by: String, repo: String },
    /// The same name resolves to packages from two different repositories.
    RepositoryConflict { name: String, repo_a: String, repo_b: String },
    /// A package of this name is already installed from another repository.
    RepositoryMigration { name: String, installed_from: String, requested_from: String },
    /// Transport-level failure or a non-200 HTTP response.
    NetworkFailure { message: String },
    /// No release asset name matched the asset pattern.
    NoMatchingAsset { pattern: String, names: Vec<String> },
    /// More than one release asset name matched the asset pattern.
    AmbiguousAsset { pattern: String, names: Vec<String> },
    /// The release title was requested as the version but is absent.
    MissingReleaseTitle,
    /// The downloaded archive could not be opened or decoded.
    ArchiveOpenFailed { message: String },
    /// One pattern matched two different archive entries.
    PatternMatchedMultiple { pattern: String, first: String, second: String },
    /// One archive entry was matched by two different patterns.
    EntryMatchedByMultiplePatterns { path: String, first: String, second: String },
    /// A pattern matched none of the archive's entries; the listing of
    /// (normalised) entry paths is kept for the diagnostic.
    PatternMatchedNothing { pattern: String, listing: Vec<String> },
    /// Two packages would expose the same binary filename.
    BinaryCollision { pkg: String, binary: String, owner: String },
    /// A copy, chmod, mkdir or remove failed.
    FilesystemError { message: String },
    /// The database file could not be read or written.
    DatabaseIoError { message: String },
    /// The database file could not be parsed.
    DatabaseParseError { message: String },
    /// An installed package points at a repository or manifest that no
    /// longer exists.
    OrphanedInstall { name: String, repo: String },
    /// A recorded binary of an installed package is missing on disk.
    BrokenInstall { pkg: String, binary: String },
    /// Uninstalling would break installed packages that depend on the set.
    WouldBreakDependents { name: String, dependents: Vec<String> },
    /// An uninstall was requested for a package that is not installed.
    NotInstalled { name: String },
    /// A named repository is not registered.
    RepositoryNotFound { name: String },
    /// A repository of this name is already registered.
    RepositoryAlreadyRegistered { name: String },
    /// The user declined the confirmation prompt.
    UserAbort,
}

} // verus!
