//! Where the database and the backups live. Paths are absolute or relative Unix
//! paths.
use vstd::prelude::*;

use crate::text::{ends_with, joined, starts_with};

verus! {

/// The name of the database file.
pub const DB_FILE: &'static str = "my_finances.db";

/// A file with the directory that it is in.
#[derive(Debug, Clone, PartialEq, Eq)]
pub struct Place {
    pub dir: String,
    pub path: String,
}

/// A relative path, from a base.
pub open spec fn join_spec(base: Seq<char>, rest: Seq<char>) -> Seq<char> {
    if base.len() == 0 {
        rest
    } else if "/"@.is_suffix_of(base) {
        base + rest
    } else {
        base + "/"@ + rest
    }
}

/// A relative path, from a base.
pub fn join_path(base: &str, rest: &str) -> (r: String)
    ensures
        r@ == join_spec(base@, rest@),
{
    if base.unicode_len() == 0 {
        rest.to_owned()
    } else if ends_with(base, "/") {
        joined(base, rest)
    } else {
        joined(joined(base, "/").as_str(), rest)
    }
}

/// Whether the path is absolute.
pub open spec fn is_absolute_spec(path: Seq<char>) -> bool {
    "/"@.is_prefix_of(path)
}

/// Whether the path is absolute.
pub fn is_absolute(path: &str) -> (r: bool)
    ensures
        r == is_absolute_spec(path@),
{
    starts_with(path, "/")
}

/// The data directory, or the current one where there is none.
pub open spec fn data_root(data_dir: Option<String>) -> Seq<char> {
    match data_dir {
        Some(dir) => dir@,
        None => "."@,
    }
}

fn data_root_of(data_dir: &Option<String>) -> (r: String)
    ensures
        r@ == data_root(*data_dir),
{
    match data_dir {
        Some(dir) => dir.clone(),
        None => ".".to_owned(),
    }
}

/// The root of iCloud Drive in a home directory.
pub open spec fn icloud_root_spec(home: Seq<char>) -> Seq<char> {
    join_spec(
        join_spec(join_spec(home, "Library"@), "Mobile Documents"@),
        "com~apple~CloudDocs"@,
    )
}

/// The root of iCloud Drive in a home directory.
pub fn icloud_root(home: &str) -> (r: String)
    ensures
        r@ == icloud_root_spec(home@),
{
    let library: String = join_path(home, "Library");
    let documents: String = join_path(library.as_str(), "Mobile Documents");
    join_path(documents.as_str(), "com~apple~CloudDocs")
}

/// The directory of the database: the app's folder of iCloud Drive, given its
/// root when that is a directory, and the data directory otherwise.
pub open spec fn db_dir(icloud: Option<String>, data_dir: Option<String>) -> Seq<char> {
    match icloud {
        Some(root) => join_spec(root@, "my_finances"@),
        None => data_root(data_dir),
    }
}

/// The database file.
pub open spec fn db_path(icloud: Option<String>, data_dir: Option<String>) -> Seq<char> {
    join_spec(db_dir(icloud, data_dir), DB_FILE@)
}

/// The database file where iCloud Drive is not used.
pub open spec fn legacy_path(data_dir: Option<String>) -> Seq<char> {
    join_spec(data_root(data_dir), DB_FILE@)
}

/// Where the database lives. `icloud` is the root of iCloud Drive when that is a
/// directory.
pub fn resolve_db_path(icloud: &Option<String>, data_dir: &Option<String>) -> (r: Place)
    ensures
        r.dir@ == db_dir(*icloud, *data_dir),
        r.path@ == db_path(*icloud, *data_dir),
{
    let dir: String = match icloud {
        Some(root) => join_path(root.as_str(), "my_finances"),
        None => data_root_of(data_dir),
    };
    let path: String = join_path(dir.as_str(), DB_FILE);
    Place { dir, path }
}

/// Where the database lives without iCloud Drive.
pub fn legacy_local_db_path(data_dir: &Option<String>) -> (r: String)
    ensures
        r@ == legacy_path(*data_dir),
{
    join_path(data_root_of(data_dir).as_str(), DB_FILE)
}

/// Whether to copy the local database to its new place: only if nothing is there
/// yet and there is one to copy.
pub open spec fn migration_due(target_exists: bool, legacy_exists: bool) -> bool {
    !target_exists && legacy_exists
}

/// Whether to copy the local database to its new place.
pub fn should_migrate(target_exists: bool, legacy_exists: bool) -> (r: bool)
    ensures
        r == migration_due(target_exists, legacy_exists),
{
    !target_exists && legacy_exists
}

/// The default directory for backups.
pub open spec fn default_backups_dir(data_dir: Option<String>) -> Seq<char> {
    join_spec(join_spec(data_root(data_dir), "my_finances"@), "backups"@)
}

/// Whether a chosen directory for backups is used.
pub open spec fn usable_dir(custom: Option<String>) -> bool {
    custom is Some && is_absolute_spec(custom->0@)
}

/// The directory for backups: the chosen one if it is an absolute path, else the
/// default.
pub fn resolve_backups_dir(custom: &Option<String>, data_dir: &Option<String>) -> (r: String)
    ensures
        r@ == if usable_dir(*custom) {
            custom->0@
        } else {
            default_backups_dir(*data_dir)
        },
{
    match custom {
        Some(dir) => {
            if is_absolute(dir.as_str()) {
                return dir.clone();
            }
        },
        None => {},
    }
    let app_dir: String = join_path(data_root_of(data_dir).as_str(), "my_finances");
    join_path(app_dir.as_str(), "backups")
}

/// Without iCloud Drive the database is where it always was, and nothing is
/// copied, whatever files there are.
pub proof fn law_local_database_is_not_migrated(
    data_dir: Option<String>,
    exists_file: spec_fn(Seq<char>) -> bool,
)
    ensures
        db_path(None, data_dir) == legacy_path(data_dir),
        !migration_due(exists_file(db_path(None, data_dir)), exists_file(legacy_path(data_dir))),
{
}

/// Once there is a database at its new place, nothing is copied over it.
pub proof fn law_migration_never_overwrites(legacy_exists: bool)
    ensures
        !migration_due(true, legacy_exists),
{
}

} // verus!
