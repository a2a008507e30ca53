//! The rules of the commands: which names a snapshot may have, what a
//! command leaves in the history, which blobs and dumps are still in use.

use vstd::prelude::*;
use vstd::utf8::encode_utf8;
use crate::config::{Config, DatabaseConfig};
use crate::manifest::{FileEntry, Manifest};
use crate::select::{distinct, distinct_holds_each_once, push_new};
use crate::store::{garbage, law_gc_keeps_the_live, BlobFile};
use crate::table::Table;
use crate::order::{descending, is_descending};
use crate::text::{chars_of, clone_texts, contains_text, decimal, has_char, has_suffix, join,
    has_sub, joined, lowercase, push_all, push_decimal, push_str, sub_of_itself, sub_stays,
    text_of, texts, to_lowercase, trim, trimmed};

verus! {

/// Longest name of a snapshot, in bytes.
pub const MAX_NAME_LEN: usize = 255;

/// Why a snapshot's name is refused.
#[derive(Debug, Clone)]
pub enum NameError {
    Empty,
    /// The name holds a slash, a backslash or a zero character.
    InvalidCharacters,
    LeadingDot,
    TooLong,
    /// The name is one that the repository uses itself.
    Reserved(String),
}

/// The kinds of refusal of a name.
#[derive(PartialEq, Eq, Structural)]
pub enum NameFault {
    Empty,
    InvalidCharacters,
    LeadingDot,
    TooLong,
    Reserved,
}

impl NameError {
    /// The kind of the refusal.
    pub open spec fn fault(&self) -> NameFault {
        match self {
            NameError::Empty => NameFault::Empty,
            NameError::InvalidCharacters => NameFault::InvalidCharacters,
            NameError::LeadingDot => NameFault::LeadingDot,
            NameError::TooLong => NameFault::TooLong,
            NameError::Reserved(_) => NameFault::Reserved,
        }
    }

    /// What went wrong, in words. A reserved name is named.
    pub fn message(&self) -> (out: String)
        ensures
            self matches NameError::Reserved(name) ==> has_sub(out@, name@),
    {
        match self {
            NameError::Empty => "Snapshot name cannot be empty".to_string(),
            NameError::InvalidCharacters => "Snapshot name contains invalid characters".to_string(),
            NameError::LeadingDot => "Snapshot name cannot start with a dot".to_string(),
            NameError::TooLong => "Snapshot name is too long (max 255 characters)".to_string(),
            NameError::Reserved(name) => {
                let mut buf: Vec<char> = Vec::new();
                push_str(&mut buf, "Snapshot name '");
                push_str(&mut buf, name.as_str());
                push_str(&mut buf, "' is reserved");
                proof {
                    sub_of_itself(name@);
                    sub_stays("Snapshot name '"@, name@, "' is reserved"@, name@);
                }
                text_of(&buf)
            },
        }
    }
}

/// A name that the repository uses itself.
pub open spec fn is_reserved(name: Seq<char>) -> bool {
    ||| name == "."@
    ||| name == ".."@
    ||| name == "store"@
    ||| name == "manifests"@
    ||| name == "hash_cache"@
}

/// What is wrong with a snapshot's name, if anything: the first of these
/// that holds.
pub open spec fn name_fault(name: Seq<char>) -> Option<NameFault> {
    if name.len() == 0 {
        Some(NameFault::Empty)
    } else if name.contains('/') || name.contains('\\') || name.contains('\0') {
        Some(NameFault::InvalidCharacters)
    } else if name[0] == '.' {
        Some(NameFault::LeadingDot)
    } else if encode_utf8(name).len() > MAX_NAME_LEN {
        Some(NameFault::TooLong)
    } else if is_reserved(name) {
        Some(NameFault::Reserved)
    } else {
        None
    }
}

/// Checks that a snapshot's name can be the name of its manifest's file.
pub fn validate_snapshot_name(name: &str) -> (out: Result<(), NameError>)
    ensures
        match out {
            Ok(_) => name_fault(name@) is None,
            Err(e) => name_fault(name@) == Some(e.fault()) && (e matches NameError::Reserved(n)
                ==> n@ == name@),
        },
{
    let chars = chars_of(name);
    if chars.len() == 0 {
        return Err(NameError::Empty);
    }
    if has_char(&chars, '/') || has_char(&chars, '\\') || has_char(&chars, '\0') {
        return Err(NameError::InvalidCharacters);
    }
    if chars[0] == '.' {
        return Err(NameError::LeadingDot);
    }
    if name.as_bytes().len() > MAX_NAME_LEN {
        return Err(NameError::TooLong);
    }
    if *name == *"." || *name == *".." || *name == *"store" || *name == *"manifests" || *name
        == *"hash_cache" {
        return Err(NameError::Reserved(name.to_string()));
    }
    Ok(())
}

/// Why no database can be dumped with a snapshot.
#[derive(Debug, Clone, Copy, PartialEq, Eq, Structural)]
pub enum DatabaseError {
    /// No database is named and the configuration has none.
    NoDefault,
    /// A database is named, but the configuration does not say how to
    /// reach one.
    NoConnection,
}

impl DatabaseError {
    /// What went wrong, in words.
    pub fn message(&self) -> (out: String)
        ensures
            out@ == self.words(),
    {
        match self {
            DatabaseError::NoDefault => NO_DEFAULT_DATABASE.to_string(),
            DatabaseError::NoConnection => NO_DATABASE_CONNECTION.to_string(),
        }
    }

    /// The words for each refusal.
    pub open spec fn words(&self) -> Seq<char> {
        match self {
            DatabaseError::NoDefault => NO_DEFAULT_DATABASE@,
            DatabaseError::NoConnection => NO_DATABASE_CONNECTION@,
        }
    }
}

/// What is said where no database is named and none is configured.
pub const NO_DEFAULT_DATABASE: &'static str =
    "--include-db specified but no [database] section found in .kibo.toml\nAdd a [database] section to your config or specify database name with --include-db=<dbname>";

/// What is said where a database is named and none is configured.
pub const NO_DATABASE_CONNECTION: &'static str =
    "--include-db specified but no [database] section found in .kibo.toml\nThe [database] section is required for connection settings (host, user, password, etc.)";

/// The database to dump with a snapshot: none where none is asked for, the
/// configured one where the request names none, else the named one. A dump
/// needs the configuration of a database.
pub open spec fn database_choice(include_db: Option<Seq<char>>, configured: Option<Seq<char>>) -> Result<
    Option<Seq<char>>,
    DatabaseError,
> {
    match include_db {
        None => Ok(None),
        Some(asked) => match configured {
            None => if asked.len() == 0 {
                Err(DatabaseError::NoDefault)
            } else {
                Err(DatabaseError::NoConnection)
            },
            Some(name) => if asked.len() == 0 {
                Ok(Some(name))
            } else {
                Ok(Some(asked))
            },
        },
    }
}

/// Chooses the database to dump with a snapshot.
pub fn database_to_dump(include_db: Option<&str>, database: Option<&DatabaseConfig>) -> (out: Result<
    Option<String>,
    DatabaseError,
>)
    ensures
        match out {
            Ok(Some(name)) => database_choice(
                match include_db {
                    Some(s) => Some(s@),
                    None => None,
                },
                match database {
                    Some(d) => Some(d.name@),
                    None => None,
                },
            ) == Ok::<Option<Seq<char>>, DatabaseError>(Some(name@)),
            Ok(None) => include_db is None,
            Err(e) => database_choice(
                match include_db {
                    Some(s) => Some(s@),
                    None => None,
                },
                match database {
                    Some(d) => Some(d.name@),
                    None => None,
                },
            ) == Err::<Option<Seq<char>>, DatabaseError>(e),
        },
{
    match include_db {
        None => Ok(None),
        Some(asked) => match database {
            None => if asked.is_empty() {
                Err(DatabaseError::NoDefault)
            } else {
                Err(DatabaseError::NoConnection)
            },
            Some(db) => if asked.is_empty() {
                Ok(Some(db.name.clone()))
            } else {
                Ok(Some(asked.to_string()))
            },
        },
    }
}

/// The name of a dump's file: the snapshot, the database and a time stamp.
pub open spec fn dump_name(snapshot: Seq<char>, database: Seq<char>, stamp: Seq<char>) -> Seq<char> {
    snapshot + seq!['-'] + database + seq!['-'] + stamp + ".sql"@
}

/// The name of the file of a dump.
pub fn dump_file_name(snapshot: &str, database: &str, stamp: &str) -> (out: String)
    ensures
        out@ == dump_name(snapshot@, database@, stamp@),
{
    let mut buf: Vec<char> = chars_of(snapshot);
    buf.push('-');
    push_str(&mut buf, database);
    buf.push('-');
    push_str(&mut buf, stamp);
    push_str(&mut buf, ".sql");
    assert(buf@ =~= dump_name(snapshot@, database@, stamp@));
    text_of(&buf)
}

/// A flag with its value: `--name=value`.
pub open spec fn flag_with(name: Seq<char>, value: Seq<char>) -> Seq<char> {
    name + seq!['='] + value
}

fn make_flag(name: &str, value: &Vec<char>) -> (out: String)
    ensures
        out@ == flag_with(name@, value@),
{
    let mut buf: Vec<char> = chars_of(name);
    buf.push('=');
    push_all(&mut buf, value);
    assert(buf@ =~= flag_with(name@, value@));
    text_of(&buf)
}

fn list_flag(name: &str, values: &Vec<String>) -> (out: String)
    ensures
        out@ == flag_with(name@, joined(texts(values@), seq![','])),
{
    assert(","@ =~= seq![',']) by {
        reveal_strlit(",");
    }
    let list = join(values, ",");
    let chars = chars_of(list.as_str());
    make_flag(name, &chars)
}

/// What a save was asked to do, as far as the history records it.
pub struct SaveRequest {
    pub verbose: bool,
    /// `Some` where a database dump was asked for; empty where no database
    /// was named.
    pub include_db: Option<String>,
    pub yes: bool,
    pub compression_level: Option<u32>,
    pub directories: Option<Vec<String>>,
    pub add_directories: Option<Vec<String>>,
    pub files: Option<Vec<String>>,
    pub add_files: Option<Vec<String>>,
}

/// One flag where the option is there, none where it is not.
pub open spec fn list_flag_of(name: Seq<char>, values: Option<Vec<String>>) -> Seq<Seq<char>> {
    match values {
        Some(v) => seq![flag_with(name, joined(texts(v@), seq![',']))],
        None => Seq::empty(),
    }
}

impl SaveRequest {
    /// The flags of a save as the history shows them, in this order.
    pub open spec fn flags(&self) -> Seq<Seq<char>> {
        (if self.verbose {
            seq!["--verbose"@]
        } else {
            Seq::empty()
        }) + (match self.include_db {
            Some(db) => if db@.len() == 0 {
                seq!["--include-db"@]
            } else {
                seq![flag_with("--include-db"@, db@)]
            },
            None => Seq::empty(),
        }) + (if self.yes {
            seq!["--yes"@]
        } else {
            Seq::empty()
        }) + (match self.compression_level {
            Some(level) => seq![flag_with("--compression-level"@, decimal(level as nat))],
            None => Seq::empty(),
        }) + list_flag_of("--directories"@, self.directories) + list_flag_of(
            "--add-directories"@,
            self.add_directories,
        ) + list_flag_of("--files"@, self.files) + list_flag_of("--add-files"@, self.add_files)
    }

    /// The flags of the save, as the history records them.
    pub fn history_flags(&self) -> (out: Vec<String>)
        ensures
            texts(out@) == self.flags(),
    {
        let mut out: Vec<String> = Vec::new();
        assert(texts(out@) =~= Seq::<Seq<char>>::empty());
        if self.verbose {
            out.push("--verbose".to_string());
            assert(texts(out@) =~= seq!["--verbose"@]);
        }
        let ghost s1 = texts(out@);
        match &self.include_db {
            Some(db) => {
                if db.as_str().is_empty() {
                    out.push("--include-db".to_string());
                    assert(texts(out@) =~= s1 + seq!["--include-db"@]);
                } else {
                    let value = chars_of(db.as_str());
                    let flag = make_flag("--include-db", &value);
                    out.push(flag);
                    assert(texts(out@) =~= s1 + seq![flag_with("--include-db"@, db@)]);
                }
            },
            None => {
                assert(texts(out@) =~= s1 + Seq::<Seq<char>>::empty());
            },
        }
        let ghost s2 = texts(out@);
        if self.yes {
            out.push("--yes".to_string());
            assert(texts(out@) =~= s2 + seq!["--yes"@]);
        } else {
            assert(texts(out@) =~= s2 + Seq::<Seq<char>>::empty());
        }
        let ghost s3 = texts(out@);
        match self.compression_level {
            Some(level) => {
                let mut value: Vec<char> = Vec::new();
                push_decimal(&mut value, level as u64);
                assert(value@ =~= decimal(level as nat));
                let flag = make_flag("--compression-level", &value);
                out.push(flag);
                assert(texts(out@) =~= s3 + seq![
                    flag_with("--compression-level"@, decimal(level as nat)),
                ]);
            },
            None => {
                assert(texts(out@) =~= s3 + Seq::<Seq<char>>::empty());
            },
        }
        push_list_flag(&mut out, "--directories", &self.directories);
        push_list_flag(&mut out, "--add-directories", &self.add_directories);
        push_list_flag(&mut out, "--files", &self.files);
        push_list_flag(&mut out, "--add-files", &self.add_files);
        out
    }
}

fn push_list_flag(out: &mut Vec<String>, name: &str, values: &Option<Vec<String>>)
    ensures
        texts(final(out)@) == texts(old(out)@) + list_flag_of(name@, *values),
{
    match values {
        Some(v) => {
            let flag = list_flag(name, v);
            out.push(flag);
            assert(texts(out@) =~= texts(old(out)@) + list_flag_of(name@, *values));
        },
        None => {
            assert(texts(out@) =~= texts(old(out)@) + list_flag_of(name@, *values));
        },
    }
}

/// What a save was asked to track instead of, or besides, what the
/// configuration tracks.
pub open spec fn overridden(configured: Seq<String>, instead: Option<Vec<String>>, besides: Option<
    Vec<String>,
>) -> Seq<String> {
    match instead {
        Some(v) => v@,
        None => match besides {
            Some(more) => configured + more@,
            None => configured,
        },
    }
}

fn override_list(configured: &Vec<String>, instead: &Option<Vec<String>>, besides: &Option<
    Vec<String>,
>) -> (out: Vec<String>)
    ensures
        out@ == overridden(configured@, *instead, *besides),
{
    match instead {
        Some(v) => clone_texts(v),
        None => {
            let mut out = clone_texts(configured);
            match besides {
                Some(more) => {
                    let mut i: usize = 0;
                    while i < more.len()
                        invariant
                            i <= more.len(),
                            out@ == configured@ + more@.subrange(0, i as int),
                        decreases more.len() - i,
                    {
                        out.push(more[i].clone());
                        i = i + 1;
                        assert(out@ =~= configured@ + more@.subrange(0, i as int));
                    }
                    assert(more@.subrange(0, more.len() as int) =~= more@);
                },
                None => {},
            }
            out
        },
    }
}

/// Why a save cannot go on with the policy that the command and the
/// configuration make together.
#[derive(Debug, Clone, Copy, PartialEq, Eq, Structural)]
pub enum PolicyError {
    /// Neither a directory nor a file pattern is tracked.
    Empty,
}

impl PolicyError {
    /// What went wrong, in words.
    pub fn message(&self) -> (out: String)
        ensures
            out@ == NOTHING_TRACKED@,
    {
        NOTHING_TRACKED.to_string()
    }
}

/// What is said of a policy that tracks nothing.
pub const NOTHING_TRACKED: &'static str =
    "Configuration error: both 'directories' and 'files' lists are empty.\nYou must specify at least one directory or file pattern to snapshot.";

/// The policy that a save works with: the configuration, with the level,
/// the directories and the file patterns that the command names put in, or
/// added. A policy that tracks nothing is refused.
pub fn effective_config(config: &Config, request: &SaveRequest) -> (out: Result<Config, PolicyError>)
    ensures
        match out {
            Ok(c) => {
                &&& c.directories@ == overridden(
                    config.directories@,
                    request.directories,
                    request.add_directories,
                )
                &&& c.files@ == overridden(config.files@, request.files, request.add_files)
                &&& c.compression_level == match request.compression_level {
                    Some(level) => level,
                    None => config.compression_level,
                }
                &&& c.ignore@ == config.ignore@
                &&& c.progress == config.progress
                &&& match config.database {
                    Some(db) => c.database matches Some(d) && d.same_as(&db),
                    None => c.database is None,
                }
                &&& c.directories@.len() + c.files@.len() > 0
            },
            Err(_) => overridden(config.directories@, request.directories, request.add_directories).len()
                == 0 && overridden(config.files@, request.files, request.add_files).len() == 0,
        },
{
    let directories = override_list(
        &config.directories,
        &request.directories,
        &request.add_directories,
    );
    let files = override_list(&config.files, &request.files, &request.add_files);
    if directories.len() == 0 && files.len() == 0 {
        return Err(PolicyError::Empty);
    }
    let compression_level: u32 = match request.compression_level {
        Some(level) => level,
        None => config.compression_level,
    };
    let database = match &config.database {
        Some(db) => Some(db.duplicate()),
        None => None,
    };
    Ok(
        Config {
            directories,
            files,
            ignore: clone_texts(&config.ignore),
            compression_level,
            progress: config.progress,
            database,
        },
    )
}

/// The hashes of the entries, in order.
pub open spec fn hashes_of(entries: Seq<FileEntry>) -> Seq<Seq<char>> {
    Seq::new(entries.len(), |i: int| entries[i].hash@)
}

/// The hashes of the files of the manifests, in order.
pub open spec fn all_hashes(manifests: Seq<Manifest>) -> Seq<Seq<char>>
    decreases manifests.len(),
{
    if manifests.len() == 0 {
        Seq::empty()
    } else {
        all_hashes(manifests.drop_last()) + hashes_of(manifests.last().files.values@)
    }
}

/// The hash of every file of every manifest is among `all_hashes`.
pub proof fn all_hashes_holds(manifests: Seq<Manifest>, m: int, k: int)
    requires
        0 <= m < manifests.len(),
        0 <= k < manifests[m].files.values@.len(),
    ensures
        all_hashes(manifests).contains(manifests[m].files.values@[k].hash@),
    decreases manifests.len(),
{
    let before = all_hashes(manifests.drop_last());
    let here = hashes_of(manifests.last().files.values@);
    if m == manifests.len() - 1 {
        assert(here[k] == manifests[m].files.values@[k].hash@);
        assert((before + here)[before.len() + k] == here[k]);
    } else {
        all_hashes_holds(manifests.drop_last(), m, k);
        let h = manifests[m].files.values@[k].hash@;
        let i = choose|i: int| 0 <= i < before.len() && before[i] == h;
        assert((before + here)[i] == h);
    }
}

/// The live set of a collection: the hash of every file of every manifest
/// that is left, each once.
pub fn referenced_hashes(manifests: &Vec<Manifest>) -> (out: Vec<String>)
    ensures
        texts(out@) == distinct(all_hashes(manifests@)),
        forall|x: Seq<char>| texts(out@).contains(x) <==> all_hashes(manifests@).contains(x),
{
    let mut seen: Table<()> = Table::new();
    assert(seen.key_texts() =~= distinct(Seq::empty()));
    let mut m: usize = 0;
    while m < manifests.len()
        invariant
            seen.wf(),
            m <= manifests.len(),
            seen.key_texts() == distinct(all_hashes(manifests@.subrange(0, m as int))),
        decreases manifests.len() - m,
    {
        assert(manifests@.subrange(0, m + 1).drop_last() =~= manifests@.subrange(0, m as int));
        assert(manifests@.subrange(0, m + 1).last() == manifests@[m as int]);
        let ghost base = all_hashes(manifests@.subrange(0, m as int));
        let ghost here = hashes_of(manifests@[m as int].files.values@);
        assert(base + here.subrange(0, 0) =~= base);
        let files = &manifests[m].files;
        let mut k: usize = 0;
        while k < files.values.len()
            invariant
                seen.wf(),
                k <= files.values.len(),
                here == hashes_of(files.values@),
                seen.key_texts() == distinct(base + here.subrange(0, k as int)),
            decreases files.values.len() - k,
        {
            let ghost sofar = base + here.subrange(0, k as int);
            push_new(&mut seen, &files.values[k].hash, Ghost(sofar));
            assert(sofar.push(files.values@[k as int].hash@) =~= base + here.subrange(0, k + 1));
            k = k + 1;
        }
        assert(here.subrange(0, files.values.len() as int) =~= here);
        m = m + 1;
    }
    assert(manifests@.subrange(0, manifests.len() as int) =~= manifests@);
    proof {
        distinct_holds_each_once(all_hashes(manifests@));
    }
    seen.keys
}

/// A collection spares the snapshots that are left: no blob is removed
/// whose hash a file of one of the manifests bears.
pub proof fn law_collection_spares_the_snapshots(
    manifests: Seq<Manifest>,
    blobs: Seq<BlobFile>,
    m: int,
    k: int,
    i: int,
)
    requires
        0 <= m < manifests.len(),
        0 <= k < manifests[m].files.values@.len(),
        0 <= i < blobs.len(),
        blobs[i].hash() == manifests[m].files.values@[k].hash@,
    ensures
        !garbage(blobs, distinct(all_hashes(manifests))).contains(i),
{
    all_hashes_holds(manifests, m, k);
    distinct_holds_each_once(all_hashes(manifests));
    law_gc_keeps_the_live(blobs, distinct(all_hashes(manifests)), i);
}

/// The names of the dumps that belong to the manifests, in order.
pub open spec fn all_dumps(manifests: Seq<Manifest>) -> Seq<Seq<char>>
    decreases manifests.len(),
{
    if manifests.len() == 0 {
        Seq::empty()
    } else {
        let before = all_dumps(manifests.drop_last());
        match manifests.last().db_dump_filename {
            Some(name) => before.push(name@),
            None => before,
        }
    }
}

/// The dumps that are still in use: the one of every manifest that has
/// one, each once.
pub fn referenced_dumps(manifests: &Vec<Manifest>) -> (out: Vec<String>)
    ensures
        texts(out@) == distinct(all_dumps(manifests@)),
{
    let mut seen: Table<()> = Table::new();
    assert(seen.key_texts() =~= distinct(Seq::empty()));
    let mut m: usize = 0;
    while m < manifests.len()
        invariant
            seen.wf(),
            m <= manifests.len(),
            seen.key_texts() == distinct(all_dumps(manifests@.subrange(0, m as int))),
        decreases manifests.len() - m,
    {
        assert(manifests@.subrange(0, m + 1).drop_last() =~= manifests@.subrange(0, m as int));
        assert(manifests@.subrange(0, m + 1).last() == manifests@[m as int]);
        match &manifests[m].db_dump_filename {
            Some(name) => {
                push_new(&mut seen, name, Ghost(all_dumps(manifests@.subrange(0, m as int))));
            },
            None => {},
        }
        m = m + 1;
    }
    assert(manifests@.subrange(0, manifests.len() as int) =~= manifests@);
    seen.keys
}

/// A file of the dumps' directory is removed by a prune when its name ends
/// in `.sql` and no manifest names it.
pub open spec fn dump_is_garbage(name: Seq<char>, referenced: Seq<Seq<char>>) -> bool {
    ".sql"@.is_suffix_of(name) && !referenced.contains(name)
}

/// The names of the dumps that a prune removes, in order.
pub open spec fn garbage_dumps(names: Seq<Seq<char>>, referenced: Seq<Seq<char>>) -> Seq<Seq<char>>
    decreases names.len(),
{
    if names.len() == 0 {
        Seq::empty()
    } else {
        let before = garbage_dumps(names.drop_last(), referenced);
        if dump_is_garbage(names.last(), referenced) {
            before.push(names.last())
        } else {
            before
        }
    }
}

/// The dumps that a prune removes, of the files of the dumps' directory.
pub fn unreferenced_dumps(names: &Vec<String>, referenced: &Vec<String>) -> (out: Vec<String>)
    ensures
        texts(out@) == garbage_dumps(texts(names@), texts(referenced@)),
{
    let suffix = chars_of(".sql");
    let mut out: Vec<String> = Vec::new();
    assert(texts(out@) =~= Seq::<Seq<char>>::empty());
    let mut i: usize = 0;
    while i < names.len()
        invariant
            i <= names.len(),
            suffix@ == ".sql"@,
            texts(out@) == garbage_dumps(texts(names@).subrange(0, i as int), texts(referenced@)),
        decreases names.len() - i,
    {
        assert(texts(names@).subrange(0, i + 1).drop_last() =~= texts(names@).subrange(0, i as int));
        assert(texts(names@).subrange(0, i + 1).last() == names@[i as int]@);
        let name = chars_of(names[i].as_str());
        if has_suffix(&name, &suffix) && !contains_text(referenced, names[i].as_str()) {
            let ghost prev = texts(out@);
            out.push(names[i].clone());
            assert(texts(out@) =~= prev.push(names@[i as int]@));
        }
        i = i + 1;
    }
    assert(texts(names@).subrange(0, names.len() as int) =~= texts(names@));
    out
}

/// An answer says yes when, without the white space around it and in
/// lowercase, it is `y` or `yes`.
pub open spec fn says_yes(answer: Seq<char>) -> bool {
    lowercase(trimmed(answer)) == "y"@ || lowercase(trimmed(answer)) == "yes"@
}

/// Whether an answer to a question says yes.
pub fn is_affirmative(answer: &str) -> (out: bool)
    ensures
        out == says_yes(answer@),
{
    let short = trim(answer);
    let low = to_lowercase(short.as_str());
    *low.as_str() == *"y" || *low.as_str() == *"yes"
}

/// The sizes of the manifests, as keys of an order.
pub open spec fn size_keys(manifests: Seq<Manifest>) -> Seq<u128> {
    Seq::new(manifests.len(), |i: int| manifests[i].total_size as u128)
}

/// The numbers of files of the manifests, as keys of an order.
pub open spec fn count_keys(manifests: Seq<Manifest>) -> Seq<u128> {
    Seq::new(manifests.len(), |i: int| manifests[i].file_count as u128)
}

/// The order of a listing by size: the places of the manifests, the
/// largest first.
pub fn largest_first(manifests: &Vec<Manifest>) -> (out: Vec<usize>)
    ensures
        is_descending(size_keys(manifests@), out@),
{
    let mut keys: Vec<u128> = Vec::new();
    let mut i: usize = 0;
    while i < manifests.len()
        invariant
            i <= manifests.len(),
            keys@ == size_keys(manifests@.subrange(0, i as int)),
        decreases manifests.len() - i,
    {
        keys.push(manifests[i].total_size as u128);
        i = i + 1;
        assert(keys@ =~= size_keys(manifests@.subrange(0, i as int)));
    }
    assert(manifests@.subrange(0, manifests.len() as int) =~= manifests@);
    descending(&keys)
}

/// The order of a listing by the number of files: the places of the
/// manifests, the one with the most files first.
pub fn most_files_first(manifests: &Vec<Manifest>) -> (out: Vec<usize>)
    ensures
        is_descending(count_keys(manifests@), out@),
{
    let mut keys: Vec<u128> = Vec::new();
    let mut i: usize = 0;
    while i < manifests.len()
        invariant
            i <= manifests.len(),
            keys@ == count_keys(manifests@.subrange(0, i as int)),
        decreases manifests.len() - i,
    {
        keys.push(manifests[i].file_count as u128);
        i = i + 1;
        assert(keys@ =~= count_keys(manifests@.subrange(0, i as int)));
    }
    assert(manifests@.subrange(0, manifests.len() as int) =~= manifests@);
    descending(&keys)
}

/// The one kind of database that can be dumped.
pub const SUPPORTED_DATABASE: &'static str = "mysql";

/// Whether a database of this kind can be dumped and loaded.
pub fn is_supported_database(db_type: &str) -> (out: bool)
    ensures
        out == (db_type@ == SUPPORTED_DATABASE@),
{
    *db_type == *SUPPORTED_DATABASE
}

/// The arguments that say how to reach the database: user, host and port,
/// and the password where there is one.
pub open spec fn connection_arguments(db: &DatabaseConfig) -> Seq<Seq<char>> {
    seq![
        flag_with("--user"@, db.user@),
        flag_with("--host"@, db.host@),
        flag_with("--port"@, decimal(db.port as nat)),
    ]
}

/// The password as an argument, where there is one.
pub open spec fn password_argument(db: &DatabaseConfig) -> Seq<Seq<char>> {
    if db.password@.len() > 0 {
        seq![flag_with("--password"@, db.password@)]
    } else {
        Seq::empty()
    }
}

/// The arguments of the program that dumps a database.
pub open spec fn dump_arguments_of(db: &DatabaseConfig, database: Seq<char>) -> Seq<Seq<char>> {
    connection_arguments(db) + seq![
        "--databases"@,
        database,
        "--routines"@,
        "--triggers"@,
        "--events"@,
    ] + password_argument(db) + if db.single_transaction {
        seq!["--single-transaction"@]
    } else {
        Seq::empty()
    }
}

/// The arguments of the program that loads a dump.
pub open spec fn load_arguments_of(db: &DatabaseConfig) -> Seq<Seq<char>> {
    connection_arguments(db) + password_argument(db)
}

fn push_connection(out: &mut Vec<String>, db: &DatabaseConfig)
    ensures
        texts(final(out)@) == texts(old(out)@) + connection_arguments(db),
{
    let user = chars_of(db.user.as_str());
    out.push(make_flag("--user", &user));
    let host = chars_of(db.host.as_str());
    out.push(make_flag("--host", &host));
    let mut port: Vec<char> = Vec::new();
    push_decimal(&mut port, db.port as u64);
    assert(port@ =~= decimal(db.port as nat));
    out.push(make_flag("--port", &port));
    assert(texts(out@) =~= texts(old(out)@) + connection_arguments(db));
}

fn push_password(out: &mut Vec<String>, db: &DatabaseConfig)
    ensures
        texts(final(out)@) == texts(old(out)@) + password_argument(db),
{
    if !db.password.as_str().is_empty() {
        let password = chars_of(db.password.as_str());
        out.push(make_flag("--password", &password));
    }
    assert(texts(out@) =~= texts(old(out)@) + password_argument(db));
}

/// The arguments for the program that dumps the database.
pub fn dump_arguments(db: &DatabaseConfig, database: &str) -> (out: Vec<String>)
    ensures
        texts(out@) == dump_arguments_of(db, database@),
{
    let mut out: Vec<String> = Vec::new();
    assert(texts(out@) =~= Seq::<Seq<char>>::empty());
    push_connection(&mut out, db);
    let ghost s1 = texts(out@);
    out.push("--databases".to_string());
    out.push(database.to_string());
    out.push("--routines".to_string());
    out.push("--triggers".to_string());
    out.push("--events".to_string());
    assert(texts(out@) =~= s1 + seq![
        "--databases"@,
        database@,
        "--routines"@,
        "--triggers"@,
        "--events"@,
    ]);
    push_password(&mut out, db);
    let ghost s2 = texts(out@);
    if db.single_transaction {
        out.push("--single-transaction".to_string());
        assert(texts(out@) =~= s2 + seq!["--single-transaction"@]);
    } else {
        assert(texts(out@) =~= s2 + Seq::<Seq<char>>::empty());
    }
    out
}

/// The arguments for the program that loads a dump.
pub fn load_arguments(db: &DatabaseConfig) -> (out: Vec<String>)
    ensures
        texts(out@) == load_arguments_of(db),
{
    let mut out: Vec<String> = Vec::new();
    assert(texts(out@) =~= Seq::<Seq<char>>::empty());
    push_connection(&mut out, db);
    push_password(&mut out, db);
    out
}

} // verus!
