//! The selection policy of a repository: what a snapshot tracks, what it
//! passes over, and how hard it compresses.

use vstd::prelude::*;
use crate::ignore::{ignored, should_ignore};
use crate::text::{all_white, chars_of, contains_sub, decimal, has_sub, is_blank, push_decimal,
    push_str, sub_of_itself, sub_stays, text_of, texts};

verus! {

/// Highest compression level that a build uses.
pub const MAX_COMPRESSION_LEVEL: u32 = 10;

/// Highest compression level that is not called slow.
pub const RECOMMENDED_COMPRESSION_LEVEL: u32 = 6;

/// How to reach the database whose dump may go with a snapshot.
#[derive(Debug, Clone)]
pub struct DatabaseConfig {
    /// Kind of database; only "mysql" is known.
    pub db_type: String,
    pub user: String,
    pub password: String,
    pub host: String,
    pub port: u16,
    /// The database to dump where the command names none.
    pub name: String,
    /// The tables to dump; "*" stands for all.
    pub tables: Vec<String>,
    /// Whether the dump is taken in one transaction.
    pub single_transaction: bool,
}

impl Default for DatabaseConfig {
    fn default() -> (out: Self)
        ensures
            out.db_type@ == "mysql"@,
            out.user@ == "root"@,
            out.password@ == Seq::<char>::empty(),
            out.host@ == "localhost"@,
            out.port == 3306,
            out.name@ == "mydb"@,
            texts(out.tables@) == seq!["*"@],
            out.single_transaction,
    {
        let mut tables: Vec<String> = Vec::new();
        tables.push("*".to_string());
        assert(texts(tables@) =~= seq!["*"@]);
        DatabaseConfig {
            db_type: "mysql".to_string(),
            user: "root".to_string(),
            password: String::new(),
            host: "localhost".to_string(),
            port: 3306,
            name: "mydb".to_string(),
            tables,
            single_transaction: true,
        }
    }
}

impl DatabaseConfig {
    /// The two say the same of the database.
    pub open spec fn same_as(&self, other: &DatabaseConfig) -> bool {
        &&& self.db_type@ == other.db_type@
        &&& self.user@ == other.user@
        &&& self.password@ == other.password@
        &&& self.host@ == other.host@
        &&& self.port == other.port
        &&& self.name@ == other.name@
        &&& self.tables@ == other.tables@
        &&& self.single_transaction == other.single_transaction
    }

    /// A copy that says the same.
    pub fn duplicate(&self) -> (out: Self)
        ensures
            out.same_as(self),
    {
        DatabaseConfig {
            db_type: self.db_type.clone(),
            user: self.user.clone(),
            password: self.password.clone(),
            host: self.host.clone(),
            port: self.port,
            name: self.name.clone(),
            tables: crate::text::clone_texts(&self.tables),
            single_transaction: self.single_transaction,
        }
    }
}

/// The policy of a repository.
#[derive(Debug, Clone)]
pub struct Config {
    /// Names of directories to track, wherever in the tree they lie.
    pub directories: Vec<String>,
    /// Patterns of files to track.
    pub files: Vec<String>,
    /// Patterns of paths to pass over.
    pub ignore: Vec<String>,
    /// 0 stores contents as they are.
    pub compression_level: u32,
    /// Whether progress is shown; `None` leaves it to the terminal.
    pub progress: Option<bool>,
    pub database: Option<DatabaseConfig>,
}

impl Default for Config {
    fn default() -> (out: Self)
        ensures
            out.directories@.len() == 0,
            out.files@.len() == 0,
            out.ignore@.len() == 0,
            out.compression_level == 0,
            out.progress is None,
            out.database is None,
    {
        Config {
            directories: Vec::new(),
            files: Vec::new(),
            ignore: Vec::new(),
            compression_level: 0,
            progress: None,
            database: None,
        }
    }
}

/// Why a policy is refused.
#[derive(Debug, Clone)]
pub enum ConfigError {
    /// Neither a directory nor a file pattern is tracked.
    EmptyPolicy,
    /// A tracked directory's name is blank.
    EmptyPath,
    /// A tracked directory's name holds `..`.
    ParentReference(String),
}

/// A refusal, with the name that caused it as text.
pub enum Refusal {
    EmptyPolicy,
    EmptyPath,
    ParentReference(Seq<char>),
}

impl View for ConfigError {
    type V = Refusal;

    open spec fn view(&self) -> Refusal {
        match self {
            ConfigError::EmptyPolicy => Refusal::EmptyPolicy,
            ConfigError::EmptyPath => Refusal::EmptyPath,
            ConfigError::ParentReference(p) => Refusal::ParentReference(p@),
        }
    }
}

impl ConfigError {
    /// What went wrong, in words. A name that is at fault is named.
    pub fn message(&self) -> (out: String)
        ensures
            self matches ConfigError::ParentReference(path) ==> has_sub(out@, path@),
    {
        match self {
            ConfigError::EmptyPolicy => {
                "Configuration error: both 'directories' and 'files' lists are empty.\nYou must specify at least one directory or file pattern to snapshot.".to_string()
            },
            ConfigError::EmptyPath => {
                "Configuration error: empty path in 'directories' list".to_string()
            },
            ConfigError::ParentReference(path) => {
                let mut buf: Vec<char> = Vec::new();
                push_str(&mut buf, "Configuration error: path '");
                push_str(&mut buf, path.as_str());
                push_str(&mut buf, "' contains '..', which is not allowed");
                proof {
                    sub_of_itself(path@);
                    sub_stays(
                        "Configuration error: path '"@,
                        path@,
                        "' contains '..', which is not allowed"@,
                        path@,
                    );
                }
                text_of(&buf)
            },
        }
    }
}

/// The two dots that name a parent directory.
pub open spec fn dot_dot() -> Seq<char> {
    seq!['.', '.']
}

/// The first refusal among the names of tracked directories: a blank name,
/// or one that holds two dots in a row.
pub open spec fn first_refusal(directories: Seq<Seq<char>>) -> Option<Refusal>
    decreases directories.len(),
{
    if directories.len() == 0 {
        None
    } else if all_white(directories[0]) {
        Some(Refusal::EmptyPath)
    } else if has_sub(directories[0], dot_dot()) {
        Some(Refusal::ParentReference(directories[0]))
    } else {
        first_refusal(directories.drop_first())
    }
}

/// What validation says of a policy.
pub open spec fn validation(directories: Seq<Seq<char>>, files: Seq<Seq<char>>) -> Option<Refusal> {
    if directories.len() == 0 && files.len() == 0 {
        Some(Refusal::EmptyPolicy)
    } else {
        first_refusal(directories)
    }
}

/// Which warning a compression level deserves.
#[derive(Debug, Clone, Copy, PartialEq, Eq, Structural)]
pub enum LevelWarning {
    /// The level is fine.
    Fine,
    /// The level is above the highest that is used, which is used instead.
    Capped,
    /// The level may be very slow.
    Slow,
}

/// The level that a build uses for a configured level: at most the highest.
pub open spec fn spec_effective_level(level: u32) -> u32 {
    if level > MAX_COMPRESSION_LEVEL {
        MAX_COMPRESSION_LEVEL
    } else {
        level
    }
}

/// The warning that a configured level deserves.
pub open spec fn spec_level_warning(level: u32) -> LevelWarning {
    if level > MAX_COMPRESSION_LEVEL {
        LevelWarning::Capped
    } else if level > RECOMMENDED_COMPRESSION_LEVEL {
        LevelWarning::Slow
    } else {
        LevelWarning::Fine
    }
}

/// The text of the warning for a level, where it deserves one. The text
/// names the level.
pub fn level_warning_text(level: u32) -> (out: Option<String>)
    ensures
        out is Some <==> spec_level_warning(level) != LevelWarning::Fine,
        out matches Some(text) ==> has_sub(text@, decimal(level as nat)),
{
    if level <= RECOMMENDED_COMPRESSION_LEVEL {
        return None;
    }
    let mut buf: Vec<char> = Vec::new();
    push_str(&mut buf, "Warning: compression_level ");
    let ghost head = buf@;
    push_decimal(&mut buf, level as u64);
    let ghost named = buf@;
    if level > MAX_COMPRESSION_LEVEL {
        push_str(&mut buf, " exceeds maximum allowed (10). Will use level 10.");
    } else {
        push_str(&mut buf, " may be very slow. Recommended maximum is 6.");
    }
    proof {
        let number = decimal(level as nat);
        let tail = buf@.subrange(named.len() as int, buf@.len() as int);
        assert(buf@ =~= head + number + tail);
        sub_of_itself(number);
        sub_stays(head, number, tail, number);
    }
    Some(text_of(&buf))
}

impl Config {
    /// Checks the policy: something must be tracked, and no tracked
    /// directory may have a blank name or one with `..` in it. The first
    /// directory at fault decides.
    pub fn validate(&self) -> (out: Result<(), ConfigError>)
        ensures
            match out {
                Ok(_) => validation(texts(self.directories@), texts(self.files@)) is None,
                Err(e) => validation(texts(self.directories@), texts(self.files@)) == Some(e@),
            },
    {
        if self.directories.len() == 0 && self.files.len() == 0 {
            return Err(ConfigError::EmptyPolicy);
        }
        let ghost dirs = texts(self.directories@);
        let mut dots: Vec<char> = Vec::new();
        dots.push('.');
        dots.push('.');
        assert(dots@ =~= dot_dot());
        let mut i: usize = 0;
        assert(dirs.skip(0) =~= dirs);
        while i < self.directories.len()
            invariant
                i <= self.directories.len(),
                dirs == texts(self.directories@),
                dots@ == dot_dot(),
                first_refusal(dirs) == first_refusal(dirs.skip(i as int)),
            decreases self.directories.len() - i,
        {
            let ghost rest = dirs.skip(i as int);
            assert(rest[0] == self.directories@[i as int]@);
            assert(rest.drop_first() =~= dirs.skip(i + 1));
            let name = chars_of(self.directories[i].as_str());
            if is_blank(&name) {
                return Err(ConfigError::EmptyPath);
            }
            if contains_sub(&name, &dots) {
                return Err(ConfigError::ParentReference(self.directories[i].clone()));
            }
            i = i + 1;
        }
        assert(dirs.skip(self.directories.len() as int).len() == 0);
        Ok(())
    }

    /// Which warning the configured level deserves.
    pub fn validate_compression_level(&self) -> (out: LevelWarning)
        ensures
            out == spec_level_warning(self.compression_level),
    {
        if self.compression_level > MAX_COMPRESSION_LEVEL {
            LevelWarning::Capped
        } else if self.compression_level > RECOMMENDED_COMPRESSION_LEVEL {
            LevelWarning::Slow
        } else {
            LevelWarning::Fine
        }
    }

    /// The level that a build uses: the configured one, capped.
    pub fn effective_compression_level(&self) -> (out: u32)
        ensures
            out == spec_effective_level(self.compression_level),
            out <= MAX_COMPRESSION_LEVEL,
    {
        if self.compression_level > MAX_COMPRESSION_LEVEL {
            MAX_COMPRESSION_LEVEL
        } else {
            self.compression_level
        }
    }

    /// Whether the policy passes over the path.
    pub fn should_ignore(&self, relative_path: &str) -> (out: bool)
        ensures
            out == ignored(texts(self.ignore@), relative_path@),
    {
        should_ignore(&self.ignore, relative_path)
    }
}

} // verus!
