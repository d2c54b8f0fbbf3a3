//! The resolved invocation: which database is spoken to, where it lives,
//! and which command runs.  `Flags::parse` reads the command line the way
//! the tool's surface defines it: flag pairs that override the connection
//! string, then one of `new <name>`, `up [<n>]`, `down <n>`.

use crate::errors::MigError;
use crate::serial::{int_str_val, is_int_str, parse_i32};
use vstd::prelude::*;
use vstd::string::StringExecFns;

verus! {

/// The database kinds the engine supports.
#[derive(Clone, Copy, Debug, PartialEq, Eq, Structural)]
pub enum DatabaseType {
    Postgres,
    MySql,
}

impl Default for DatabaseType {
    /// Postgres is assumed where nothing else is configured.
    fn default() -> (r: Self)
        ensures
            r == DatabaseType::Postgres,
    {
        DatabaseType::Postgres
    }
}

/// The connection configuration: which kind of database, and where.
#[derive(Debug)]
pub struct Config {
    pub database: DatabaseType,
    pub database_url: String,
}

/// The mathematical content of a `Config`.
pub ghost struct ConfigView {
    pub database: DatabaseType,
    pub database_url: Seq<char>,
}

impl View for Config {
    type V = ConfigView;

    open spec fn view(&self) -> ConfigView {
        ConfigView { database: self.database, database_url: self.database_url@ }
    }
}

impl Config {
    /// A configuration from its two parts.
    pub fn new(database: DatabaseType, database_url: String) -> (r: Config)
        ensures
            r@ == (ConfigView { database, database_url: database_url@ }),
    {
        Config { database, database_url }
    }
}

impl Default for Config {
    /// Postgres, with no connection string yet.
    fn default() -> (r: Self)
        ensures
            r@ == (ConfigView { database: DatabaseType::Postgres, database_url: Seq::empty() }),
    {
        Config { database: DatabaseType::Postgres, database_url: String::new() }
    }
}

/// The one command an invocation acts on.  `Up(true, -1)` stands for an
/// unbounded `up`; a bounded one carries `false` and its count.
#[derive(Debug, Clone)]
pub enum Command {
    Up(bool, i32),
    Down(i32),
    New(String),
}

/// The mathematical content of a `Command`.
pub ghost enum CommandView {
    Up(bool, i32),
    Down(i32),
    New(Seq<char>),
}

impl View for Command {
    type V = CommandView;

    open spec fn view(&self) -> CommandView {
        match self {
            Command::Up(all, n) => CommandView::Up(*all, *n),
            Command::Down(n) => CommandView::Down(*n),
            Command::New(name) => CommandView::New(name@),
        }
    }
}

impl Default for Command {
    /// A `new` of the empty name; `parse` always overwrites it.
    fn default() -> (r: Self)
        ensures
            r@ == CommandView::New(Seq::<char>::empty()),
    {
        Command::New(String::new())
    }
}

/// Everything one invocation needs: the configuration and the command.
#[derive(Debug)]
pub struct Flags {
    pub config: Config,
    pub cmd: Command,
}

/// The mathematical content of `Flags`.
pub ghost struct FlagsView {
    pub config: ConfigView,
    pub cmd: CommandView,
}

impl View for Flags {
    type V = FlagsView;

    open spec fn view(&self) -> FlagsView {
        FlagsView { config: self.config@, cmd: self.cmd@ }
    }
}

/// What `Flags` are before any argument is read.
pub open spec fn spec_initial_flags() -> FlagsView {
    FlagsView {
        config: ConfigView { database: DatabaseType::Postgres, database_url: Seq::empty() },
        cmd: CommandView::New(Seq::<char>::empty()),
    }
}

impl Default for Flags {
    fn default() -> (r: Self)
        ensures
            r@ == spec_initial_flags(),
    {
        Flags { config: Config::default(), cmd: Command::default() }
    }
}

/// What parsing the arguments from position `i` onward, with `f` gathered
/// so far, yields.  Each connection flag consumes the value after it; a
/// command with its argument ends the walk at once; an unbounded `up`
/// keeps walking.
pub open spec fn spec_parse(args: Seq<Seq<char>>, i: int, f: FlagsView) -> Result<
    FlagsView,
    MigError,
>
    decreases args.len() - i,
{
    if i >= args.len() {
        Ok(f)
    } else {
        let a = args[i];
        if a == "-u"@ || a == "--db-url"@ || a == "-d"@ || a == "--db"@ {
            if i + 1 < args.len() {
                let g = FlagsView {
                    config: ConfigView { database: f.config.database, database_url: args[i + 1] },
                    cmd: f.cmd,
                };
                spec_parse(args, i + 2, g)
            } else {
                spec_parse(args, i + 1, f)
            }
        } else if a == "new"@ {
            if i + 1 < args.len() {
                Ok(FlagsView { config: f.config, cmd: CommandView::New(args[i + 1]) })
            } else {
                Err(MigError::MissingMigrationName)
            }
        } else if a == "up"@ {
            if i + 1 < args.len() {
                if is_int_str(args[i + 1]) && -0x8000_0000 <= int_str_val(args[i + 1])
                    < 0x8000_0000 {
                    Ok(FlagsView {
                        config: f.config,
                        cmd: CommandView::Up(false, int_str_val(args[i + 1]) as i32),
                    })
                } else {
                    Err(MigError::InvalidUpCount)
                }
            } else {
                let g = FlagsView { config: f.config, cmd: CommandView::Up(true, -1 as i32) };
                spec_parse(args, i + 1, g)
            }
        } else if a == "down"@ {
            if i + 1 < args.len() {
                if is_int_str(args[i + 1]) && -0x8000_0000 <= int_str_val(args[i + 1])
                    < 0x8000_0000 {
                    Ok(FlagsView {
                        config: f.config,
                        cmd: CommandView::Down(int_str_val(args[i + 1]) as i32),
                    })
                } else {
                    Err(MigError::InvalidDownCount)
                }
            } else {
                Err(MigError::InvalidDownCount)
            }
        } else {
            Err(MigError::UnknownCommand)
        }
    }
}

/// Whether `a` spells the word `w`.
fn is_word(a: &String, w: &str) -> (r: bool)
    ensures
        r == (a@ == w@),
{
    a.eq(&w.to_owned())
}

impl Flags {
    /// Reads an argument vector, `args[0]` being the program's own name.
    /// The result is exactly what `spec_parse` says of it.
    pub fn parse(args: Vec<String>) -> (r: Result<Flags, MigError>)
        ensures
            match (r, spec_parse(args.deep_view(), 1, spec_initial_flags())) {
                (Ok(f), Ok(sf)) => f@ == sf,
                (Err(e), Err(se)) => e == se,
                _ => false,
            },
    {
        let ghost view_args = args.deep_view();
        let mut f = Flags::default();
        let mut i: usize = 1;
        while i < args.len()
            invariant
                1 <= i,
                view_args == args.deep_view(),
                spec_parse(view_args, 1, spec_initial_flags()) == spec_parse(
                    view_args,
                    i as int,
                    f@,
                ),
            decreases args.len() - i,
        {
            proof {
                assert(view_args[i as int] == args@[i as int]@);
                if i + 1 < args.len() {
                    assert(view_args[i + 1] == args@[i + 1]@);
                }
            }
            let a = &args[i];
            if is_word(a, "-u") || is_word(a, "--db-url") || is_word(a, "-d") || is_word(
                a,
                "--db",
            ) {
                if i + 1 < args.len() {
                    f.config.database_url = args[i + 1].clone();
                    i = i + 1;
                }
            } else if is_word(a, "new") {
                if i + 1 < args.len() {
                    let mig_name = args[i + 1].clone();
                    f.cmd = Command::New(mig_name);
                    return Ok(f);
                } else {
                    return Err(MigError::MissingMigrationName);
                }
            } else if is_word(a, "up") {
                if i + 1 < args.len() {
                    match parse_i32(&args[i + 1]) {
                        Some(n) => {
                            f.cmd = Command::Up(false, n);
                            return Ok(f);
                        },
                        None => {
                            return Err(MigError::InvalidUpCount);
                        },
                    }
                } else {
                    f.cmd = Command::Up(true, -1);
                }
            } else if is_word(a, "down") {
                if i + 1 < args.len() {
                    match parse_i32(&args[i + 1]) {
                        Some(n) => {
                            f.cmd = Command::Down(n);
                            return Ok(f);
                        },
                        None => {
                            return Err(MigError::InvalidDownCount);
                        },
                    }
                } else {
                    return Err(MigError::InvalidDownCount);
                }
            } else {
                return Err(MigError::UnknownCommand);
            }
            i = i + 1;
        }
        Ok(f)
    }
}

} // verus!
