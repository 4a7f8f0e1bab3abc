//! The commands that the client sends to the daemon, and their arguments as
//! the command line gives them.

use vstd::prelude::*;

verus! {

/// `init`: prepare the configuration, optionally from scratch.
pub struct InitArgs {
    pub verbose: bool,
    pub reset: bool,
}

/// `use`: switch the active collection.
pub struct UseArgs {
    pub verbose: bool,
    pub name: String,
}

/// `new`: create a collection.
pub struct NewArgs {
    pub verbose: bool,
    pub name: String,
}

/// `delete`: delete a collection.
pub struct DeleteArgs {
    pub verbose: bool,
    pub name: String,
}

/// `rename`: rename a collection.
pub struct RenameArgs {
    pub verbose: bool,
    pub name: String,
    pub new_name: String,
}

/// `put`: set a key in the active collection.
pub struct PutArgs {
    pub verbose: bool,
    pub key: String,
    pub value: String,
}

/// `get`: read a key of the active collection.
pub struct GetArgs {
    pub verbose: bool,
    pub key: String,
}

/// `del`: remove a key from the active collection.
pub struct DelArgs {
    pub verbose: bool,
    pub key: String,
}

/// `clear`: remove every key of the active collection.
pub struct ClearArgs {
    pub verbose: bool,
}

/// A command as the command line gives it.
pub enum Commands {
    Init(InitArgs),
    List,
    Use(UseArgs),
    New(NewArgs),
    Delete(DeleteArgs),
    Rename(RenameArgs),
    Status,
    Put(PutArgs),
    Get(GetArgs),
    Del(DelArgs),
    Clear(ClearArgs),
}

/// A command as the daemon receives it.
pub enum AegisrCommand {
    Init { verbose: bool, reset: bool },
    List,
    Use { verbose: bool, name: String },
    New { verbose: bool, name: String },
    Delete { verbose: bool, name: String },
    Rename { verbose: bool, name: String, new_name: String },
    Status,
    Put { verbose: bool, key: String, value: String },
    Get { verbose: bool, key: String },
    Del { verbose: bool, key: String },
    Clear { verbose: bool },
}

/// Whether `c` is the daemon's form of the command-line command `cli`.
pub open spec fn sent_as(cli: Commands, c: AegisrCommand) -> bool {
    match cli {
        Commands::Init(a) => c == AegisrCommand::Init { verbose: a.verbose, reset: a.reset },
        Commands::List => c is List,
        Commands::Use(a) => c matches AegisrCommand::Use { verbose, name } && verbose == a.verbose
            && name@ == a.name@,
        Commands::New(a) => c matches AegisrCommand::New { verbose, name } && verbose == a.verbose
            && name@ == a.name@,
        Commands::Delete(a) => c matches AegisrCommand::Delete { verbose, name } && verbose
            == a.verbose && name@ == a.name@,
        Commands::Rename(a) => c matches AegisrCommand::Rename { verbose, name, new_name } && verbose
            == a.verbose && name@ == a.name@ && new_name@ == a.new_name@,
        Commands::Status => c is Status,
        Commands::Put(a) => c matches AegisrCommand::Put { verbose, key, value } && verbose
            == a.verbose && key@ == a.key@ && value@ == a.value@,
        Commands::Get(a) => c matches AegisrCommand::Get { verbose, key } && verbose == a.verbose
            && key@ == a.key@,
        Commands::Del(a) => c matches AegisrCommand::Del { verbose, key } && verbose == a.verbose
            && key@ == a.key@,
        Commands::Clear(a) => c == AegisrCommand::Clear { verbose: a.verbose },
    }
}

impl AegisrCommand {
    /// The command to send to the daemon for a command-line command.
    pub fn from_cli(cli: &Commands) -> (r: AegisrCommand)
        ensures
            sent_as(*cli, r),
    {
        match cli {
            Commands::Init(a) => AegisrCommand::Init { verbose: a.verbose, reset: a.reset },
            Commands::List => AegisrCommand::List,
            Commands::Use(a) => AegisrCommand::Use { verbose: a.verbose, name: a.name.clone() },
            Commands::New(a) => AegisrCommand::New { verbose: a.verbose, name: a.name.clone() },
            Commands::Delete(a) => AegisrCommand::Delete { verbose: a.verbose, name: a.name.clone() },
            Commands::Rename(a) => AegisrCommand::Rename {
                verbose: a.verbose,
                name: a.name.clone(),
                new_name: a.new_name.clone(),
            },
            Commands::Status => AegisrCommand::Status,
            Commands::Put(a) => AegisrCommand::Put {
                verbose: a.verbose,
                key: a.key.clone(),
                value: a.value.clone(),
            },
            Commands::Get(a) => AegisrCommand::Get { verbose: a.verbose, key: a.key.clone() },
            Commands::Del(a) => AegisrCommand::Del { verbose: a.verbose, key: a.key.clone() },
            Commands::Clear(a) => AegisrCommand::Clear { verbose: a.verbose },
        }
    }
}

/// The client: the command it was given.
pub struct AegTerminal {
    pub command: Commands,
}

/// Where the daemon logs, and from which level.
pub struct LoggerConfig {
    pub log_to_file: bool,
    pub level: String,
}

impl Default for LoggerConfig {
    /// Logs to a file too, from level `info`.
    fn default() -> (r: LoggerConfig)
        ensures
            r.log_to_file,
            r.level@ == "info"@,
    {
        LoggerConfig { log_to_file: true, level: "info".to_owned() }
    }
}

} // verus!
