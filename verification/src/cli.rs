//! What the command line asks for, as plain values.

use vstd::prelude::*;

verus! {

/// What is to be done.
#[derive(Clone, Copy, Debug, PartialEq, Eq, Structural)]
pub enum SubCommand {
    /// Add all certification challenges to the user record.
    ClaimCerts,
    /// Add selected challenges to the user record.
    AddChallenges,
    /// Add all challenges to the user record.
    FinishFreeCodeCamp,
    /// Add `count` random user records to the database.
    AddUsers { count: u32 },
}

/// The arguments of one run.
#[derive(Debug)]
pub struct Args {
    /// The connection string of the database.
    pub uri: String,
    /// The name of the user in the database.
    pub username: String,
    /// The path of the curriculum file.
    pub curriculum_path: String,
    pub sub_commands: SubCommand,
}

impl SubCommand {
    /// The number of user records that the command asks to generate: `count`
    /// for `AddUsers`, none for the other commands.
    pub fn users_to_add(&self) -> (count: u32)
        ensures
            count == (match *self {
                SubCommand::AddUsers { count } => count,
                _ => 0u32,
            }),
    {
        match self {
            SubCommand::AddUsers { count } => *count,
            _ => 0,
        }
    }
}

impl Args {
    /// The arguments of a run of `sub_commands` in which nothing else was
    /// given: the local database, the development user, and the curriculum
    /// file at its place below the working directory.
    pub fn with_defaults(sub_commands: SubCommand) -> (args: Args)
        ensures
            args.uri@ == "mongodb://127.0.0.1:27017/freecodecamp?directConnection=true"@,
            args.username@ == "developmentuser"@,
            args.curriculum_path@ == "shared/config/curriculum.json"@,
            args.sub_commands == sub_commands,
    {
        Args {
            uri: "mongodb://127.0.0.1:27017/freecodecamp?directConnection=true".to_owned(),
            username: "developmentuser".to_owned(),
            curriculum_path: "shared/config/curriculum.json".to_owned(),
            sub_commands,
        }
    }
}

} // verus!
