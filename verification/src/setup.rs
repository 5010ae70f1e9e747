//! What can go wrong while the application starts, and where the player log
//! is found.

use vstd::prelude::*;

verus! {

/// Why the application could not start.
#[derive(Debug, Clone, Copy, PartialEq, Eq, Structural)]
pub enum ArenaBuddySetupError {
    CorruptedAppData,
    LogSetupFailure,
    MatchesDatabaseInitializationFailure,
    NoCardsDatabase,
    NoHomeDir,
    NoMathchesDatabase,
    UnsupportedOS,
}

/// The steps of the start, in the order in which they are taken.
#[derive(Debug, Clone, Copy, PartialEq, Eq, Structural)]
pub enum SetupStep {
    /// Find the directory for the application's data.
    LocateAppData,
    /// Create that directory.
    CreateAppData,
    /// Create the directory for the application's own log.
    CreateLogDirectory,
    /// Open the application's own log.
    OpenLog,
    /// Find the card database among the resources.
    LocateCards,
    /// Load the card database.
    LoadCards,
    /// Open the database of matches.
    OpenMatches,
    /// Create the tables of the database of matches.
    InitializeMatches,
    /// Find the user's home directory.
    LocateHome,
    /// Find the player log under the home directory.
    LocatePlayerLog,
}

/// The message of a setup error.
pub open spec fn message_of(error: ArenaBuddySetupError) -> Seq<char> {
    match error {
        ArenaBuddySetupError::CorruptedAppData => "App data is corrupted"@,
        ArenaBuddySetupError::LogSetupFailure => "Could not setup logging"@,
        ArenaBuddySetupError::MatchesDatabaseInitializationFailure =>
            "Matches db initialization failure"@,
        ArenaBuddySetupError::NoCardsDatabase => "Cards database not found"@,
        ArenaBuddySetupError::NoHomeDir => "Home directory not found"@,
        ArenaBuddySetupError::NoMathchesDatabase => "Matches database not found"@,
        ArenaBuddySetupError::UnsupportedOS => "Unsupported operating system"@,
    }
}

/// The error that the failure of a step is reported as.
pub open spec fn failure_of(step: SetupStep) -> ArenaBuddySetupError {
    match step {
        SetupStep::LocateAppData | SetupStep::CreateAppData | SetupStep::CreateLogDirectory =>
            ArenaBuddySetupError::CorruptedAppData,
        SetupStep::OpenLog => ArenaBuddySetupError::LogSetupFailure,
        SetupStep::LocateCards | SetupStep::LoadCards => ArenaBuddySetupError::NoCardsDatabase,
        SetupStep::OpenMatches => ArenaBuddySetupError::NoMathchesDatabase,
        SetupStep::InitializeMatches => ArenaBuddySetupError::MatchesDatabaseInitializationFailure,
        SetupStep::LocateHome => ArenaBuddySetupError::NoHomeDir,
        SetupStep::LocatePlayerLog => ArenaBuddySetupError::UnsupportedOS,
    }
}

/// Where the game client writes its log, below the user's home directory,
/// on the operating systems on which the client runs.
pub open spec fn player_log_of(os: Seq<char>) -> Result<Seq<char>, ArenaBuddySetupError> {
    if os == "macos"@ {
        Ok("Library/Logs/Wizards of the Coast/MTGA/Player.log"@)
    } else if os == "windows"@ {
        Ok("AppData/LocalLow/Wizards of the Coast/MTGA/Player.log"@)
    } else {
        Err(ArenaBuddySetupError::UnsupportedOS)
    }
}

/// The text of a path that was found.
pub open spec fn located_text(found: Result<&'static str, ArenaBuddySetupError>) -> Result<
    Seq<char>,
    ArenaBuddySetupError,
> {
    match found {
        Ok(path) => Ok(path@),
        Err(e) => Err(e),
    }
}

impl ArenaBuddySetupError {
    /// The message shown for the error.
    pub fn message(&self) -> (text: String)
        ensures
            text@ == message_of(*self),
    {
        match self {
            ArenaBuddySetupError::CorruptedAppData => "App data is corrupted".to_string(),
            ArenaBuddySetupError::LogSetupFailure => "Could not setup logging".to_string(),
            ArenaBuddySetupError::MatchesDatabaseInitializationFailure => {
                "Matches db initialization failure".to_string()
            },
            ArenaBuddySetupError::NoCardsDatabase => "Cards database not found".to_string(),
            ArenaBuddySetupError::NoHomeDir => "Home directory not found".to_string(),
            ArenaBuddySetupError::NoMathchesDatabase => "Matches database not found".to_string(),
            ArenaBuddySetupError::UnsupportedOS => "Unsupported operating system".to_string(),
        }
    }
}

/// The error to report when `step` has failed.
pub fn setup_failure(step: SetupStep) -> (error: ArenaBuddySetupError)
    ensures
        error == failure_of(step),
{
    match step {
        SetupStep::LocateAppData => ArenaBuddySetupError::CorruptedAppData,
        SetupStep::CreateAppData => ArenaBuddySetupError::CorruptedAppData,
        SetupStep::CreateLogDirectory => ArenaBuddySetupError::CorruptedAppData,
        SetupStep::OpenLog => ArenaBuddySetupError::LogSetupFailure,
        SetupStep::LocateCards => ArenaBuddySetupError::NoCardsDatabase,
        SetupStep::LoadCards => ArenaBuddySetupError::NoCardsDatabase,
        SetupStep::OpenMatches => ArenaBuddySetupError::NoMathchesDatabase,
        SetupStep::InitializeMatches => ArenaBuddySetupError::MatchesDatabaseInitializationFailure,
        SetupStep::LocateHome => ArenaBuddySetupError::NoHomeDir,
        SetupStep::LocatePlayerLog => ArenaBuddySetupError::UnsupportedOS,
    }
}

/// The path of the player log below the home directory on the operating
/// system named `os`, as `std::env::consts::OS` names it. Only `macos` and
/// `windows` are supported.
pub fn player_log_location(os: &str) -> (found: Result<&'static str, ArenaBuddySetupError>)
    ensures
        located_text(found) == player_log_of(os@),
{
    let name = os.to_owned();
    if name == "macos".to_owned() {
        Ok("Library/Logs/Wizards of the Coast/MTGA/Player.log")
    } else if name == "windows".to_owned() {
        Ok("AppData/LocalLow/Wizards of the Coast/MTGA/Player.log")
    } else {
        Err(ArenaBuddySetupError::UnsupportedOS)
    }
}

} // verus!
