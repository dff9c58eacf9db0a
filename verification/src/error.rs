//! The error taxonomy of the library. Every variant carries its payload as
//! plain text; `message` renders the human-readable description and is
//! verified to produce exactly the documented wording.
use vstd::prelude::*;
use vstd::string::StringExecFns;

verus! {

/// Everything that can go wrong while managing the registry and its links.
#[derive(Debug, Clone, PartialEq, Eq)]
pub enum DotlinkError {
    /// The external linking utility is not installed.
    StowNotFound,
    /// A source directory does not exist; carries the path.
    SourceNotFound(String),
    /// A target directory does not exist; carries the path.
    TargetNotFound(String),
    /// The (source, target) pair is already in the registry.
    AlreadyRegistered { src: String, dest: String },
    /// The (source, target) pair is not in the registry.
    NotRegistered { src: String, dest: String },
    /// The persisted registry could not be parsed; carries the parser's words.
    ConfigParseError(String),
    /// The persisted registry could not be written; carries the writer's words.
    ConfigSaveError(String),
    /// The external linking utility failed; carries its diagnostic text.
    StowError(String),
    /// Any other input/output failure, described in words.
    IoError(String),
}

/// The exact wording of each error's description.
pub open spec fn spec_message(e: DotlinkError) -> Seq<char> {
    match e {
        DotlinkError::StowNotFound => {
            "stow is not installed\n\nInstall with:\n  macOS:  brew install stow\n  Ubuntu: sudo apt install stow\n  Arch:   sudo pacman -S stow"@
        },
        DotlinkError::SourceNotFound(p) => "Source directory does not exist: "@ + p@,
        DotlinkError::TargetNotFound(p) => "Target directory does not exist: "@ + p@,
        DotlinkError::AlreadyRegistered { src, dest } => {
            "Already registered: "@ + src@ + " -> "@ + dest@
        },
        DotlinkError::NotRegistered { src, dest } => "Not registered: "@ + src@ + " -> "@ + dest@,
        DotlinkError::ConfigParseError(m) => "Failed to parse config file: "@ + m@,
        DotlinkError::ConfigSaveError(m) => "Failed to save config file: "@ + m@,
        DotlinkError::StowError(m) => "stow command failed: "@ + m@,
        DotlinkError::IoError(m) => "IO error: "@ + m@,
    }
}

impl DotlinkError {
    /// Renders the error as the text a user is shown.
    pub fn message(&self) -> (r: String)
        ensures
            r@ == spec_message(*self),
    {
        match self {
            DotlinkError::StowNotFound => String::from_str(
                "stow is not installed\n\nInstall with:\n  macOS:  brew install stow\n  Ubuntu: sudo apt install stow\n  Arch:   sudo pacman -S stow",
            ),
            DotlinkError::SourceNotFound(p) => String::from_str(
                "Source directory does not exist: ",
            ).concat(p.as_str()),
            DotlinkError::TargetNotFound(p) => String::from_str(
                "Target directory does not exist: ",
            ).concat(p.as_str()),
            DotlinkError::AlreadyRegistered { src, dest } => String::from_str(
                "Already registered: ",
            ).concat(src.as_str()).concat(" -> ").concat(dest.as_str()),
            DotlinkError::NotRegistered { src, dest } => String::from_str(
                "Not registered: ",
            ).concat(src.as_str()).concat(" -> ").concat(dest.as_str()),
            DotlinkError::ConfigParseError(m) => String::from_str(
                "Failed to parse config file: ",
            ).concat(m.as_str()),
            DotlinkError::ConfigSaveError(m) => String::from_str(
                "Failed to save config file: ",
            ).concat(m.as_str()),
            DotlinkError::StowError(m) => String::from_str("stow command failed: ").concat(
                m.as_str(),
            ),
            DotlinkError::IoError(m) => String::from_str("IO error: ").concat(m.as_str()),
        }
    }
}

} // verus!
