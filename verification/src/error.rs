//! Errors returned by counting, scanning, comparison and Git measurement.

use vstd::prelude::*;

use crate::chars::{concat, concat3, concat4};

verus! {

/// A tokenizer could not be resolved or execute a count.
#[derive(Debug)]
pub enum TokenizerError {
    /// The requested built-in encoding is unavailable.
    UnsupportedEncoding(String),
    /// The requested model alias is not recognized.
    UnsupportedModel(String),
    /// A backend returned a count that does not fit the public result type.
    CountOverflow,
    /// A tokenizer backend failed while processing text.
    Backend(String),
    /// A tokenizer artifact could not be read.
    ArtifactRead {
        /// Supplied artifact path.
        path: String,
        /// Underlying error.
        message: String,
    },
    /// A tokenizer artifact could not be loaded.
    ArtifactInvalid {
        /// Supplied artifact path.
        path: String,
        /// Underlying error.
        message: String,
    },
}

impl TokenizerError {
    /// The human-readable description of this error.
    pub open spec fn spec_message(&self) -> Seq<char> {
        match self {
            TokenizerError::UnsupportedEncoding(v) => "unsupported encoding: "@ + v@,
            TokenizerError::UnsupportedModel(m) => "unsupported model: "@ + m@,
            TokenizerError::CountOverflow => "token count does not fit in u64"@,
            TokenizerError::Backend(m) => "tokenizer backend failed: "@ + m@,
            TokenizerError::ArtifactRead { path, message } => "cannot read tokenizer artifact "@
                + path@ + ": "@ + message@,
            TokenizerError::ArtifactInvalid { path, message } => "invalid tokenizer artifact "@
                + path@ + ": "@ + message@,
        }
    }

    /// Return the human-readable description of this error.
    pub fn message(&self) -> (r: String)
        ensures
            r@ == self.spec_message(),
    {
        match self {
            TokenizerError::UnsupportedEncoding(v) => concat("unsupported encoding: ", v.as_str()),
            TokenizerError::UnsupportedModel(m) => concat("unsupported model: ", m.as_str()),
            TokenizerError::CountOverflow => "token count does not fit in u64".to_owned(),
            TokenizerError::Backend(m) => concat("tokenizer backend failed: ", m.as_str()),
            TokenizerError::ArtifactRead { path, message } => concat4(
                "cannot read tokenizer artifact ",
                path.as_str(),
                ": ",
                message.as_str(),
            ),
            TokenizerError::ArtifactInvalid { path, message } => concat4(
                "invalid tokenizer artifact ",
                path.as_str(),
                ": ",
                message.as_str(),
            ),
        }
    }
}

/// Counting failed before a result could be produced.
#[derive(Debug)]
pub enum CountError {
    /// Tokenization failed.
    Tokenizer(TokenizerError),
}

impl CountError {
    /// The human-readable description of this error.
    pub open spec fn spec_message(&self) -> Seq<char> {
        match self {
            CountError::Tokenizer(e) => e.spec_message(),
        }
    }

    /// Return the human-readable description of this error.
    pub fn message(&self) -> (r: String)
        ensures
            r@ == self.spec_message(),
    {
        match self {
            CountError::Tokenizer(e) => e.message(),
        }
    }
}

/// A recursive scan could not produce a trustworthy aggregate result.
#[derive(Debug)]
pub enum ScanError {
    /// No filesystem inputs were supplied.
    NoInputs,
    /// The process working directory could not be resolved.
    WorkingDirectory {
        /// Underlying operating-system error.
        message: String,
    },
    /// An explicit input path could not be inspected.
    Input {
        /// Explicit input path.
        path: String,
        /// Underlying operating-system error.
        message: String,
    },
    /// An include or exclude expression was not a valid glob.
    InvalidGlob {
        /// User-supplied glob expression.
        pattern: String,
        /// Parser error.
        message: String,
    },
    /// The bounded worker pool could not be created.
    WorkerPool {
        /// Worker-pool construction error.
        message: String,
    },
    /// A tokenizer failed while scanning one file.
    Count(CountError),
    /// File or token totals exceeded the public result representation.
    AggregateOverflow,
}

impl ScanError {
    /// The human-readable description of this error.
    pub open spec fn spec_message(&self) -> Seq<char> {
        match self {
            ScanError::NoInputs => "at least one filesystem input is required"@,
            ScanError::WorkingDirectory { message } => "cannot resolve the current working directory: "@
                + message@,
            ScanError::Input { path, message } => "cannot inspect input "@ + path@ + ": "@
                + message@,
            ScanError::InvalidGlob { pattern, message } => "invalid glob \""@ + pattern@ + "\": "@
                + message@,
            ScanError::WorkerPool { message } => "cannot create tokenization worker pool: "@
                + message@,
            ScanError::Count(e) => e.spec_message(),
            ScanError::AggregateOverflow => "scan totals exceed u64"@,
        }
    }

    /// Return the human-readable description of this error.
    pub fn message(&self) -> (r: String)
        ensures
            r@ == self.spec_message(),
    {
        match self {
            ScanError::NoInputs => "at least one filesystem input is required".to_owned(),
            ScanError::WorkingDirectory { message } => concat(
                "cannot resolve the current working directory: ",
                message.as_str(),
            ),
            ScanError::Input { path, message } => concat4(
                "cannot inspect input ",
                path.as_str(),
                ": ",
                message.as_str(),
            ),
            ScanError::InvalidGlob { pattern, message } => concat4(
                "invalid glob \"",
                pattern.as_str(),
                "\": ",
                message.as_str(),
            ),
            ScanError::WorkerPool { message } => concat(
                "cannot create tokenization worker pool: ",
                message.as_str(),
            ),
            ScanError::Count(e) => e.message(),
            ScanError::AggregateOverflow => "scan totals exceed u64".to_owned(),
        }
    }
}

/// Two snapshots cannot be compared.
#[derive(Debug)]
pub enum DiffError {
    /// The snapshots were measured under different counting semantics.
    IncompatibleSemantics(&'static str),
}

impl DiffError {
    /// The human-readable description of this error.
    pub open spec fn spec_message(&self) -> Seq<char> {
        match self {
            DiffError::IncompatibleSemantics(what) => "cannot compare snapshots with different "@
                + what@,
        }
    }

    /// Return the human-readable description of this error.
    pub fn message(&self) -> (r: String)
        ensures
            r@ == self.spec_message(),
    {
        match self {
            DiffError::IncompatibleSemantics(what) => concat(
                "cannot compare snapshots with different ",
                what,
            ),
        }
    }
}

/// A Git measurement could not be completed.
#[derive(Debug)]
pub enum GitError {
    /// The repository could not be opened.
    Repository {
        /// Supplied repository path.
        path: String,
        /// Underlying error.
        message: String,
    },
    /// A revision could not be resolved.
    Revision {
        /// Supplied revision.
        revision: String,
        /// Underlying error.
        message: String,
    },
    /// A revision did not name a readable tree.
    Tree {
        /// Supplied revision.
        revision: String,
        /// Underlying error.
        message: String,
    },
    /// A tree entry could not be read.
    Object {
        /// Path of the entry inside the tree.
        path: String,
        /// Underlying error.
        message: String,
    },
    /// The repository is bare.
    WorktreeUnavailable {
        /// Git directory of the repository.
        path: String,
    },
    /// A worktree scan failed.
    Scan(ScanError),
    /// Counting one blob failed.
    Count(CountError),
    /// The two snapshots could not be compared.
    Diff(DiffError),
}

impl GitError {
    /// The human-readable description of this error.
    pub open spec fn spec_message(&self) -> Seq<char> {
        match self {
            GitError::Repository { path, message } => "cannot open Git repository "@ + path@
                + ": "@ + message@,
            GitError::Revision { revision, message } => "cannot resolve Git revision "@
                + revision@ + ": "@ + message@,
            GitError::Tree { revision, message } => "cannot read the Git tree of "@ + revision@
                + ": "@ + message@,
            GitError::Object { path, message } => "cannot read Git object "@ + path@ + ": "@
                + message@,
            GitError::WorktreeUnavailable { path } => "Git repository "@ + path@
                + " has no worktree"@,
            GitError::Scan(e) => e.spec_message(),
            GitError::Count(e) => e.spec_message(),
            GitError::Diff(e) => e.spec_message(),
        }
    }

    /// Return the human-readable description of this error.
    pub fn message(&self) -> (r: String)
        ensures
            r@ == self.spec_message(),
    {
        match self {
            GitError::Repository { path, message } => concat4(
                "cannot open Git repository ",
                path.as_str(),
                ": ",
                message.as_str(),
            ),
            GitError::Revision { revision, message } => concat4(
                "cannot resolve Git revision ",
                revision.as_str(),
                ": ",
                message.as_str(),
            ),
            GitError::Tree { revision, message } => concat4(
                "cannot read the Git tree of ",
                revision.as_str(),
                ": ",
                message.as_str(),
            ),
            GitError::Object { path, message } => concat4(
                "cannot read Git object ",
                path.as_str(),
                ": ",
                message.as_str(),
            ),
            GitError::WorktreeUnavailable { path } => concat3(
                "Git repository ",
                path.as_str(),
                " has no worktree",
            ),
            GitError::Scan(e) => e.message(),
            GitError::Count(e) => e.message(),
            GitError::Diff(e) => e.message(),
        }
    }
}

} // verus!
