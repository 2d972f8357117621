//! Error values of the library and their mathematical views.

use vstd::prelude::*;
use vstd::string::StringExecFns;

verus! {

/// `std::io::ErrorKind`, carried through unchanged inside [`Error::ReadError`].
/// Nothing is claimed about what a value of it holds.
#[verifier::external_type_specification]
#[verifier::external_body]
pub struct ExIoErrorKind(std::io::ErrorKind);

/// Why a configuration text is not a document of the configuration grammar.
#[derive(Debug, Clone, Copy, PartialEq, Eq, Structural)]
pub enum GrammarError {
    /// The text holds no `[`, so no section starts anywhere.
    NoSection,
    /// A `[` that has to start a section is not followed by a non-empty name
    /// and a closing `]`.
    MalformedHeader,
    /// No key-value line stands where one is needed: behind a section
    /// header, or where a single pair was asked for.
    NoKeyValue,
}

/// A configuration that is well-formed text but does not describe valid patches.
#[derive(Debug, PartialEq, Eq)]
pub enum ConfigError {
    /// The section holds no value for a field that has to be there. `field`
    /// is the bare name of the field, without the prefix of a later patch.
    MissingRequiredField { section: String, field: &'static str },
    /// The text of a field could not be understood; `msg` says why.
    FieldParseError { section: String, field: &'static str, msg: String },
    /// Something else is missing; the message says what.
    Other(String),
}

/// The view of a [`ConfigError`]: the same variants over sequences of characters.
pub enum ConfigErrorView {
    MissingRequiredField { section: Seq<char>, field: Seq<char> },
    FieldParseError { section: Seq<char>, field: Seq<char>, msg: Seq<char> },
    Other(Seq<char>),
}

impl View for ConfigError {
    type V = ConfigErrorView;

    open spec fn view(&self) -> ConfigErrorView {
        match self {
            ConfigError::MissingRequiredField { section, field } => {
                ConfigErrorView::MissingRequiredField { section: section@, field: field@ }
            },
            ConfigError::FieldParseError { section, field, msg } => {
                ConfigErrorView::FieldParseError { section: section@, field: field@, msg: msg@ }
            },
            ConfigError::Other(msg) => ConfigErrorView::Other(msg@),
        }
    }
}

impl Clone for ConfigError {
    fn clone(&self) -> (copy: Self)
        ensures
            copy@ == self@,
    {
        match self {
            ConfigError::MissingRequiredField { section, field } => {
                ConfigError::MissingRequiredField { section: section.clone(), field: *field }
            },
            ConfigError::FieldParseError { section, field, msg } => {
                ConfigError::FieldParseError {
                    section: section.clone(),
                    field: *field,
                    msg: msg.clone(),
                }
            },
            ConfigError::Other(msg) => ConfigError::Other(msg.clone()),
        }
    }
}

/// Everything that can go wrong while loading a configuration or applying a patch.
#[derive(Debug, PartialEq, Eq)]
pub enum Error {
    /// The storage behind a file could not be read or written. The library never
    /// produces this variant itself; it exists so that callers doing the I/O can
    /// report through the same type.
    ReadError(std::io::ErrorKind),
    /// The configuration text does not follow the grammar.
    ParseError(GrammarError),
    /// The configuration text follows the grammar but a field is missing or malformed.
    ConfigError(ConfigError),
    /// The caller's own state does not allow the operation.
    StateError(String),
    /// A patch would have written outside the buffer while handling occurrence
    /// number `iteration` (counted from zero).
    PatchError { iteration: usize },
}

/// The view of an [`Error`].
pub enum ErrorView {
    ReadError(std::io::ErrorKind),
    ParseError(GrammarError),
    ConfigError(ConfigErrorView),
    StateError(Seq<char>),
    PatchError { iteration: usize },
}

impl View for Error {
    type V = ErrorView;

    open spec fn view(&self) -> ErrorView {
        match self {
            Error::ReadError(kind) => ErrorView::ReadError(*kind),
            Error::ParseError(e) => ErrorView::ParseError(*e),
            Error::ConfigError(e) => ErrorView::ConfigError(e@),
            Error::StateError(msg) => ErrorView::StateError(msg@),
            Error::PatchError { iteration } => ErrorView::PatchError { iteration: *iteration },
        }
    }
}

impl Clone for Error {
    fn clone(&self) -> (copy: Self)
        ensures
            copy@ == self@,
    {
        match self {
            Error::ReadError(kind) => Error::ReadError(*kind),
            Error::ParseError(e) => Error::ParseError(*e),
            Error::ConfigError(e) => Error::ConfigError(e.clone()),
            Error::StateError(msg) => Error::StateError(msg.clone()),
            Error::PatchError { iteration } => Error::PatchError { iteration: *iteration },
        }
    }
}

impl From<GrammarError> for Error {
    /// A fault of the grammar as an error of the library.
    fn from(value: GrammarError) -> (e: Self) {
        Error::ParseError(value)
    }
}

impl vstd::std_specs::convert::FromSpecImpl<GrammarError> for Error {
    open spec fn obeys_from_spec() -> bool {
        true
    }

    open spec fn from_spec(value: GrammarError) -> Self {
        Error::ParseError(value)
    }
}

/// The view of the error that reports a required field as absent.
pub open spec fn missing_field(section: Seq<char>, field: Seq<char>) -> ErrorView {
    ErrorView::ConfigError(ConfigErrorView::MissingRequiredField { section, field })
}

/// The view of the error that reports a field whose text could not be understood.
pub open spec fn field_parse(section: Seq<char>, field: Seq<char>, msg: Seq<char>) -> ErrorView {
    ErrorView::ConfigError(ConfigErrorView::FieldParseError { section, field, msg })
}

/// The view of a configuration error that carries only a message.
pub open spec fn other_config(msg: Seq<char>) -> ErrorView {
    ErrorView::ConfigError(ConfigErrorView::Other(msg))
}

impl Error {
    /// The error for a required field that the section does not hold.
    pub fn config_missing_field(section: &str, field: &'static str) -> (e: Self)
        ensures
            e@ == missing_field(section@, field@),
    {
        Error::ConfigError(
            ConfigError::MissingRequiredField { section: String::from_str(section), field },
        )
    }

    /// A configuration error that carries only a message.
    pub fn config_error(msg: &str) -> (e: Self)
        ensures
            e@ == other_config(msg@),
    {
        Error::ConfigError(ConfigError::Other(String::from_str(msg)))
    }

    /// The error for a field whose text could not be understood.
    pub fn config_field_parse(section: &str, field: &'static str, msg: &str) -> (e: Self)
        ensures
            e@ == field_parse(section@, field@, msg@),
    {
        Error::ConfigError(
            ConfigError::FieldParseError {
                section: String::from_str(section),
                field,
                msg: String::from_str(msg),
            },
        )
    }

    /// The error for a caller whose state does not allow the operation.
    pub fn state_error(msg: &str) -> (e: Self)
        ensures
            e@ == ErrorView::StateError(msg@),
    {
        Error::StateError(String::from_str(msg))
    }
}

} // verus!
