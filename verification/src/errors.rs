//! The error taxonomy of the engine. Every fatal condition is a variant of
//! [`AppError`]; the one non-fatal condition (writing the credential through the
//! local configuration path) is reported as a warning by the update path, not
//! through this type.

use vstd::prelude::*;
use vstd::string::StringExecFns;

verus! {

/// A configuration field, used to name the offending field in error messages.
#[derive(Clone, Copy, Debug, PartialEq, Eq, Structural)]
pub enum ConfigField {
    ApiToken,
    WorkspaceId,
    ProjectId,
}

impl ConfigField {
    /// The key under which the field is stored in a configuration file.
    pub open spec fn key_spec(self) -> Seq<char> {
        match self {
            ConfigField::ApiToken => "API_TOKEN"@,
            ConfigField::WorkspaceId => "WORKSPACE_ID"@,
            ConfigField::ProjectId => "PROJECT_ID"@,
        }
    }

    pub fn key(&self) -> (r: &'static str)
        ensures
            r@ == self.key_spec(),
    {
        match self {
            ConfigField::ApiToken => "API_TOKEN",
            ConfigField::WorkspaceId => "WORKSPACE_ID",
            ConfigField::ProjectId => "PROJECT_ID",
        }
    }
}

/// A fatal failure of the engine. All variants abort the invocation.
#[derive(Clone, Copy, Debug, PartialEq, Eq, Structural)]
pub enum AppError {
    /// The configuration file or directory could not be read or written.
    ConfigIo,
    /// A configuration line is not of the form `KEY=VALUE`.
    ConfigSyntax,
    /// A recognized configuration key's value failed to parse as its type.
    ConfigParse(ConfigField),
    /// A remote record's timestamp failed to parse.
    RecordParse,
    /// An operation needs a field that the effective configuration lacks.
    MissingPrecondition(ConfigField),
    /// The platform credential store could not be used.
    CredentialStore,
}

impl AppError {
    pub open spec fn message_spec(self) -> Seq<char> {
        match self {
            AppError::ConfigIo => "could not read or write the configuration file"@,
            AppError::ConfigSyntax => "could not parse a configuration line"@,
            AppError::ConfigParse(f) => "could not parse "@ + f.key_spec(),
            AppError::RecordParse => "could not parse a time entry record"@,
            AppError::MissingPrecondition(f) => f.key_spec() + " is not set; set it via configuration"@,
            AppError::CredentialStore => "could not access the credential store"@,
        }
    }

    /// A human-readable cause, printed at the process boundary.
    pub fn message(&self) -> (r: String)
        ensures
            r@ == self.message_spec(),
    {
        match self {
            AppError::ConfigIo => "could not read or write the configuration file".to_owned(),
            AppError::ConfigSyntax => "could not parse a configuration line".to_owned(),
            AppError::ConfigParse(f) => {
                let mut m = "could not parse ".to_owned();
                m.append(f.key());
                m
            },
            AppError::RecordParse => "could not parse a time entry record".to_owned(),
            AppError::MissingPrecondition(f) => {
                let mut m = f.key().to_owned();
                m.append(" is not set; set it via configuration");
                m
            },
            AppError::CredentialStore => "could not access the credential store".to_owned(),
        }
    }
}

} // verus!
