//! The fatal errors of the library, each with the human-readable message
//! that the run reports before stopping.

use vstd::prelude::*;

verus! {

/// A fatal error: configuration that cannot be used, a request line whose
/// identifier is not a valid UUID, or a failed write of a file-command
/// record.  Every variant renders to a fixed message through [`Error::message`].
#[derive(Debug, PartialEq, Eq)]
pub enum Error {
    /// The access token input is missing or blank.
    AccessTokenMissing,
    /// The secrets input is missing or blank.
    SecretsMissing,
    /// The base URL does not start with a recognized scheme.
    BaseUrlScheme,
    /// The API URL does not start with a recognized scheme.
    ApiUrlScheme,
    /// The identity URL does not start with a recognized scheme.
    IdentityUrlScheme,
    /// Exactly one of the API and identity URLs was supplied.
    ApiIdentityPairRequired,
    /// A request line's identifier segment is not a valid UUID; the
    /// offending segment is carried for the message.
    InvalidUuid { uuid_part: String },
    /// Writing a file-command record failed; the description comes from
    /// the host's I/O error.
    Io { detail: String },
}

impl Error {
    /// The message of this error, exactly as the run reports it.
    pub open spec fn message_spec(&self) -> Seq<char> {
        match self {
            Error::AccessTokenMissing => "Access token is required"@,
            Error::SecretsMissing => "Secrets are required"@,
            Error::BaseUrlScheme => "base_url must start with 'https://' or 'http://'"@,
            Error::ApiUrlScheme => "api_url must start with 'https://' or 'http://'"@,
            Error::IdentityUrlScheme => "identity_url must start with 'https://' or 'http://'"@,
            Error::ApiIdentityPairRequired => "Both API and Identity URLs must be provided if one is specified"@,
            Error::InvalidUuid { uuid_part } => "Invalid UUID format: "@ + uuid_part@,
            Error::Io { detail } => detail@,
        }
    }

    /// Renders the message of this error.
    pub fn message(&self) -> (r: String)
        ensures
            r@ == self.message_spec(),
    {
        match self {
            Error::AccessTokenMissing => "Access token is required".to_owned(),
            Error::SecretsMissing => "Secrets are required".to_owned(),
            Error::BaseUrlScheme => "base_url must start with 'https://' or 'http://'".to_owned(),
            Error::ApiUrlScheme => "api_url must start with 'https://' or 'http://'".to_owned(),
            Error::IdentityUrlScheme => "identity_url must start with 'https://' or 'http://'".to_owned(),
            Error::ApiIdentityPairRequired => "Both API and Identity URLs must be provided if one is specified".to_owned(),
            Error::InvalidUuid { uuid_part } => {
                let mut m = "Invalid UUID format: ".to_owned();
                m.append(uuid_part.as_str());
                m
            },
            Error::Io { detail } => detail.clone(),
        }
    }
}

} // verus!
