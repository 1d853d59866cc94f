//! The closed set of terminal failures.

use vstd::prelude::*;

verus! {

/// The project list was obtained, but no entry matches the wanted id.
#[derive(Debug)]
pub struct ProjectNotFoundError;

/// A non-2xx API response; `body` holds the response body verbatim.
#[derive(Debug)]
pub struct SentryApiError {
    pub body: Vec<u8>,
}

/// A terminal failure while obtaining the project list.
#[derive(Debug)]
pub enum ProviderError {
    /// Transport-level failure issuing the request; carries the reported
    /// message.
    Network { message: Vec<u8> },
    /// The service answered outside the 2xx range.
    Api(SentryApiError),
    /// The response body did not parse as a project list.
    Parse,
    /// The cache could not be written after a successful fetch.
    CacheWrite,
}

/// Mathematical image of a provider failure.
pub enum ProviderErrorView {
    Network { message: Seq<u8> },
    Api { body: Seq<u8> },
    Parse,
    CacheWrite,
}

impl View for ProviderError {
    type V = ProviderErrorView;

    open spec fn view(&self) -> ProviderErrorView {
        match self {
            ProviderError::Network { message } => ProviderErrorView::Network {
                message: message@,
            },
            ProviderError::Api(e) => ProviderErrorView::Api { body: e.body@ },
            ProviderError::Parse => ProviderErrorView::Parse,
            ProviderError::CacheWrite => ProviderErrorView::CacheWrite,
        }
    }
}

/// Which required configuration value is absent.
#[derive(Debug, PartialEq, Eq, Structural)]
pub enum ConfigError {
    MissingApiKey,
    MissingOrg,
    MissingProjectId,
}

} // verus!
