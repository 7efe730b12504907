//! Errors reported by the image-acquisition collaborator.
//!
//! Fetching images from the network is outside the verified core; the error
//! taxonomy lives here so that every part of the system reports failures
//! through the same types.

use vstd::prelude::*;

verus! {

/// Failures of the upstream image source.
#[derive(Debug)]
pub enum DownloaderError {
    ConnectionError,
    NoResultsError,
    BrowserError,
    SearcherError,
}

impl DownloaderError {
    /// A human-readable description of the failure.
    pub fn message(&self) -> String {
        match self {
            DownloaderError::ConnectionError => "Failed to connect to the internet".to_owned(),
            DownloaderError::NoResultsError => "No results found for the given keyword".to_owned(),
            DownloaderError::BrowserError => "Failed to initialize browser".to_owned(),
            DownloaderError::SearcherError => "Failed to search for given keyword".to_owned(),
        }
    }
}

} // verus!
