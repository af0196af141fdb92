use vstd::prelude::*;

use crate::data::{version_lt, PackageTag, VersionTag};
use crate::Error;

verus! {

/// Compares the running version against the release that the publisher
/// describes at `publishing_url`.
pub struct UpdateChecker<'a> {
    version: VersionTag,
    publishing_url: &'a str,
}

pub enum CheckUpdateResult {
    UpToDate,
    UpdateAvailable(PackageTag),
}

/// The verdict on a fetched manifest: an update exactly when the manifest's
/// version is strictly newer than `local`; the manifest is handed on unchanged.
pub open spec fn update_verdict(local: VersionTag, fetched: Result<PackageTag, Error>) -> Result<
    CheckUpdateResult,
    Error,
> {
    match fetched {
        Ok(tag) => if version_lt(local, tag.version) {
            Ok(CheckUpdateResult::UpdateAvailable(tag))
        } else {
            Ok(CheckUpdateResult::UpToDate)
        },
        Err(e) => Err(e),
    }
}

impl<'a> UpdateChecker<'a> {
    /// The running version this checker compares against.
    pub closed spec fn local_version(&self) -> VersionTag {
        self.version
    }

    /// Where the manifest is published.
    pub closed spec fn url(&self) -> Seq<char> {
        self.publishing_url@
    }

    pub fn new(current_version: VersionTag, publishing_url: &'a str) -> (r: Self)
        ensures
            r.local_version() == current_version,
            r.url() == publishing_url@,
    {
        UpdateChecker { version: current_version, publishing_url }
    }

    pub fn publishing_url(&self) -> (r: &'a str)
        ensures
            r@ == self.url(),
    {
        self.publishing_url
    }

    /// The version of the fetched manifest, or the fetch's failure.
    pub fn get_latest_version(&self, fetched: Result<PackageTag, Error>) -> (r: Result<
        VersionTag,
        Error,
    >)
        ensures
            match fetched {
                Ok(tag) => r == Ok::<VersionTag, Error>(tag.version),
                Err(e) => r == Err::<VersionTag, Error>(e),
            },
    {
        let package_tag = fetched?;
        Ok(package_tag.version)
    }

    /// Decides on the fetched manifest: an update is available exactly when its
    /// version is strictly newer than the running one.
    pub fn check_update(&self, fetched: Result<PackageTag, Error>) -> (r: Result<
        CheckUpdateResult,
        Error,
    >)
        ensures
            r == update_verdict(self.local_version(), fetched),
    {
        match fetched {
            Ok(package_tag) => {
                if self.version < package_tag.version {
                    Ok(CheckUpdateResult::UpdateAvailable(package_tag))
                } else {
                    Ok(CheckUpdateResult::UpToDate)
                }
            },
            Err(e) => Err(e),
        }
    }
}

} // verus!
