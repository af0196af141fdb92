use vstd::prelude::*;

pub mod archive;
pub mod checker;
pub mod cycle;
pub mod data;
pub mod local;
pub mod promote;
pub mod text;

use crate::checker::{update_verdict, CheckUpdateResult, UpdateChecker};
use crate::cycle::{cycle_step, event_fits, Action, Event, Stage};
use crate::data::{parse_version, PackageTag, VersionTag};
use crate::local::{
    build_version, builds_view, exe_extension, local_build_version, names_view, scan_builds,
    scan_local_builds, LocalBuild,
};
use crate::promote::{plan_promotion, promotion_decided, Promotion};

verus! {

/// Failures of the update cycle. Underlying causes reported by the host are
/// carried as their rendered text.
#[derive(Debug, Clone, PartialEq, Eq)]
pub enum Error {
    UnsupportedOS(String),
    InvalidLocalVersionError,
    UntrackedFileError { source: String },
    CommonFileError { message: String, source: String },
    PermissionError(String),
    SelfLocationError(String),
    UntrackedNetError { source: String },
    NetError(String),
    ParsingError { source: String },
    ZipError { source: String },
    UnsafeArchiveEntry(String),
}

/// The running process as the host sees it: the platform's name (`"linux"`,
/// `"windows"`, ...) and the file name of the running executable.
pub struct Host {
    pub os: String,
    pub exe_file_name: String,
}

/// Collects the settings of a [`Reactor`].
pub struct ReactorBuilder {
    _name: Option<String>,
    _version: Option<VersionTag>,
    _publishing_url: Option<String>,
}

impl Default for ReactorBuilder {
    fn default() -> (r: Self)
        ensures
            r.name_set() is None,
            r.version_set() is None,
            r.url_set() is None,
    {
        ReactorBuilder { _name: None, _version: None, _publishing_url: None }
    }
}

impl ReactorBuilder {
    pub closed spec fn name_set(&self) -> Option<Seq<char>> {
        match self._name {
            Some(n) => Some(n@),
            None => None,
        }
    }

    pub closed spec fn version_set(&self) -> Option<VersionTag> {
        self._version
    }

    pub closed spec fn url_set(&self) -> Option<Seq<char>> {
        match self._publishing_url {
            Some(u) => Some(u@),
            None => None,
        }
    }

    pub fn new() -> (r: Self)
        ensures
            r.name_set() is None,
            r.version_set() is None,
            r.url_set() is None,
    {
        Self::default()
    }

    pub fn name(self, name: &str) -> (r: Self)
        ensures
            r.name_set() == Some(name@),
            r.version_set() == self.version_set(),
            r.url_set() == self.url_set(),
    {
        ReactorBuilder { _name: Some(String::from_str(name)), ..self }
    }

    /// Sets the running version from its text, which must be a valid version.
    pub fn version(self, version: &str) -> (r: Self)
        requires
            parse_version(version@) is Some,
        ensures
            r.name_set() == self.name_set(),
            r.version_set() == parse_version(version@),
            r.url_set() == self.url_set(),
    {
        match VersionTag::parse(version) {
            Ok(v) => ReactorBuilder { _version: Some(v), ..self },
            Err(_) => self,
        }
    }

    pub fn publishing_url(self, publishing_url: &str) -> (r: Self)
        ensures
            r.name_set() == self.name_set(),
            r.version_set() == self.version_set(),
            r.url_set() == Some(publishing_url@),
    {
        ReactorBuilder { _publishing_url: Some(String::from_str(publishing_url)), ..self }
    }

    /// Builds the reactor for the process described by `host`; see [`Reactor::new`].
    pub fn finish(self, host: &Host) -> (r: Result<Reactor, Error>)
        requires
            self.name_set() is Some,
            self.version_set() is Some,
            self.url_set() is Some,
        ensures
            reactor_made(
                r,
                self.name_set()->Some_0,
                self.version_set()->Some_0,
                self.url_set()->Some_0,
                host,
            ),
    {
        let name = self._name.unwrap();
        let version = self._version.unwrap();
        let url = self._publishing_url.unwrap();
        Reactor::with_version(name.as_str(), version, url.as_str(), host)
    }
}

/// The self-updating runtime of program `name`, running `version`, whose
/// releases are described at `publishing_url`.
pub struct Reactor {
    name: String,
    version: VersionTag,
    publishing_url: String,
}

/// `r` is the outcome of making a reactor with these settings for `host`:
/// refused when the running executable's file name carries a version other
/// than `version`.
pub open spec fn reactor_made(
    r: Result<Reactor, Error>,
    name: Seq<char>,
    version: VersionTag,
    url: Seq<char>,
    host: &Host,
) -> bool {
    match build_version(host.exe_file_name@, name, exe_extension(host.os@)) {
        Some(w) if w != version => r == Err::<Reactor, Error>(Error::InvalidLocalVersionError),
        _ => r matches Ok(re) && re.program_name() == name && re.running_version() == version
            && re.url() == url,
    }
}

impl Reactor {
    pub closed spec fn program_name(&self) -> Seq<char> {
        self.name@
    }

    pub closed spec fn running_version(&self) -> VersionTag {
        self.version
    }

    pub closed spec fn url(&self) -> Seq<char> {
        self.publishing_url@
    }

    /// Makes the reactor; the version is given as text. Fails with the
    /// local-version error when that text is not a version, or when the
    /// running executable's file name carries a different version.
    pub fn new(name: &str, version: &str, publishing_url: &str, host: &Host) -> (r: Result<
        Reactor,
        Error,
    >)
        ensures
            match parse_version(version@) {
                Some(v) => reactor_made(r, name@, v, publishing_url@, host),
                None => r == Err::<Reactor, Error>(Error::InvalidLocalVersionError),
            },
    {
        let v = VersionTag::parse(version)?;
        Reactor::with_version(name, v, publishing_url, host)
    }

    fn with_version(name: &str, version: VersionTag, publishing_url: &str, host: &Host) -> (r: Result<
        Reactor,
        Error,
    >)
        ensures
            reactor_made(r, name@, version, publishing_url@, host),
    {
        match local_build_version(host.exe_file_name.as_str(), name, host.os.as_str()) {
            Some(w) => {
                if w != version {
                    return Err(Error::InvalidLocalVersionError);
                }
            },
            None => {},
        }
        Ok(
            Reactor {
                name: String::from_str(name),
                version,
                publishing_url: String::from_str(publishing_url),
            },
        )
    }

    pub fn name(&self) -> (r: &str)
        ensures
            r@ == self.program_name(),
    {
        self.name.as_str()
    }

    pub fn version(&self) -> (r: VersionTag)
        ensures
            r == self.running_version(),
    {
        self.version
    }

    pub fn publishing_url(&self) -> (r: &str)
        ensures
            r@ == self.url(),
    {
        self.publishing_url.as_str()
    }

    /// The versioned builds of this program among the directory entries `files`.
    pub fn find_other_available_versions(&self, host: &Host, files: &Vec<String>) -> (r: Vec<
        LocalBuild,
    >)
        ensures
            builds_view(r@) == scan_builds(
                names_view(files@),
                self.program_name(),
                exe_extension(host.os@),
            ),
    {
        scan_local_builds(files, self.name.as_str(), host.os.as_str())
    }

    /// One promotion pass over the installation directory's entries `files`.
    pub fn self_update_if_available(&self, host: &Host, files: &Vec<String>) -> (r: Result<
        Promotion,
        Error,
    >)
        ensures
            promotion_decided(
                r,
                self.running_version(),
                self.program_name(),
                host.os@,
                host.exe_file_name@,
                scan_builds(names_view(files@), self.program_name(), exe_extension(host.os@)),
            ),
    {
        let builds = self.find_other_available_versions(host, files);
        plan_promotion(
            self.version,
            self.name.as_str(),
            host.os.as_str(),
            host.exe_file_name.as_str(),
            &builds,
        )
    }

    /// Decides on the manifest fetched from the publisher: the package to
    /// apply when it is newer than the running version.
    pub fn check_update_and_update(&self, fetched: Result<PackageTag, Error>) -> (r: Result<
        CheckUpdateResult,
        Error,
    >)
        ensures
            r == update_verdict(self.running_version(), fetched),
    {
        let checker = UpdateChecker::new(self.version, self.publishing_url.as_str());
        checker.check_update(fetched)
    }

    /// Advances the update cycle: promotion, then check and apply, then
    /// promotion again, stopping at the first failure. Start at
    /// [`Stage::Start`] with [`Event::Begin`]; then report each action's outcome.
    pub fn oneclick(&self, stage: Stage, event: Event) -> (r: (Stage, Action))
        requires
            event_fits(stage, event),
        ensures
            r == cycle_step(self.running_version(), stage, event),
    {
        match event {
            Event::Begin => (Stage::FirstPromotion, Action::Promote),
            Event::Promoted(Err(e)) => (Stage::Finished, Action::Finish(Err(e))),
            Event::Promoted(Ok(())) => {
                if stage == Stage::FirstPromotion {
                    (Stage::UpdateCheck, Action::FetchManifest)
                } else {
                    (Stage::Finished, Action::Finish(Ok(())))
                }
            },
            Event::ManifestFetched(fetched) => match self.check_update_and_update(fetched) {
                Ok(CheckUpdateResult::UpdateAvailable(tag)) => (Stage::Applying, Action::Apply(tag)),
                Ok(CheckUpdateResult::UpToDate) => (Stage::SecondPromotion, Action::Promote),
                Err(e) => (Stage::Finished, Action::Finish(Err(e))),
            },
            Event::Applied(Err(e)) => (Stage::Finished, Action::Finish(Err(e))),
            Event::Applied(Ok(())) => (Stage::SecondPromotion, Action::Promote),
        }
    }
}

} // verus!
