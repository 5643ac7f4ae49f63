//! Provider identities, errors, and the key-gated CurseForge provider.
use crate::models::{ContentType, Project, ProjectVersion, SearchQuery};
use crate::text::string_push;
use vstd::prelude::*;

verus! {

/// Errors a content provider reports.
#[derive(Debug)]
pub enum ProviderError {
    Http(String),
    MissingApiKey,
    Parse(String),
    RateLimited,
}

/// The text an error is shown with.
pub open spec fn provider_error_text(e: ProviderError) -> Seq<char> {
    match e {
        ProviderError::Http(m) => "HTTP error: "@ + m@,
        ProviderError::MissingApiKey => "CurseForge API key not configured"@,
        ProviderError::Parse(m) => "parse error: "@ + m@,
        ProviderError::RateLimited => "rate limited"@,
    }
}

impl ProviderError {
    /// The message shown for this error.
    pub fn message(&self) -> (r: String)
        ensures
            r@ == provider_error_text(*self),
    {
        match self {
            ProviderError::Http(m) => {
                let mut s = String::from_str("HTTP error: ");
                s.append(m.as_str());
                s
            },
            ProviderError::MissingApiKey => String::from_str("CurseForge API key not configured"),
            ProviderError::Parse(m) => {
                let mut s = String::from_str("parse error: ");
                s.append(m.as_str());
                s
            },
            ProviderError::RateLimited => String::from_str("rate limited"),
        }
    }
}

/// Which provider a project comes from.
#[derive(Debug, Clone, Copy, PartialEq, Eq, Hash, Structural)]
pub enum ProviderId {
    Modrinth,
    CurseForge,
}

/// The wire name of a provider.
pub open spec fn provider_name(p: ProviderId) -> Seq<char> {
    match p {
        ProviderId::Modrinth => "modrinth"@,
        ProviderId::CurseForge => "curseforge"@,
    }
}

impl ProviderId {
    /// The wire name of this provider.
    pub fn as_str(self) -> (r: &'static str)
        ensures
            r@ == provider_name(self),
    {
        match self {
            ProviderId::Modrinth => "modrinth",
            ProviderId::CurseForge => "curseforge",
        }
    }
}

/// Distinct providers have distinct wire names.
pub proof fn provider_names_distinct(a: ProviderId, b: ProviderId)
    requires
        a != b,
    ensures
        provider_name(a) != provider_name(b),
{
    reveal_strlit("modrinth");
    reveal_strlit("curseforge");
    assert("modrinth"@.len() != "curseforge"@.len());
}

/// CurseForge client. It works only with an API key; until the HTTP mapping
/// is decided it answers every request with empty results.
pub struct CurseForgeProvider {
    api_key: Option<String>,
}

impl CurseForgeProvider {
    /// The key this provider was configured with.
    pub closed spec fn key(&self) -> Option<String> {
        self.api_key
    }

    /// A provider configured with `api_key`.
    pub fn new(api_key: Option<String>) -> (p: Self)
        ensures
            p.key() == api_key,
    {
        CurseForgeProvider { api_key }
    }

    /// The configured key, or `MissingApiKey`.
    pub fn require_key(&self) -> (r: Result<&str, ProviderError>)
        ensures
            match self.key() {
                Some(k) => (r matches Ok(s) && s@ == k@),
                None => r matches Err(ProviderError::MissingApiKey),
            },
    {
        match &self.api_key {
            Some(k) => Ok(k.as_str()),
            None => Err(ProviderError::MissingApiKey),
        }
    }

    /// This provider's identity.
    pub fn id(&self) -> (r: ProviderId)
        ensures
            r == ProviderId::CurseForge,
    {
        ProviderId::CurseForge
    }

    /// Search: fails without a key, otherwise no hits yet.
    pub fn search(&self, query: &SearchQuery) -> (r: Result<Vec<Project>, ProviderError>)
        ensures
            self.key() is None ==> r matches Err(ProviderError::MissingApiKey),
            self.key() is Some ==> (r matches Ok(v) && v@.len() == 0),
    {
        let _ = self.require_key()?;
        Ok(Vec::new())
    }

    /// Project lookup: fails without a key, otherwise an empty CurseForge stub with the given id.
    pub fn project(&self, id: &str) -> (r: Result<Project, ProviderError>)
        ensures
            self.key() is None ==> r matches Err(ProviderError::MissingApiKey),
            self.key() is Some ==> (r matches Ok(p) && {
                &&& p.provider@ == "curseforge"@
                &&& p.id@ == id@
                &&& p.slug is None
                &&& p.title@.len() == 0
                &&& p.description@.len() == 0
                &&& p.content_type == ContentType::Unknown
                &&& p.game_versions@.len() == 0
                &&& p.loaders@.len() == 0
                &&& p.icon_url is None
                &&& p.downloads == 0
                &&& p.follows == 0
                &&& p.updated is None
            }),
    {
        let _ = self.require_key()?;
        Ok(Project {
            provider: String::from_str(ProviderId::CurseForge.as_str()),
            id: String::from_str(id),
            slug: None,
            title: String::new(),
            description: String::new(),
            content_type: ContentType::Unknown,
            game_versions: Vec::new(),
            loaders: Vec::new(),
            icon_url: None,
            downloads: 0,
            follows: 0,
            updated: None,
        })
    }

    /// Version listing: fails without a key, otherwise no versions yet.
    pub fn versions(&self, id: &str, game_versions: &[String], loaders: &[String]) -> (r: Result<
        Vec<ProjectVersion>,
        ProviderError,
    >)
        ensures
            self.key() is None ==> r matches Err(ProviderError::MissingApiKey),
            self.key() is Some ==> (r matches Ok(v) && v@.len() == 0),
    {
        let _ = self.require_key()?;
        Ok(Vec::new())
    }
}

} // verus!
