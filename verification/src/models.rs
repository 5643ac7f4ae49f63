//! Provider-neutral content models.
use vstd::prelude::*;

verus! {

/// Kind of content a provider lists.
#[derive(Debug, Clone, Copy, PartialEq, Eq, Hash, Structural)]
pub enum ContentType {
    Mod,
    ResourcePack,
    DataPack,
    Shader,
    Modpack,
    Unknown,
}

/// A search request against a content provider.
#[derive(Debug, Clone)]
pub struct SearchQuery {
    pub text: String,
    pub content_type: Option<ContentType>,
    pub game_versions: Vec<String>,
    pub loaders: Vec<String>,
    pub limit: u32,
    pub offset: u32,
    /// relevance (default), downloads, follows, newest, updated
    pub sort: Option<String>,
}

impl Default for SearchQuery {
    fn default() -> (q: Self)
        ensures
            q.text@ == Seq::<char>::empty(),
            q.content_type is None,
            q.game_versions@.len() == 0,
            q.loaders@.len() == 0,
            q.limit == 0,
            q.offset == 0,
            q.sort is None,
    {
        SearchQuery {
            text: String::new(),
            content_type: None,
            game_versions: Vec::new(),
            loaders: Vec::new(),
            limit: 0,
            offset: 0,
            sort: None,
        }
    }
}

/// A project as a provider describes it.
#[derive(Debug, Clone)]
pub struct Project {
    pub provider: String,
    pub id: String,
    pub slug: Option<String>,
    pub title: String,
    pub description: String,
    pub content_type: ContentType,
    pub game_versions: Vec<String>,
    pub loaders: Vec<String>,
    pub icon_url: Option<String>,
    pub downloads: u64,
    pub follows: u64,
    pub updated: Option<String>,
}

/// One downloadable file of a project version.
#[derive(Debug, Clone)]
pub struct VersionFile {
    pub name: String,
    pub url: String,
    pub sha512: Option<String>,
    pub primary: bool,
}

/// A dependency declared by a project version.
#[derive(Debug, Clone)]
pub struct VersionDependency {
    pub project_id: Option<String>,
    pub dependency_type: String,
}

/// One published version of a project.
#[derive(Debug, Clone)]
pub struct ProjectVersion {
    pub id: String,
    pub project_id: String,
    pub name: String,
    pub version_number: String,
    pub game_versions: Vec<String>,
    pub loaders: Vec<String>,
    pub files: Vec<VersionFile>,
    pub dependencies: Vec<VersionDependency>,
}

} // verus!
