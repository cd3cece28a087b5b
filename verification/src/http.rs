//! Release information as fetched from a release host, and a fetcher that
//! serves configured answers instead of making requests.

use vstd::prelude::*;

verus! {

/// One downloadable file of a release.
#[derive(Debug, Clone)]
pub struct AssetInfo {
    pub name: String,
    pub browser_download_url: String,
}

/// One release.
#[derive(Debug, Clone)]
pub struct ReleaseInfo {
    pub tag_name: String,
    pub name: String,
    pub published_at: String,
    pub assets: Vec<AssetInfo>,
}

pub struct ReleaseView {
    pub tag_name: Seq<char>,
    pub name: Seq<char>,
    pub published_at: Seq<char>,
    pub assets: Seq<(Seq<char>, Seq<char>)>,
}

impl View for AssetInfo {
    type V = (Seq<char>, Seq<char>);

    open spec fn view(&self) -> (Seq<char>, Seq<char>) {
        (self.name@, self.browser_download_url@)
    }
}

impl View for ReleaseInfo {
    type V = ReleaseView;

    open spec fn view(&self) -> ReleaseView {
        ReleaseView {
            tag_name: self.tag_name@,
            name: self.name@,
            published_at: self.published_at@,
            assets: self.assets@.map_values(|a: AssetInfo| a@),
        }
    }
}

pub open spec fn release_views(v: Seq<ReleaseInfo>) -> Seq<ReleaseView> {
    v.map_values(|r: ReleaseInfo| r@)
}

impl AssetInfo {
    /// A copy of this asset.
    pub fn duplicate(&self) -> (r: AssetInfo)
        ensures
            r@ == self@,
    {
        AssetInfo { name: self.name.clone(), browser_download_url: self.browser_download_url.clone() }
    }
}

impl ReleaseInfo {
    /// A copy of this release.
    pub fn duplicate(&self) -> (r: ReleaseInfo)
        ensures
            r@ == self@,
    {
        let mut assets: Vec<AssetInfo> = Vec::new();
        let mut i: usize = 0;
        while i < self.assets.len()
            invariant
                i <= self.assets.len(),
                assets@.len() == i,
                forall|k: int| 0 <= k < i ==> (#[trigger] assets@[k])@ == self.assets@[k]@,
            decreases self.assets.len() - i,
        {
            assets.push(self.assets[i].duplicate());
            i = i + 1;
        }
        let r = ReleaseInfo {
            tag_name: self.tag_name.clone(),
            name: self.name.clone(),
            published_at: self.published_at.clone(),
            assets,
        };
        assert(r@.assets =~= self@.assets);
        r
    }
}

fn copy_releases(v: &Vec<ReleaseInfo>) -> (r: Vec<ReleaseInfo>)
    ensures
        release_views(r@) == release_views(v@),
{
    let mut out: Vec<ReleaseInfo> = Vec::new();
    let mut i: usize = 0;
    while i < v.len()
        invariant
            i <= v.len(),
            out@.len() == i,
            forall|k: int| 0 <= k < i ==> (#[trigger] out@[k])@ == v@[k]@,
        decreases v.len() - i,
    {
        out.push(v[i].duplicate());
        i = i + 1;
    }
    assert(release_views(out@) =~= release_views(v@));
    out
}

/// The fetcher that asks the release host over HTTP.
pub struct HttpReleaseFetcher;

impl HttpReleaseFetcher {
    pub fn new() -> (r: HttpReleaseFetcher) {
        HttpReleaseFetcher
    }
}

impl Default for HttpReleaseFetcher {
    fn default() -> (r: HttpReleaseFetcher) {
        HttpReleaseFetcher::new()
    }
}

/// What a download from the mock does: hand back a configured path, or
/// write the configured content (empty if none) to a fresh file.
#[derive(Debug, Clone)]
pub enum DownloadPlan {
    UsePath(String),
    WriteContent(Vec<u8>),
}

/// A fetcher that answers from what it was configured with.
pub struct MockReleaseFetcher {
    releases: Vec<ReleaseInfo>,
    download_content: Option<Vec<u8>>,
    download_path: Option<String>,
}

pub struct MockView {
    pub releases: Seq<ReleaseView>,
    pub download_content: Option<Seq<u8>>,
    pub download_path: Option<Seq<char>>,
}

impl View for MockReleaseFetcher {
    type V = MockView;

    closed spec fn view(&self) -> MockView {
        MockView {
            releases: release_views(self.releases@),
            download_content: match self.download_content {
                Some(c) => Some(c@),
                None => None,
            },
            download_path: match self.download_path {
                Some(p) => Some(p@),
                None => None,
            },
        }
    }
}

impl MockReleaseFetcher {
    /// No releases, no download configured.
    pub fn new() -> (r: MockReleaseFetcher)
        ensures
            r@.releases == Seq::<ReleaseView>::empty(),
            r@.download_content is None,
            r@.download_path is None,
    {
        let r = MockReleaseFetcher { releases: Vec::new(), download_content: None, download_path: None };
        assert(r@.releases =~= Seq::<ReleaseView>::empty());
        r
    }

    /// The same fetcher answering with `releases`.
    pub fn with_releases(self, releases: Vec<ReleaseInfo>) -> (r: MockReleaseFetcher)
        ensures
            r@.releases == release_views(releases@),
            r@.download_content == self@.download_content,
            r@.download_path == self@.download_path,
    {
        MockReleaseFetcher { releases, ..self }
    }

    /// The same fetcher writing `content` on a download.
    pub fn with_download_content(self, content: Vec<u8>) -> (r: MockReleaseFetcher)
        ensures
            r@.releases == self@.releases,
            r@.download_content == Some(content@),
            r@.download_path == self@.download_path,
    {
        MockReleaseFetcher { download_content: Some(content), ..self }
    }

    /// The same fetcher handing back `path` on a download.
    pub fn with_download_path(self, path: String) -> (r: MockReleaseFetcher)
        ensures
            r@.releases == self@.releases,
            r@.download_content == self@.download_content,
            r@.download_path == Some(path@),
    {
        MockReleaseFetcher { download_path: Some(path), ..self }
    }

    /// Adds a release after the configured ones.
    pub fn add_release(&mut self, release: ReleaseInfo)
        ensures
            final(self)@.releases == old(self)@.releases.push(release@),
            final(self)@.download_content == old(self)@.download_content,
            final(self)@.download_path == old(self)@.download_path,
    {
        let ghost before = release_views(self.releases@);
        let ghost rv = release@;
        self.releases.push(release);
        assert(release_views(self.releases@) =~= before.push(rv));
    }

    /// The releases configured, in order.
    pub fn get_releases(&self) -> (r: Vec<ReleaseInfo>)
        ensures
            release_views(r@) == self@.releases,
    {
        copy_releases(&self.releases)
    }

    /// A fetch of any repository's releases: always the configured
    /// releases, in order.
    pub fn fetch_releases(&self, repo: &str, github_token: Option<&str>) -> (r: Result<Vec<ReleaseInfo>, String>)
        ensures
            r matches Ok(v) && release_views(v@) == self@.releases,
    {
        Ok(copy_releases(&self.releases))
    }

    /// What a download does: the configured path if there is one, else the
    /// configured content, else nothing, written out.
    pub fn download_plan(&self) -> (r: DownloadPlan)
        ensures
            match self@.download_path {
                Some(p) => r matches DownloadPlan::UsePath(q) && q@ == p,
                None => r matches DownloadPlan::WriteContent(c) && c@ == match self@.download_content {
                    Some(bytes) => bytes,
                    None => Seq::<u8>::empty(),
                },
            },
    {
        match &self.download_path {
            Some(p) => DownloadPlan::UsePath(p.clone()),
            None => match &self.download_content {
                Some(c) => DownloadPlan::WriteContent(c.clone()),
                None => {
                    let v: Vec<u8> = Vec::new();
                    assert(v@ =~= Seq::<u8>::empty());
                    DownloadPlan::WriteContent(v)
                },
            },
        }
    }
}

impl Default for MockReleaseFetcher {
    fn default() -> (r: MockReleaseFetcher)
        ensures
            r@.releases == Seq::<ReleaseView>::empty(),
            r@.download_content is None,
            r@.download_path is None,
    {
        MockReleaseFetcher::new()
    }
}

} // verus!
