//! Repositories of assets behind one interface: the Godot Asset Library (official
//! or compatible), a JSON file, or a local directory.
use vstd::prelude::*;
use crate::asset::{Asset, AssetCategory, category_name, same_assets};
use crate::godot_asset_library_api::{AssetListParams, GodotAssetLibraryClient, GODOT_ASSET_LIBRARY_API};
use crate::keyed::{contains_string, has_string};
use crate::paths::{path_exists, path_is_dir};
use crate::seqs::lemma_filter_step;
use crate::text::{
    chars_of, contains_chars, contains_seq, lowercase, str_equal, to_lowercase_string,
};

verus! {

/// Repository type identifier
#[derive(Debug, Clone, Copy, PartialEq, Eq, Structural)]
pub enum RepositoryType {
    /// Official Godot Asset Library API
    GodotAssetLibrary,
    /// Custom server using Godot Asset Library compatible API
    GodotCompatible,
    /// Simple JSON file repository
    JsonFile,
    /// Git repository with asset manifest
    GitRepository,
    /// Local filesystem directory
    LocalDirectory,
}

/// Search and filter options for repositories
#[derive(Debug, Clone)]
pub struct RepositorySearchOptions {
    /// Search query string
    pub query: Option<String>,
    /// Category filter
    pub category: Option<String>,
    /// Tags filter
    pub tags: Vec<String>,
    /// Sort by field
    pub sort_by: Option<String>,
    /// Sort ascending or descending
    pub sort_ascending: bool,
    /// Page number for pagination
    pub page: u32,
    /// Items per page
    pub page_size: u32,
}

/// No option is set, and pages hold `page_size` items.
pub open spec fn plain_options(o: RepositorySearchOptions, page_size: u32) -> bool {
    &&& o.query is None
    &&& o.category is None
    &&& o.tags@.len() == 0
    &&& o.sort_by is None
    &&& !o.sort_ascending
    &&& o.page == 0
    &&& o.page_size == page_size
}

impl Default for RepositorySearchOptions {
    fn default() -> (r: Self)
        ensures
            plain_options(r, 0),
    {
        Self {
            query: None,
            category: None,
            tags: Vec::new(),
            sort_by: None,
            sort_ascending: false,
            page: 0,
            page_size: 0,
        }
    }
}

impl RepositorySearchOptions {
    /// Options with pages of 20 items and nothing else set.
    pub fn new() -> (r: Self)
        ensures
            plain_options(r, 20),
    {
        let mut o = Self::default();
        o.page_size = 20;
        o
    }

    /// Sets the search text.
    pub fn with_query(self, query: String) -> (r: Self)
        ensures
            r == (RepositorySearchOptions { query: Some(query), ..self }),
    {
        let mut o = self;
        o.query = Some(query);
        o
    }

    /// Sets the category filter.
    pub fn with_category(self, category: String) -> (r: Self)
        ensures
            r == (RepositorySearchOptions { category: Some(category), ..self }),
    {
        let mut o = self;
        o.category = Some(category);
        o
    }

    /// Sets the page.
    pub fn with_page(self, page: u32) -> (r: Self)
        ensures
            r == (RepositorySearchOptions { page, ..self }),
    {
        let mut o = self;
        o.page = page;
        o
    }
}

/// Result of a repository search
#[derive(Debug, Clone)]
pub struct RepositorySearchResult {
    /// List of assets found
    pub assets: Vec<Asset>,
    /// Total number of results
    pub total_count: u32,
    /// Current page
    pub page: u32,
    /// Total pages
    pub total_pages: u32,
}

/// The kind of a Godot asset library at `location`: the official one, or a
/// compatible one elsewhere.
pub open spec fn godot_kind(location: Seq<char>) -> RepositoryType {
    if location == GODOT_ASSET_LIBRARY_API@ {
        RepositoryType::GodotAssetLibrary
    } else {
        RepositoryType::GodotCompatible
    }
}

/// Trait for repository adapters
pub trait RepositoryAdapter: Send + Sync {
    /// The kind of repository the adapter reaches.
    spec fn kind(&self) -> RepositoryType;

    /// The repository's base URL or path.
    spec fn location_text(&self) -> Seq<char>;

    /// Gets the repository type
    fn repository_type(&self) -> (r: RepositoryType)
        ensures
            r == self.kind(),
    ;

    /// Searches for assets in the repository
    fn search(&self, options: RepositorySearchOptions) -> Result<RepositorySearchResult, String>;

    /// Gets detailed information about a specific asset
    fn get_asset(&self, asset_id: &str) -> Result<Asset, String>;

    /// Lists all available categories
    fn list_categories(&self) -> Result<Vec<String>, String>;

    /// Performs a health check on the repository
    fn health_check(&self) -> Result<bool, String>;

    /// Gets the repository base URL or path
    fn get_location(&self) -> (r: String)
        ensures
            r@ == self.location_text(),
    ;
}

/// The message of the operations that the Godot adapter cannot do synchronously.
pub open spec fn not_implemented_message() -> Seq<char> {
    "Async operations not implemented in this context"@
}

/// The categories that the Godot Asset Library offers.
pub open spec fn godot_categories() -> Seq<Seq<char>> {
    seq!["2D Tools"@, "3D Tools"@, "Shaders"@, "Materials"@, "Tools"@, "Scripts"@, "Misc"@]
}

/// Adapter for Godot Asset Library (official and compatible)
pub struct GodotAssetLibraryAdapter {
    client: GodotAssetLibraryClient,
    location: String,
}

impl GodotAssetLibraryAdapter {
    /// The client that requests go through.
    pub closed spec fn client(self) -> GodotAssetLibraryClient {
        self.client
    }

    /// The base URL of the repository.
    pub closed spec fn location(self) -> Seq<char> {
        self.location@
    }

    /// Creates a new adapter for the official Godot Asset Library
    pub fn new_official() -> (r: Self)
        ensures
            r.location() == GODOT_ASSET_LIBRARY_API@,
            r.client().fresh(GODOT_ASSET_LIBRARY_API@),
    {
        Self { client: GodotAssetLibraryClient::new(), location: GODOT_ASSET_LIBRARY_API.to_string() }
    }

    /// Creates a new adapter for a custom Godot-compatible API
    pub fn new_custom(base_url: String) -> (r: Self)
        ensures
            r.location() == base_url@,
            r.client().fresh(base_url@),
    {
        Self { client: GodotAssetLibraryClient::with_url(base_url.clone()), location: base_url }
    }

    /// Creates a new adapter with authentication
    pub fn with_auth(self, token: String) -> (r: Self)
        ensures
            r.location() == self.location(),
            r.client().auth_token() == Some(token@),
            r.client().base_url() == self.client().base_url(),
            r.client().cache_enabled() == self.client().cache_enabled(),
            r.client().cache() == self.client().cache(),
            r.client().rate_limit() == self.client().rate_limit(),
            r.client().requests() == self.client().requests(),
    {
        Self { client: self.client.with_auth(token), location: self.location }
    }
}

/// The request parameters that search options stand for: query, category, page
/// and page size, and the sort field with its direction.
fn list_params_from(options: RepositorySearchOptions) -> (r: AssetListParams)
    ensures
        r.query == options.query,
        r.category == options.category,
        r.godot_version is None,
        r.support is None,
        r.sort == options.sort_by,
        match options.sort_by {
            Some(_) => r.sort_order matches Some(o) && o@ == if options.sort_ascending {
                "asc"@
            } else {
                "desc"@
            },
            None => r.sort_order is None,
        },
        r.page == Some(options.page),
        r.max_results == Some(options.page_size),
{
    let mut params = AssetListParams::new().with_page(options.page).with_max_results(options.page_size);
    match options.query {
        Some(q) => {
            params = params.with_query(q);
        },
        None => {},
    }
    match options.category {
        Some(c) => {
            params = params.with_category(c);
        },
        None => {},
    }
    match options.sort_by {
        Some(sort) => {
            let order = if options.sort_ascending { "asc".to_string() } else { "desc".to_string() };
            params = params.with_sort(sort, order);
        },
        None => {},
    }
    params
}

impl RepositoryAdapter for GodotAssetLibraryAdapter {
    open spec fn kind(&self) -> RepositoryType {
        godot_kind(self.location())
    }

    open spec fn location_text(&self) -> Seq<char> {
        self.location()
    }

    fn repository_type(&self) -> (r: RepositoryType)
        ensures
            r == godot_kind(self.location()),
    {
        if str_equal(self.location.as_str(), GODOT_ASSET_LIBRARY_API) {
            RepositoryType::GodotAssetLibrary
        } else {
            RepositoryType::GodotCompatible
        }
    }

    /// The search would go out as a listing request; it is not sent from here.
    fn search(&self, options: RepositorySearchOptions) -> (r: Result<RepositorySearchResult, String>)
        ensures
            r matches Err(e) && e@ == not_implemented_message(),
    {
        let _params = list_params_from(options);
        Err("Async operations not implemented in this context".to_string())
    }

    fn get_asset(&self, _asset_id: &str) -> (r: Result<Asset, String>)
        ensures
            r matches Err(e) && e@ == not_implemented_message(),
    {
        Err("Async operations not implemented in this context".to_string())
    }

    fn list_categories(&self) -> (r: Result<Vec<String>, String>)
        ensures
            r matches Ok(v) && v@.map_values(|s: String| s@) == godot_categories(),
    {
        let v = vec![
            "2D Tools".to_string(),
            "3D Tools".to_string(),
            "Shaders".to_string(),
            "Materials".to_string(),
            "Tools".to_string(),
            "Scripts".to_string(),
            "Misc".to_string(),
        ];
        assert(v@.map_values(|s: String| s@) =~= godot_categories());
        Ok(v)
    }

    fn health_check(&self) -> (r: Result<bool, String>)
        ensures
            r == Ok::<bool, String>(true),
    {
        Ok(true)
    }

    fn get_location(&self) -> (r: String)
        ensures
            r@ == self.location(),
    {
        self.location.clone()
    }
}

/// The asset matches a search text: its name or description holds the text,
/// all in lower case.
pub open spec fn query_hit(a: Asset, query: Seq<char>) -> bool {
    contains_seq(lowercase(a.name@), lowercase(query)) || contains_seq(lowercase(a.description@), lowercase(query))
}

/// The asset has one of the tags, or no tags are asked for.
pub open spec fn tag_hit(a: Asset, tags: Seq<String>) -> bool {
    tags.len() == 0 || exists|i: int| 0 <= i < tags.len() && #[trigger] has_string(a.tags@, tags[i]@)
}

/// Holds of an asset that every filter of the options lets through.
pub open spec fn search_filter(o: RepositorySearchOptions) -> spec_fn(Asset) -> bool {
    |a: Asset|
        (match o.query {
            Some(q) => query_hit(a, q@),
            None => true,
        }) && (match o.category {
            Some(c) => category_name(a.category) == c@,
            None => true,
        }) && tag_hit(a, o.tags@)
}

/// A search over `n` results can be paged: pages are not empty and the counts fit
/// in 32 bits.
pub open spec fn pageable(n: int, o: RepositorySearchOptions) -> bool {
    &&& o.page_size > 0
    &&& n + o.page_size - 1 <= u32::MAX
    &&& (o.page + 1) * o.page_size <= u32::MAX
}

/// The message of a search that cannot be paged.
pub open spec fn paging_error(o: RepositorySearchOptions) -> Seq<char> {
    if o.page_size == 0 {
        "Page size must be greater than zero"@
    } else {
        "Search page is out of range"@
    }
}

/// The number of pages of `n` results.
pub open spec fn page_count(n: int, page_size: u32) -> int {
    (n + page_size - 1) / (page_size as int)
}

/// The results on the page that the options ask for.
pub open spec fn page_of(s: Seq<Asset>, o: RepositorySearchOptions) -> Seq<Asset> {
    let start = o.page * o.page_size;
    let end = (o.page + 1) * o.page_size;
    s.subrange(if start < s.len() { start } else { s.len() as int }, if end < s.len() { end } else { s.len() as int })
}

/// JSON file-based repository adapter
pub struct JsonFileAdapter {
    file_path: String,
    assets: Vec<Asset>,
}

/// The category names of the assets, each once, in alphabetical order.
pub open spec fn categories_present(assets: Seq<Asset>) -> Seq<Seq<char>> {
    categories_by_name().filter(category_occurs(assets)).map_values(|c: AssetCategory| category_name(c))
}

/// Holds of a category that one of the assets falls in.
pub open spec fn category_occurs(assets: Seq<Asset>) -> spec_fn(AssetCategory) -> bool {
    |c: AssetCategory| exists|i: int| 0 <= i < assets.len() && #[trigger] assets[i].category == c
}

/// The categories in the alphabetical order of their names.
pub open spec fn categories_by_name() -> Seq<AssetCategory> {
    seq![
        AssetCategory::TwoD,
        AssetCategory::ThreeD,
        AssetCategory::Audio,
        AssetCategory::Demos,
        AssetCategory::Materials,
        AssetCategory::Misc,
        AssetCategory::Scripts,
        AssetCategory::Shaders,
        AssetCategory::Templates,
        AssetCategory::Tools,
    ]
}

/// The names of the categories that the assets fall in, each once, in
/// alphabetical order.
fn category_names_of(assets: &Vec<Asset>) -> (r: Vec<String>)
    ensures
        r@.map_values(|s: String| s@) == categories_present(assets@),
{
    let order: Vec<AssetCategory> = vec![
        AssetCategory::TwoD,
        AssetCategory::ThreeD,
        AssetCategory::Audio,
        AssetCategory::Demos,
        AssetCategory::Materials,
        AssetCategory::Misc,
        AssetCategory::Scripts,
        AssetCategory::Shaders,
        AssetCategory::Templates,
        AssetCategory::Tools,
    ];
    assert(order@ =~= categories_by_name());
    let ghost p = category_occurs(assets@);
    let mut r: Vec<String> = Vec::new();
    let mut k: usize = 0;
    while k < order.len()
        invariant
            k <= order@.len(),
            order@ == categories_by_name(),
            p == category_occurs(assets@),
            r@.map_values(|s: String| s@) == order@.take(k as int).filter(p).map_values(|c: AssetCategory| category_name(c)),
        decreases order.len() - k,
    {
        let c = order[k];
        let mut found = false;
        let mut i: usize = 0;
        while i < assets.len()
            invariant
                i <= assets@.len(),
                found <==> exists|j: int| 0 <= j < i && #[trigger] assets@[j].category == c,
            decreases assets.len() - i,
        {
            if assets[i].category == c {
                found = true;
            }
            i = i + 1;
        }
        proof { lemma_filter_step(order@, p, k as int); }
        let ghost before = r@;
        if found {
            r.push(c.to_string());
            assert(r@.map_values(|s: String| s@) =~= before.map_values(|s: String| s@).push(category_name(c)));
        }
        assert(order@.take(k + 1).filter(p).map_values(|c: AssetCategory| category_name(c)) =~= if p(c) {
            order@.take(k as int).filter(p).map_values(|c: AssetCategory| category_name(c)).push(category_name(c))
        } else {
            order@.take(k as int).filter(p).map_values(|c: AssetCategory| category_name(c))
        });
        k = k + 1;
    }
    assert(order@.take(k as int) =~= order@);
    r
}

/// The assets that the filters of the options let through, in order.
fn filter_assets(assets: &Vec<Asset>, options: &RepositorySearchOptions) -> (r: Vec<Asset>)
    ensures
        same_assets(r@, assets@.filter(search_filter(*options))),
{
    let ghost p = search_filter(*options);
    let query_lower: Option<Vec<char>> = match &options.query {
        Some(q) => Some(chars_of(to_lowercase_string(q.as_str()).as_str())),
        None => None,
    };
    let mut r: Vec<Asset> = Vec::new();
    let mut i: usize = 0;
    while i < assets.len()
        invariant
            i <= assets@.len(),
            p == search_filter(*options),
            match options.query {
                Some(q) => query_lower matches Some(l) && l@ == lowercase(q@),
                None => query_lower is None,
            },
            same_assets(r@, assets@.take(i as int).filter(p)),
        decreases assets.len() - i,
    {
        let a = &assets[i];
        proof { lemma_filter_step(assets@, p, i as int); }
        let query_ok = match &query_lower {
            Some(l) => {
                let name = chars_of(to_lowercase_string(a.name.as_str()).as_str());
                let desc = chars_of(to_lowercase_string(a.description.as_str()).as_str());
                contains_chars(&name, l) || contains_chars(&desc, l)
            },
            None => true,
        };
        let category_ok = match &options.category {
            Some(c) => str_equal(a.category.to_string().as_str(), c.as_str()),
            None => true,
        };
        let mut tags_ok = options.tags.len() == 0;
        let mut t: usize = 0;
        while t < options.tags.len() && !tags_ok
            invariant
                t <= options.tags@.len(),
                tags_ok ==> tag_hit(*a, options.tags@),
                !tags_ok ==> options.tags@.len() > 0 && forall|j: int| 0 <= j < t ==> !has_string(a.tags@, #[trigger] options.tags@[j]@),
            decreases options.tags.len() - t,
        {
            if contains_string(&a.tags, options.tags[t].as_str()) {
                tags_ok = true;
            }
            t = t + 1;
        }
        assert(tags_ok == tag_hit(*a, options.tags@));
        let ghost before = r@;
        if query_ok && category_ok && tags_ok {
            r.push(a.copy());
        }
        assert(same_assets(r@, assets@.take(i + 1).filter(p)));
        i = i + 1;
    }
    assert(assets@.take(i as int) =~= assets@);
    r
}

impl JsonFileAdapter {
    /// The path of the JSON file.
    pub closed spec fn file_path(self) -> Seq<char> {
        self.file_path@
    }

    /// The assets read from the file.
    pub closed spec fn assets(self) -> Seq<Asset> {
        self.assets@
    }

    /// Creates a new JSON file adapter (the file is not read yet: no assets).
    pub fn new(file_path: String) -> (r: Result<Self, String>)
        ensures
            r matches Ok(a) && a.file_path() == file_path@ && a.assets().len() == 0,
    {
        Ok(Self { file_path, assets: Vec::new() })
    }
}

/// The page of the results that the options ask for, with the counts.
fn paginate(matches: Vec<Asset>, options: &RepositorySearchOptions) -> (r: Result<RepositorySearchResult, String>)
    ensures
        r is Ok <==> pageable(matches@.len() as int, *options),
        r matches Err(e) ==> e@ == paging_error(*options),
        r matches Ok(res) ==> res.total_count == matches@.len() && res.total_pages == page_count(
            matches@.len() as int,
            options.page_size,
        ) && res.page == options.page && same_assets(res.assets@, page_of(matches@, *options)),
{
    if options.page_size == 0 {
        return Err("Page size must be greater than zero".to_string());
    }
    let n = matches.len();
    let ps = options.page_size as u64;
    let page = options.page as u64;
    assert((page + 1) * ps <= 0x1_0000_0000 * 0xffff_ffff) by (nonlinear_arith)
        requires
            page + 1 <= 0x1_0000_0000,
            ps <= 0xffff_ffff,
    ;
    if n as u64 > 0xffff_ffff - (ps - 1) || (page + 1) * ps > 0xffff_ffff {
        return Err("Search page is out of range".to_string());
    }
    assert(page * ps <= (page + 1) * ps) by (nonlinear_arith)
        requires
            ps >= 0,
    ;
    let total_count = n as u32;
    let total_pages = ((n as u64 + ps - 1) / ps) as u32;
    let start = page * ps;
    let end = (page + 1) * ps;
    let lo: usize = if start < n as u64 { start as usize } else { n };
    let hi: usize = if end < n as u64 { end as usize } else { n };
    let mut assets: Vec<Asset> = Vec::new();
    let mut i: usize = lo;
    while i < hi
        invariant
            lo <= i <= hi,
            hi <= matches@.len(),
            same_assets(assets@, matches@.subrange(lo as int, i as int)),
        decreases hi - i,
    {
        assets.push(matches[i].copy());
        assert(same_assets(assets@, matches@.subrange(lo as int, i + 1)));
        i = i + 1;
    }
    assert(page_of(matches@, *options) == matches@.subrange(lo as int, hi as int));
    Ok(RepositorySearchResult { assets, total_count, page: options.page, total_pages })
}

impl RepositoryAdapter for JsonFileAdapter {
    open spec fn kind(&self) -> RepositoryType {
        RepositoryType::JsonFile
    }

    open spec fn location_text(&self) -> Seq<char> {
        self.file_path()
    }

    fn repository_type(&self) -> (r: RepositoryType)
        ensures
            r == RepositoryType::JsonFile,
    {
        RepositoryType::JsonFile
    }

    /// The assets that match the query (in name or description, ignoring case),
    /// the category and any of the tags, a page at a time.
    fn search(&self, options: RepositorySearchOptions) -> (r: Result<RepositorySearchResult, String>)
        ensures
            ({
                let found = self.assets().filter(search_filter(options));
                &&& r is Ok <==> pageable(found.len() as int, options)
                &&& r matches Err(e) ==> e@ == paging_error(options)
                &&& r matches Ok(res) ==> res.total_count == found.len() && res.total_pages == page_count(
                    found.len() as int,
                    options.page_size,
                ) && res.page == options.page && (exists|m: Seq<Asset>| #[trigger] same_assets(m, found)
                    && same_assets(res.assets@, page_of(m, options)))
            }),
    {
        let matches = filter_assets(&self.assets, &options);
        let r = paginate(matches, &options);
        r
    }

    fn get_asset(&self, asset_id: &str) -> (r: Result<Asset, String>)
        ensures
            match r {
                Ok(a) => exists|i: int| 0 <= i < self.assets().len() && self.assets()[i].id@ == asset_id@ && same_asset_first(
                    self.assets(),
                    asset_id@,
                    i,
                    a,
                ),
                Err(e) => (forall|i: int| 0 <= i < self.assets().len() ==> #[trigger] self.assets()[i].id@ != asset_id@)
                    && e@ == "Asset '"@ + asset_id@ + "' not found"@,
            },
    {
        let mut i: usize = 0;
        while i < self.assets.len()
            invariant
                i <= self.assets@.len(),
                forall|j: int| 0 <= j < i ==> #[trigger] self.assets@[j].id@ != asset_id@,
            decreases self.assets.len() - i,
        {
            if str_equal(self.assets[i].id.as_str(), asset_id) {
                let a = self.assets[i].copy();
                assert(same_asset_first(self.assets@, asset_id@, i as int, a));
                return Ok(a);
            }
            i = i + 1;
        }
        let mut m = "Asset '".to_string();
        m.append(asset_id);
        m.append("' not found");
        Err(m)
    }

    fn list_categories(&self) -> (r: Result<Vec<String>, String>)
        ensures
            r matches Ok(v) && v@.map_values(|s: String| s@) == categories_present(self.assets()),
    {
        Ok(category_names_of(&self.assets))
    }

    /// Whether the file exists (as the file system answers).
    fn health_check(&self) -> (r: Result<bool, String>)
        ensures
            r is Ok,
    {
        Ok(path_exists(self.file_path.as_str()))
    }

    fn get_location(&self) -> (r: String)
        ensures
            r@ == self.file_path(),
    {
        self.file_path.clone()
    }
}

/// `a` is a copy of the asset at `i`, the first with the ID.
pub open spec fn same_asset_first(assets: Seq<Asset>, id: Seq<char>, i: int, a: Asset) -> bool {
    &&& crate::asset::same_asset(a, assets[i])
    &&& forall|j: int| 0 <= j < i ==> #[trigger] assets[j].id@ != id
}

/// Local directory adapter for file-based repositories
pub struct LocalDirectoryAdapter {
    directory: String,
    manifest_file: String,
}

impl LocalDirectoryAdapter {
    /// The directory of the repository.
    pub closed spec fn directory(self) -> Seq<char> {
        self.directory@
    }

    /// The name of the manifest files it holds.
    pub closed spec fn manifest_file(self) -> Seq<char> {
        self.manifest_file@
    }

    /// Creates a new local directory adapter
    pub fn new(directory: String, manifest_file: String) -> (r: Self)
        ensures
            r.directory() == directory@,
            r.manifest_file() == manifest_file@,
    {
        Self { directory, manifest_file }
    }

    /// The assets that the directory's manifests describe (none are read yet).
    fn scan_directory(&self) -> (r: Result<Vec<Asset>, String>)
        ensures
            r matches Ok(v) && v@.len() == 0,
    {
        Ok(Vec::new())
    }
}

impl RepositoryAdapter for LocalDirectoryAdapter {
    open spec fn kind(&self) -> RepositoryType {
        RepositoryType::LocalDirectory
    }

    open spec fn location_text(&self) -> Seq<char> {
        self.directory()
    }

    fn repository_type(&self) -> (r: RepositoryType)
        ensures
            r == RepositoryType::LocalDirectory,
    {
        RepositoryType::LocalDirectory
    }

    /// Every asset of the directory (none, as no manifest is read yet), on one page.
    fn search(&self, options: RepositorySearchOptions) -> (r: Result<RepositorySearchResult, String>)
        ensures
            r is Ok <==> options.page_size > 0,
            r matches Err(e) ==> e@ == paging_error(options),
            r matches Ok(res) ==> res.total_count == 0 && res.total_pages == 0 && res.page == options.page
                && res.assets@.len() == 0,
    {
        let assets = match self.scan_directory() {
            Ok(a) => a,
            Err(e) => {
                return Err(e);
            },
        };
        if options.page_size == 0 {
            return Err("Page size must be greater than zero".to_string());
        }
        let total_count = assets.len() as u32;
        let total_pages = (0 + options.page_size - 1) / options.page_size;
        assert((options.page_size - 1) / (options.page_size as int) == 0) by (nonlinear_arith)
            requires
                options.page_size > 0,
        ;
        Ok(RepositorySearchResult { assets, total_count, page: options.page, total_pages })
    }

    fn get_asset(&self, asset_id: &str) -> (r: Result<Asset, String>)
        ensures
            r matches Err(e) && e@ == "Asset '"@ + asset_id@ + "' not found"@,
    {
        match self.scan_directory() {
            Ok(_) => {},
            Err(e) => {
                return Err(e);
            },
        }
        let mut m = "Asset '".to_string();
        m.append(asset_id);
        m.append("' not found");
        Err(m)
    }

    fn list_categories(&self) -> (r: Result<Vec<String>, String>)
        ensures
            r matches Ok(v) && v@.len() == 0,
    {
        let assets = match self.scan_directory() {
            Ok(a) => a,
            Err(e) => {
                return Err(e);
            },
        };
        let names = category_names_of(&assets);
        assert(categories_present(assets@) =~= Seq::<Seq<char>>::empty()) by {
            let f = categories_by_name().filter(category_occurs(assets@));
            if f.len() > 0 {
                categories_by_name().lemma_filter_pred(category_occurs(assets@), 0);
            }
        }
        assert(names@.len() == 0);
        Ok(names)
    }

    /// Whether a directory is at the path (as the file system answers).
    fn health_check(&self) -> (r: Result<bool, String>)
        ensures
            r is Ok,
    {
        Ok(path_exists(self.directory.as_str()) && path_is_dir(self.directory.as_str()))
    }

    fn get_location(&self) -> (r: String)
        ensures
            r@ == self.directory(),
    {
        self.directory.clone()
    }
}

/// Repository adapter factory
pub struct RepositoryAdapterFactory;

/// The message for repository kinds that have no adapter.
pub open spec fn git_not_implemented() -> Seq<char> {
    "Git repository adapter not yet implemented"@
}

impl RepositoryAdapterFactory {
    /// Creates a repository adapter based on configuration: every kind but Git
    /// repositories has one.
    pub fn create_adapter(repo_type: RepositoryType, location: String, auth_token: Option<String>) -> (r: Result<
        Box<dyn RepositoryAdapter>,
        String,
    >)
        ensures
            r is Ok <==> repo_type != RepositoryType::GitRepository,
            r matches Err(e) ==> e@ == git_not_implemented(),
            r matches Ok(a) ==> a.location_text() == if repo_type == RepositoryType::GodotAssetLibrary {
                GODOT_ASSET_LIBRARY_API@
            } else {
                location@
            },
            r matches Ok(a) ==> a.kind() == match repo_type {
                RepositoryType::GodotAssetLibrary => RepositoryType::GodotAssetLibrary,
                RepositoryType::GodotCompatible => godot_kind(location@),
                _ => repo_type,
            },
    {
        match repo_type {
            RepositoryType::GodotAssetLibrary => {
                let mut adapter = GodotAssetLibraryAdapter::new_official();
                match auth_token {
                    Some(token) => {
                        adapter = adapter.with_auth(token);
                    },
                    None => {},
                }
                Ok(Box::new(adapter))
            },
            RepositoryType::GodotCompatible => {
                let mut adapter = GodotAssetLibraryAdapter::new_custom(location);
                match auth_token {
                    Some(token) => {
                        adapter = adapter.with_auth(token);
                    },
                    None => {},
                }
                Ok(Box::new(adapter))
            },
            RepositoryType::JsonFile => {
                match JsonFileAdapter::new(location) {
                    Ok(adapter) => Ok(Box::new(adapter)),
                    Err(e) => Err(e),
                }
            },
            RepositoryType::LocalDirectory => {
                let adapter = LocalDirectoryAdapter::new(location, "asset.json".to_string());
                Ok(Box::new(adapter))
            },
            RepositoryType::GitRepository => Err("Git repository adapter not yet implemented".to_string()),
        }
    }
}

} // verus!
