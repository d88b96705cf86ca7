//! The local asset catalogue: listing, searching and paging the known assets,
//! tracking which of them are installed, and the decisions of installing,
//! updating and importing them.
//!
//! Downloads, archive extraction and the files on disk are handled by the
//! application around this crate; the values it reads come in as arguments.
use vstd::prelude::*;
use crate::asset::{Asset, AssetCategory, AssetDependency, same_asset, same_assets};
use crate::keyed::{contains_string, has_string};
use crate::repository_adapter::same_asset_first;
use crate::seqs::{first_index, lemma_filter_step, lemma_first_index_absent, lemma_first_index_found};
use crate::text::{
    char_is_whitespace, chars_of, contains_chars, contains_seq, copy_strings, ends_with, ends_with_chars,
    is_whitespace, lemma_split_nonempty, lowercase, opt_view, parse_u32, parse_u32_spec, split_chars, split_spec,
    str_equal, string_from_chars, to_lowercase_string,
};

verus! {

/// Metadata file name expected in asset archives
pub const ASSET_METADATA_FILE: &'static str = "asset.json";

/// Temporary directory suffix for extraction before validation
pub const TEMP_EXTRACT_SUFFIX: &'static str = ".tmp_extract";

// ===== Search =====

/// The texts of a list of strings.
pub open spec fn texts(s: Seq<String>) -> Seq<Seq<char>> {
    s.map_values(|t: String| t@)
}

/// The lower-case forms of the texts of a list of strings.
pub open spec fn lowered(s: Seq<String>) -> Seq<Seq<char>> {
    s.map_values(|t: String| lowercase(t@))
}

/// One of the asset's tags holds the query, both in lower case.
pub open spec fn tag_holds(a: Asset, query: Seq<char>) -> bool {
    exists|j: int| 0 <= j < a.tags@.len() && contains_seq(lowercase(#[trigger] a.tags@[j]@), lowercase(query))
}

/// The asset's name, one of its tags or its description holds the query, all
/// compared in lower case.
pub open spec fn search_hit(query: Seq<char>) -> spec_fn(Asset) -> bool {
    |a: Asset|
        contains_seq(lowercase(a.name@), lowercase(query)) || tag_holds(a, query) || contains_seq(
            lowercase(a.description@),
            lowercase(query),
        )
}

/// The asset falls in the category.
pub open spec fn in_category(c: AssetCategory) -> spec_fn(Asset) -> bool {
    |a: Asset| a.category == c
}

/// The asset has an ID other than `id`.
pub open spec fn other_id(id: Seq<char>) -> spec_fn(Asset) -> bool {
    |a: Asset| a.id@ != id
}

/// Pre-computed lower-case texts of the catalogue, one entry per asset, in the
/// catalogue's order.
struct SearchIndex {
    lowercase_names: Vec<String>,
    lowercase_tags: Vec<Vec<String>>,
    lowercase_descriptions: Vec<String>,
}

/// Entry `i` of the index holds the lower-case texts of asset `i`.
spec fn index_entry(idx: SearchIndex, assets: Seq<Asset>, i: int) -> bool {
    &&& idx.lowercase_names@[i]@ == lowercase(assets[i].name@)
    &&& idx.lowercase_descriptions@[i]@ == lowercase(assets[i].description@)
    &&& texts(idx.lowercase_tags@[i]@) == lowered(assets[i].tags@)
}

/// The index describes exactly the assets.
spec fn indexes(idx: SearchIndex, assets: Seq<Asset>) -> bool {
    &&& idx.lowercase_names@.len() == assets.len()
    &&& idx.lowercase_tags@.len() == assets.len()
    &&& idx.lowercase_descriptions@.len() == assets.len()
    &&& forall|i: int| 0 <= i < assets.len() ==> #[trigger] index_entry(idx, assets, i)
}

/// The lower-case forms of the strings.
fn lowercase_all(v: &Vec<String>) -> (r: Vec<String>)
    ensures
        texts(r@) == lowered(v@),
{
    let mut r: Vec<String> = Vec::new();
    let mut i: usize = 0;
    while i < v.len()
        invariant
            i <= v@.len(),
            texts(r@) == lowered(v@.take(i as int)),
        decreases v.len() - i,
    {
        r.push(to_lowercase_string(v[i].as_str()));
        assert(lowered(v@.take(i + 1)) =~= lowered(v@.take(i as int)).push(lowercase(v@[i as int]@)));
        assert(texts(r@) =~= lowered(v@.take(i + 1)));
        i = i + 1;
    }
    assert(v@.take(i as int) =~= v@);
    r
}

/// Builds the index of the assets.
fn build_index(assets: &Vec<Asset>) -> (r: SearchIndex)
    ensures
        indexes(r, assets@),
{
    let mut names: Vec<String> = Vec::new();
    let mut tags: Vec<Vec<String>> = Vec::new();
    let mut descriptions: Vec<String> = Vec::new();
    let mut i: usize = 0;
    while i < assets.len()
        invariant
            i <= assets@.len(),
            indexes(
                SearchIndex { lowercase_names: names, lowercase_tags: tags, lowercase_descriptions: descriptions },
                assets@.take(i as int),
            ),
        decreases assets.len() - i,
    {
        let ghost before = SearchIndex { lowercase_names: names, lowercase_tags: tags, lowercase_descriptions: descriptions };
        names.push(to_lowercase_string(assets[i].name.as_str()));
        descriptions.push(to_lowercase_string(assets[i].description.as_str()));
        tags.push(lowercase_all(&assets[i].tags));
        let ghost after = SearchIndex { lowercase_names: names, lowercase_tags: tags, lowercase_descriptions: descriptions };
        assert forall|j: int| 0 <= j < i + 1 implies #[trigger] index_entry(after, assets@.take(i + 1), j) by {
            if j < i {
                assert(index_entry(before, assets@.take(i as int), j));
            }
        }
        i = i + 1;
    }
    assert(assets@.take(i as int) =~= assets@);
    SearchIndex { lowercase_names: names, lowercase_tags: tags, lowercase_descriptions: descriptions }
}

/// One of the texts holds the needle.
fn any_contains(texts_lower: &Vec<String>, needle: &Vec<char>) -> (r: bool)
    ensures
        r == exists|j: int| 0 <= j < texts_lower@.len() && contains_seq(#[trigger] texts_lower@[j]@, needle@),
{
    let mut i: usize = 0;
    while i < texts_lower.len()
        invariant
            i <= texts_lower@.len(),
            forall|j: int| 0 <= j < i ==> !contains_seq(#[trigger] texts_lower@[j]@, needle@),
        decreases texts_lower.len() - i,
    {
        if contains_chars(&chars_of(texts_lower[i].as_str()), needle) {
            return true;
        }
        i = i + 1;
    }
    false
}

impl SearchIndex {
    /// The assets that the query hits, in order.
    fn search(&self, query: &str, assets: &Vec<Asset>) -> (r: Vec<Asset>)
        requires
            indexes(*self, assets@),
        ensures
            same_assets(r@, assets@.filter(search_hit(query@))),
    {
        let ghost p = search_hit(query@);
        let q = chars_of(to_lowercase_string(query).as_str());
        let mut r: Vec<Asset> = Vec::new();
        let mut i: usize = 0;
        while i < assets.len()
            invariant
                i <= assets@.len(),
                indexes(*self, assets@),
                p == search_hit(query@),
                q@ == lowercase(query@),
                same_assets(r@, assets@.take(i as int).filter(p)),
            decreases assets.len() - i,
        {
            proof {
                lemma_filter_step(assets@, p, i as int);
                assert(index_entry(*self, assets@, i as int));
            }
            let a = &assets[i];
            let name_hit = contains_chars(&chars_of(self.lowercase_names[i].as_str()), &q);
            let tag_hit = any_contains(&self.lowercase_tags[i], &q);
            let desc_hit = contains_chars(&chars_of(self.lowercase_descriptions[i].as_str()), &q);
            proof {
                let lt = self.lowercase_tags@[i as int]@;
                assert(texts(lt) == lowered(a.tags@));
                assert(texts(lt).len() == lt.len());
                assert(lowered(a.tags@).len() == a.tags@.len());
                if tag_hit {
                    let j = choose|j: int| 0 <= j < lt.len() && contains_seq(#[trigger] lt[j]@, q@);
                    assert(texts(lt)[j] == lowered(a.tags@)[j]);
                    assert(contains_seq(lowercase(a.tags@[j]@), lowercase(query@)));
                }
                if tag_holds(*a, query@) {
                    let j = choose|j: int| 0 <= j < a.tags@.len() && contains_seq(lowercase(#[trigger] a.tags@[j]@), lowercase(query@));
                    assert(texts(lt)[j] == lowered(a.tags@)[j]);
                    assert(texts(lt)[j] == lt[j]@);
                    assert(lowered(a.tags@)[j] == lowercase(a.tags@[j]@));
                    assert(contains_seq(lt[j]@, q@));
                }
            }
            if name_hit || tag_hit || desc_hit {
                r.push(a.copy());
            }
            assert(same_assets(r@, assets@.take(i + 1).filter(p)));
            i = i + 1;
        }
        assert(assets@.take(i as int) =~= assets@);
        r
    }
}

/// The assets of the catalogue together with their search index.
struct Catalog {
    assets: Vec<Asset>,
    index: SearchIndex,
}

impl Catalog {
    #[verifier::type_invariant]
    spec fn inv(self) -> bool {
        indexes(self.index, self.assets@)
    }

    /// The catalogue of the assets, with its index built.
    fn build(assets: Vec<Asset>) -> (r: Self)
        ensures
            r.assets@ == assets@,
    {
        let index = build_index(&assets);
        Catalog { assets, index }
    }
}


/// A copy of each asset, in order.
fn copy_assets(v: &Vec<Asset>) -> (r: Vec<Asset>)
    ensures
        same_assets(r@, v@),
{
    let mut r: Vec<Asset> = Vec::new();
    let mut i: usize = 0;
    while i < v.len()
        invariant
            i <= v@.len(),
            same_assets(r@, v@.take(i as int)),
        decreases v.len() - i,
    {
        r.push(v[i].copy());
        i = i + 1;
    }
    assert(v@.take(i as int) =~= v@);
    r
}

/// Drops, in place, the assets with the ID, keeping the others in order.
fn retain_other_ids(v: &mut Vec<Asset>, id: &str)
    ensures
        final(v)@ == old(v)@.filter(other_id(id@)),
{
    let ghost orig = v@;
    let ghost p = other_id(id@);
    let ghost mut k: int = 0;
    let mut i: usize = 0;
    while i < v.len()
        invariant
            0 <= k <= orig.len(),
            p == other_id(id@),
            i == orig.take(k).filter(p).len(),
            v@ == orig.take(k).filter(p) + orig.skip(k),
        decreases v.len() - i,
    {
        proof {
            lemma_filter_step(orig, p, k);
            assert(v@[i as int] == orig[k]);
        }
        if str_equal(v[i].id.as_str(), id) {
            v.remove(i);
        } else {
            i = i + 1;
        }
        proof {
            k = k + 1;
        }
        assert(v@ =~= orig.take(k).filter(p) + orig.skip(k));
    }
    assert(orig.take(k) =~= orig);
}

/// Three strings, in order.
fn three_strings(a: &str, b: &str, c: &str) -> (r: Vec<String>)
    ensures
        texts(r@) == seq![a@, b@, c@],
{
    let r = vec![a.to_string(), b.to_string(), c.to_string()];
    assert(texts(r@) =~= seq![a@, b@, c@]);
    r
}

/// The asset holds the given data, with no path, dependencies or version history.
pub open spec fn sample_asset(
    a: Asset,
    id: Seq<char>,
    name: Seq<char>,
    category: AssetCategory,
    author: Seq<char>,
    version: Seq<char>,
    description: Seq<char>,
    tags: Seq<Seq<char>>,
    preview: Option<Seq<char>>,
    download: Seq<char>,
) -> bool {
    &&& a.id@ == id
    &&& a.name@ == name
    &&& a.category == category
    &&& a.path@.len() == 0
    &&& a.author@ == author
    &&& a.version@ == version
    &&& a.description@ == description
    &&& texts(a.tags@) == tags
    &&& opt_view(a.preview_url) == preview
    &&& a.download_url@ == download
    &&& a.dependencies@.len() == 0
    &&& a.version_history@.len() == 0
}

/// The five sample assets that a new manager starts with.
pub open spec fn sample_catalog(s: Seq<Asset>) -> bool {
    &&& s.len() == 5
    &&& sample_asset(
        s[0],
        "1"@,
        "Awesome 2D Sprites"@,
        AssetCategory::TwoD,
        "JohnDoe"@,
        "1.0.0"@,
        "A collection of high-quality 2D sprites for your game"@,
        seq!["sprites"@, "2d"@, "pixel-art"@],
        Some("https://example.com/preview1.png"@),
        "https://example.com/download1.zip"@,
    )
    &&& sample_asset(
        s[1],
        "2"@,
        "3D Character Models"@,
        AssetCategory::ThreeD,
        "JaneSmith"@,
        "2.1.0"@,
        "Professional 3D character models with animations"@,
        seq!["3d"@, "characters"@, "models"@],
        Some("https://example.com/preview2.png"@),
        "https://example.com/download2.zip"@,
    )
    &&& sample_asset(
        s[2],
        "3"@,
        "Shader Pack Pro"@,
        AssetCategory::Shaders,
        "ShaderWizard"@,
        "3.0.5"@,
        "Advanced shader collection for stunning visual effects"@,
        seq!["shaders"@, "effects"@, "graphics"@],
        Some("https://example.com/preview3.png"@),
        "https://example.com/download3.zip"@,
    )
    &&& sample_asset(
        s[3],
        "4"@,
        "Audio Effects Library"@,
        AssetCategory::Audio,
        "SoundMaster"@,
        "1.5.2"@,
        "Comprehensive audio effects and music tracks"@,
        seq!["audio"@, "sound"@, "music"@],
        Some("https://example.com/preview4.png"@),
        "https://example.com/download4.zip"@,
    )
    &&& sample_asset(
        s[4],
        "5"@,
        "Utility Scripts Collection"@,
        AssetCategory::Scripts,
        "CodeNinja"@,
        "4.2.0"@,
        "Essential utility scripts for game development"@,
        seq!["scripts"@, "utilities"@, "gdscript"@],
        None,
        "https://example.com/download5.zip"@,
    )
}

/// The sample assets of a new manager.
fn sample_assets() -> (r: Vec<Asset>)
    ensures
        sample_catalog(r@),
{
    let mut assets: Vec<Asset> = Vec::new();
    assets.push(Asset::new(
        "1".to_string(),
        "Awesome 2D Sprites".to_string(),
        AssetCategory::TwoD,
        "".to_string(),
        "JohnDoe".to_string(),
        "1.0.0".to_string(),
        "A collection of high-quality 2D sprites for your game".to_string(),
        three_strings("sprites", "2d", "pixel-art"),
        Some("https://example.com/preview1.png".to_string()),
        "https://example.com/download1.zip".to_string(),
        Vec::new(),
        Vec::new(),
    ));
    assets.push(Asset::new(
        "2".to_string(),
        "3D Character Models".to_string(),
        AssetCategory::ThreeD,
        "".to_string(),
        "JaneSmith".to_string(),
        "2.1.0".to_string(),
        "Professional 3D character models with animations".to_string(),
        three_strings("3d", "characters", "models"),
        Some("https://example.com/preview2.png".to_string()),
        "https://example.com/download2.zip".to_string(),
        Vec::new(),
        Vec::new(),
    ));
    assets.push(Asset::new(
        "3".to_string(),
        "Shader Pack Pro".to_string(),
        AssetCategory::Shaders,
        "".to_string(),
        "ShaderWizard".to_string(),
        "3.0.5".to_string(),
        "Advanced shader collection for stunning visual effects".to_string(),
        three_strings("shaders", "effects", "graphics"),
        Some("https://example.com/preview3.png".to_string()),
        "https://example.com/download3.zip".to_string(),
        Vec::new(),
        Vec::new(),
    ));
    assets.push(Asset::new(
        "4".to_string(),
        "Audio Effects Library".to_string(),
        AssetCategory::Audio,
        "".to_string(),
        "SoundMaster".to_string(),
        "1.5.2".to_string(),
        "Comprehensive audio effects and music tracks".to_string(),
        three_strings("audio", "sound", "music"),
        Some("https://example.com/preview4.png".to_string()),
        "https://example.com/download4.zip".to_string(),
        Vec::new(),
        Vec::new(),
    ));
    assets.push(Asset::new(
        "5".to_string(),
        "Utility Scripts Collection".to_string(),
        AssetCategory::Scripts,
        "".to_string(),
        "CodeNinja".to_string(),
        "4.2.0".to_string(),
        "Essential utility scripts for game development".to_string(),
        three_strings("scripts", "utilities", "gdscript"),
        None,
        "https://example.com/download5.zip".to_string(),
        Vec::new(),
        Vec::new(),
    ));
    proof {
        reveal_strlit("");
    }
    assets
}

/// The asset has the ID.
pub open spec fn has_id(id: Seq<char>) -> spec_fn(Asset) -> bool {
    |a: Asset| a.id@ == id
}

/// The assets on a page: `page_size` of them from `page * page_size` on, fewer on
/// the last page, none past the end.
pub open spec fn page_slice(s: Seq<Asset>, page: int, page_size: int) -> Seq<Asset> {
    let start = page * page_size;
    let end = start + page_size;
    if start >= s.len() {
        Seq::empty()
    } else {
        s.subrange(start, if end < s.len() { end } else { s.len() as int })
    }
}

/// Keeps the local asset catalogue and the list of installed assets.
pub struct AssetManager {
    asset_dir: String,
    cache_dir: String,
    catalog: Catalog,
    installed_assets: Vec<String>,
}

impl AssetManager {
    /// The assets of the catalogue, in order.
    pub closed spec fn catalog(self) -> Seq<Asset> {
        self.catalog.assets@
    }

    /// The IDs of the installed assets, in the order they were installed.
    pub closed spec fn installed(self) -> Seq<Seq<char>> {
        texts(self.installed_assets@)
    }

    /// The directory that assets are installed into.
    pub closed spec fn asset_dir(self) -> Seq<char> {
        self.asset_dir@
    }

    /// The directory that downloads are cached in.
    pub closed spec fn cache_dir(self) -> Seq<char> {
        self.cache_dir@
    }

    /// Creates a new AssetManager instance with default configuration: assets go
    /// to `res://addons/`, downloads to `user://asset_cache/`, nothing is
    /// installed, and the catalogue holds the sample assets.
    pub fn new() -> (r: Self)
        ensures
            r.asset_dir() == "res://addons/"@,
            r.cache_dir() == "user://asset_cache/"@,
            sample_catalog(r.catalog()),
            r.installed().len() == 0,
    {
        AssetManager {
            asset_dir: "res://addons/".to_string(),
            cache_dir: "user://asset_cache/".to_string(),
            catalog: Catalog::build(sample_assets()),
            installed_assets: Vec::new(),
        }
    }

    /// The directory that assets are installed into.
    pub fn get_asset_dir(&self) -> (r: &str)
        ensures
            r@ == self.asset_dir(),
    {
        self.asset_dir.as_str()
    }

    /// The directory that downloads are cached in.
    pub fn get_cache_dir(&self) -> (r: &str)
        ensures
            r@ == self.cache_dir(),
    {
        self.cache_dir.as_str()
    }

    /// Retrieves all assets from the asset library.
    pub fn get_assets(&self) -> (r: Vec<Asset>)
        ensures
            same_assets(r@, self.catalog()),
    {
        copy_assets(&self.catalog.assets)
    }

    /// Retrieves assets filtered by category, in catalogue order.
    pub fn get_assets_by_category(&self, category: AssetCategory) -> (r: Vec<Asset>)
        ensures
            same_assets(r@, self.catalog().filter(in_category(category))),
    {
        let ghost p = in_category(category);
        let v = &self.catalog.assets;
        let mut r: Vec<Asset> = Vec::new();
        let mut i: usize = 0;
        while i < v.len()
            invariant
                i <= v@.len(),
                p == in_category(category),
                same_assets(r@, v@.take(i as int).filter(p)),
            decreases v.len() - i,
        {
            proof { lemma_filter_step(v@, p, i as int); }
            if v[i].category == category {
                r.push(v[i].copy());
            }
            i = i + 1;
        }
        assert(v@.take(i as int) =~= v@);
        r
    }

    /// Searches for assets by name, tags, or description, ignoring case.
    pub fn search_assets(&self, query: &str) -> (r: Vec<Asset>)
        ensures
            same_assets(r@, self.catalog().filter(search_hit(query@))),
    {
        proof { use_type_invariant(&self.catalog); }
        self.catalog.index.search(query, &self.catalog.assets)
    }

    /// The assets of one page (0-indexed) of `page_size` assets.
    pub fn get_assets_paginated(&self, page: usize, page_size: usize) -> (r: Vec<Asset>)
        requires
            page * page_size + page_size <= usize::MAX,
        ensures
            same_assets(r@, page_slice(self.catalog(), page as int, page_size as int)),
    {
        let v = &self.catalog.assets;
        let start = page * page_size;
        let end = if start + page_size < v.len() { start + page_size } else { v.len() };
        if start >= v.len() {
            return Vec::new();
        }
        let mut r: Vec<Asset> = Vec::new();
        let mut i: usize = start;
        while i < end
            invariant
                start <= i <= end,
                end <= v@.len(),
                same_assets(r@, v@.subrange(start as int, i as int)),
            decreases end - i,
        {
            r.push(v[i].copy());
            assert(same_assets(r@, v@.subrange(start as int, i + 1)));
            i = i + 1;
        }
        r
    }

    /// Gets the total number of assets.
    pub fn get_asset_count(&self) -> (r: usize)
        ensures
            r == self.catalog().len(),
    {
        self.catalog.assets.len()
    }

    /// Retrieves the first asset with the ID.
    pub fn get_asset_by_id(&self, id: &str) -> (r: Option<Asset>)
        ensures
            ({
                let i = first_index(self.catalog(), has_id(id@));
                &&& r is Some <==> i >= 0
                &&& r matches Some(a) ==> same_asset(a, self.catalog()[i])
            }),
    {
        let v = &self.catalog.assets;
        let mut i: usize = 0;
        while i < v.len()
            invariant
                i <= v@.len(),
                v@ == self.catalog(),
                forall|j: int| 0 <= j < i ==> !has_id(id@)(#[trigger] v@[j]),
            decreases v.len() - i,
        {
            if str_equal(v[i].id.as_str(), id) {
                proof { lemma_first_index_found(v@, has_id(id@), i as int); }
                return Some(v[i].copy());
            }
            i = i + 1;
        }
        proof { lemma_first_index_absent(v@, has_id(id@)); }
        None
    }

    /// Checks if an asset is currently installed.
    pub fn is_asset_installed(&self, asset_id: &str) -> (r: bool)
        ensures
            r == self.installed().contains(asset_id@),
    {
        let r = contains_string(&self.installed_assets, asset_id);
        proof {
            if r {
                let j = choose|j: int| 0 <= j < self.installed_assets@.len() && self.installed_assets@[j]@ == asset_id@;
                assert(self.installed()[j] == asset_id@);
            }
            if self.installed().contains(asset_id@) {
                let j = choose|j: int| 0 <= j < self.installed().len() && self.installed()[j] == asset_id@;
                assert(self.installed_assets@[j]@ == asset_id@);
            }
        }
        r
    }

    /// Retrieves a list of all installed asset IDs.
    pub fn get_installed_assets(&self) -> (r: Vec<String>)
        ensures
            texts(r@) == self.installed(),
    {
        copy_strings(&self.installed_assets)
    }

    /// Tracks the asset as installed, once.
    pub fn record_installed(&mut self, asset_id: String)
        ensures
            final(self).installed() == if old(self).installed().contains(asset_id@) {
                old(self).installed()
            } else {
                old(self).installed().push(asset_id@)
            },
            final(self).catalog() == old(self).catalog(),
            final(self).asset_dir() == old(self).asset_dir(),
            final(self).cache_dir() == old(self).cache_dir(),
    {
        if !self.is_asset_installed(asset_id.as_str()) {
            self.installed_assets.push(asset_id);
            assert(self.installed() =~= old(self).installed().push(asset_id@));
        }
    }

    /// Stops tracking the asset as installed.
    pub fn record_uninstalled(&mut self, asset_id: &str)
        ensures
            final(self).installed() == old(self).installed().filter(|s: Seq<char>| s != asset_id@),
            final(self).catalog() == old(self).catalog(),
            final(self).asset_dir() == old(self).asset_dir(),
            final(self).cache_dir() == old(self).cache_dir(),
    {
        let ghost p = |s: Seq<char>| s != asset_id@;
        let mut kept: Vec<String> = Vec::new();
        let mut i: usize = 0;
        while i < self.installed_assets.len()
            invariant
                i <= self.installed_assets@.len(),
                p == (|s: Seq<char>| s != asset_id@),
                texts(kept@) == texts(self.installed_assets@).take(i as int).filter(p),
            decreases self.installed_assets.len() - i,
        {
            proof { lemma_filter_step(texts(self.installed_assets@), p, i as int); }
            if !str_equal(self.installed_assets[i].as_str(), asset_id) {
                kept.push(self.installed_assets[i].clone());
                assert(texts(kept@) =~= texts(self.installed_assets@).take(i as int).filter(p).push(self.installed_assets@[i as int]@));
            }
            i = i + 1;
        }
        assert(texts(self.installed_assets@).take(i as int) =~= texts(self.installed_assets@));
        self.installed_assets = kept;
    }

    /// Adds an asset to the local catalogue, in place of any with the same ID.
    pub fn add_asset(&mut self, asset: Asset)
        ensures
            final(self).catalog() == old(self).catalog().filter(other_id(asset.id@)).push(asset),
            final(self).installed() == old(self).installed(),
            final(self).asset_dir() == old(self).asset_dir(),
            final(self).cache_dir() == old(self).cache_dir(),
    {
        let mut current = Catalog::build(Vec::new());
        std::mem::swap(&mut current, &mut self.catalog);
        let Catalog { assets, index: _ } = current;
        let mut assets = assets;
        retain_other_ids(&mut assets, asset.id.as_str());
        assets.push(asset);
        self.catalog = Catalog::build(assets);
    }

    /// Removes the assets with the ID from the local catalogue.
    pub fn remove_asset(&mut self, asset_id: &str)
        ensures
            final(self).catalog() == old(self).catalog().filter(other_id(asset_id@)),
            final(self).installed() == old(self).installed(),
            final(self).asset_dir() == old(self).asset_dir(),
            final(self).cache_dir() == old(self).cache_dir(),
    {
        let mut current = Catalog::build(Vec::new());
        std::mem::swap(&mut current, &mut self.catalog);
        let Catalog { assets, index: _ } = current;
        let mut assets = assets;
        retain_other_ids(&mut assets, asset_id);
        self.catalog = Catalog::build(assets);
    }

    /// Replaces the whole catalogue, as a refresh from the asset sources does.
    pub fn replace_assets(&mut self, assets: Vec<Asset>)
        ensures
            final(self).catalog() == assets@,
            final(self).installed() == old(self).installed(),
            final(self).asset_dir() == old(self).asset_dir(),
            final(self).cache_dir() == old(self).cache_dir(),
    {
        self.catalog = Catalog::build(assets);
    }

    /// The sizes of the three lists of the search index: names, tags and
    /// descriptions, one entry per asset each.
    pub fn search_index_sizes(&self) -> (r: (usize, usize, usize))
        ensures
            r.0 == self.catalog().len(),
            r.1 == self.catalog().len(),
            r.2 == self.catalog().len(),
    {
        proof { use_type_invariant(&self.catalog); }
        (
            self.catalog.index.lowercase_names.len(),
            self.catalog.index.lowercase_tags.len(),
            self.catalog.index.lowercase_descriptions.len(),
        )
    }
}


// ===== Versions =====

/// The numbers of the pieces, in order: those that parse as `u32`; the others are
/// skipped.
pub open spec fn parsed_numbers(parts: Seq<Seq<char>>) -> Seq<u32>
    decreases parts.len(),
{
    if parts.len() == 0 {
        Seq::empty()
    } else {
        let prev = parsed_numbers(parts.drop_last());
        match parse_u32_spec(parts.last()) {
            Some(n) => prev.push(n),
            None => prev,
        }
    }
}

/// The numbers of a version text: its dot-separated pieces that parse as `u32`.
pub open spec fn version_numbers(v: Seq<char>) -> Seq<u32> {
    parsed_numbers(split_spec(v, '.'))
}

/// The number at `i`, or 0 past the end.
pub open spec fn number_at(p: Seq<u32>, i: int) -> int {
    if 0 <= i < p.len() {
        p[i] as int
    } else {
        0
    }
}

/// The longer of two lengths.
pub open spec fn longer(a: Seq<u32>, b: Seq<u32>) -> int {
    if a.len() > b.len() {
        a.len() as int
    } else {
        b.len() as int
    }
}

/// At the first position from `i` on where the numbers differ (the shorter list
/// padded with zeros), `a` has the greater one.
pub open spec fn newer_from(a: Seq<u32>, b: Seq<u32>, i: int) -> bool
    decreases longer(a, b) - i,
{
    if i >= longer(a, b) {
        false
    } else if number_at(a, i) > number_at(b, i) {
        true
    } else if number_at(a, i) < number_at(b, i) {
        false
    } else {
        newer_from(a, b, i + 1)
    }
}

/// Version text `a` is newer than version text `b`.
pub open spec fn version_is_newer(a: Seq<char>, b: Seq<char>) -> bool {
    newer_from(version_numbers(a), version_numbers(b), 0)
}

/// The numbers of a version text.
fn version_numbers_of(v: &str) -> (r: Vec<u32>)
    ensures
        r@ == version_numbers(v@),
{
    let parts = split_chars(&chars_of(v), '.');
    let ghost sp = split_spec(v@, '.');
    let mut r: Vec<u32> = Vec::new();
    let mut i: usize = 0;
    while i < parts.len()
        invariant
            i <= parts@.len(),
            sp == split_spec(v@, '.'),
            parts@.len() == sp.len(),
            forall|j: int| 0 <= j < parts@.len() ==> #[trigger] parts@[j]@ == sp[j],
            r@ == parsed_numbers(sp.take(i as int)),
        decreases parts.len() - i,
    {
        assert(sp.take(i + 1).drop_last() =~= sp.take(i as int));
        assert(sp.take(i + 1).last() == parts@[i as int]@);
        match parse_u32(&parts[i]) {
            Some(n) => r.push(n),
            None => {},
        }
        i = i + 1;
    }
    assert(sp.take(i as int) =~= sp);
    r
}

/// Compares two version strings (`major.minor.patch`, any number of parts):
/// whether `version_a` is newer than `version_b`.
pub fn is_version_newer(version_a: &str, version_b: &str) -> (r: bool)
    ensures
        r == version_is_newer(version_a@, version_b@),
{
    let a = version_numbers_of(version_a);
    let b = version_numbers_of(version_b);
    let n = if a.len() > b.len() { a.len() } else { b.len() };
    let mut i: usize = 0;
    while i < n
        invariant
            i <= n,
            a@ == version_numbers(version_a@),
            b@ == version_numbers(version_b@),
            n == longer(a@, b@),
            newer_from(a@, b@, 0) == newer_from(a@, b@, i as int),
        decreases n - i,
    {
        let x: u32 = if i < a.len() { a[i] } else { 0 };
        let y: u32 = if i < b.len() { b[i] } else { 0 };
        assert(x == number_at(a@, i as int) && y == number_at(b@, i as int));
        if x > y {
            return true;
        } else if x < y {
            return false;
        }
        i = i + 1;
    }
    false
}

/// Past the end of `a`, nothing is newer than anything.
proof fn lemma_zero_tail_not_newer(a: Seq<u32>, b: Seq<u32>, i: int)
    requires
        i >= a.len(),
    ensures
        !newer_from(a, b, i),
    decreases longer(a, b) - i,
{
    if i < longer(a, b) {
        lemma_zero_tail_not_newer(a, b, i + 1);
    }
}

/// At or past the ends of both lists, nothing is newer.
proof fn lemma_newer_from_swap(a: Seq<u32>, b: Seq<u32>, i: int)
    requires
        newer_from(a, b, i),
    ensures
        !newer_from(b, a, i),
    decreases longer(a, b) - i,
{
    if i < longer(a, b) && number_at(a, i) == number_at(b, i) {
        lemma_newer_from_swap(a, b, i + 1);
    }
}

proof fn lemma_newer_from_self(a: Seq<u32>, i: int)
    ensures
        !newer_from(a, a, i),
    decreases longer(a, a) - i,
{
    if i < longer(a, a) {
        lemma_newer_from_self(a, i + 1);
    }
}

proof fn lemma_newer_from_trans(a: Seq<u32>, b: Seq<u32>, c: Seq<u32>, i: int)
    requires
        newer_from(a, b, i),
        newer_from(b, c, i),
    ensures
        newer_from(a, c, i),
    decreases longer(a, b) + longer(b, c) - 2 * i,
{
    if i >= longer(a, c) {
        lemma_zero_tail_not_newer(a, b, i);
        assert(false);
    }
    if number_at(a, i) == number_at(b, i) && number_at(b, i) == number_at(c, i) {
        lemma_newer_from_trans(a, b, c, i + 1);
    }
}

/// A version is never newer than itself, of two versions at most one is newer
/// than the other, and a version newer than one that is newer than a third is
/// newer than the third.
pub proof fn lemma_version_newer_strict_order(a: Seq<char>, b: Seq<char>, c: Seq<char>)
    ensures
        !version_is_newer(a, a),
        version_is_newer(a, b) ==> !version_is_newer(b, a),
        version_is_newer(a, b) && version_is_newer(b, c) ==> version_is_newer(a, c),
{
    lemma_newer_from_self(version_numbers(a), 0);
    if version_is_newer(a, b) {
        lemma_newer_from_swap(version_numbers(a), version_numbers(b), 0);
        if version_is_newer(b, c) {
            lemma_newer_from_trans(version_numbers(a), version_numbers(b), version_numbers(c), 0);
        }
    }
}

// ===== Downloads =====

/// The file extension of a download URL: the last dot-separated piece of the last
/// path segment (query left out), with `tar.gz` kept whole.
pub open spec fn file_extension(url: Seq<char>) -> Seq<char> {
    let path = split_spec(url, '?')[0];
    let name = split_spec(path, '/').last();
    if ends_with(name, ".tar.gz"@) {
        "tar.gz"@
    } else {
        split_spec(name, '.').last()
    }
}

/// Extracts the file extension from a URL.
pub fn extract_file_extension(url: &str) -> (r: Option<String>)
    ensures
        r matches Some(e) && e@ == file_extension(url@),
{
    let u = chars_of(url);
    let pieces = split_chars(&u, '?');
    proof { lemma_split_nonempty(url@, '?'); }
    let path = &pieces[0];
    let segments = split_chars(path, '/');
    proof { lemma_split_nonempty(path@, '/'); }
    let name = &segments[segments.len() - 1];
    let suffix = chars_of(".tar.gz");
    if ends_with_chars(name, &suffix) {
        return Some("tar.gz".to_string());
    }
    let dots = split_chars(name, '.');
    proof { lemma_split_nonempty(name@, '.'); }
    Some(string_from_chars(&dots[dots.len() - 1]))
}

// ===== Updates =====

/// Where the catalogue offers an update for an installed asset: the position of
/// the first catalogue entry with the ID when its version is newer than the
/// installed one (taken as the catalogue's own version when none is recorded).
pub open spec fn update_index(catalog: Seq<Asset>, id: Seq<char>, installed_version: Option<Seq<char>>) -> Option<int> {
    let i = first_index(catalog, has_id(id));
    if i < 0 {
        None
    } else {
        let current = catalog[i].version@;
        let installed = match installed_version {
            Some(v) => v,
            None => current,
        };
        if version_is_newer(current, installed) {
            Some(i)
        } else {
            None
        }
    }
}

/// The catalogue entries that offer updates for the installed assets, in the order
/// of the installed list.
pub open spec fn updates_found(
    catalog: Seq<Asset>,
    ids: Seq<Seq<char>>,
    versions: Seq<Option<Seq<char>>>,
) -> Seq<Asset>
    decreases ids.len(),
{
    if ids.len() == 0 {
        Seq::empty()
    } else {
        let prev = updates_found(catalog, ids.drop_last(), versions.drop_last());
        match update_index(catalog, ids.last(), versions[ids.len() - 1]) {
            Some(i) => prev.push(catalog[i]),
            None => prev,
        }
    }
}

/// The texts of a list of optional strings.
pub open spec fn opt_texts(s: Seq<Option<String>>) -> Seq<Option<Seq<char>>> {
    s.map_values(|o: Option<String>| opt_view(o))
}

/// The text of a borrowed optional string.
pub open spec fn opt_str_view(o: Option<&str>) -> Option<Seq<char>> {
    match o {
        Some(s) => Some(s@),
        None => None,
    }
}

// ===== Dependencies =====

/// How a missing dependency is reported: its ID and version requirement.
pub open spec fn dependency_text(d: AssetDependency) -> Seq<char> {
    d.asset_id@ + " (version: "@ + d.version_requirement@ + ")"@
}

/// The dependency is not among the installed assets.
pub open spec fn not_installed(installed: Seq<Seq<char>>) -> spec_fn(AssetDependency) -> bool {
    |d: AssetDependency| !installed.contains(d.asset_id@)
}

/// The reports of the dependencies that are not installed, in order.
pub open spec fn missing_dependencies(deps: Seq<AssetDependency>, installed: Seq<Seq<char>>) -> Seq<Seq<char>> {
    deps.filter(not_installed(installed)).map_values(|d: AssetDependency| dependency_text(d))
}

/// A white-space character.
pub open spec fn white() -> spec_fn(char) -> bool {
    |c: char| is_whitespace(c)
}

/// A character other than white space.
pub open spec fn not_white() -> spec_fn(char) -> bool {
    |c: char| !is_whitespace(c)
}

/// The first white-space separated word of a text, if it has one.
pub open spec fn first_word(s: Seq<char>) -> Option<Seq<char>> {
    let start = first_index(s, not_white());
    if start < 0 {
        None
    } else {
        let rest = s.skip(start);
        let len = first_index(rest, white());
        Some(if len < 0 { rest } else { rest.take(len) })
    }
}

/// The ID that a dependency report names: its first word.
pub open spec fn reported_id(text: Seq<char>) -> Seq<char> {
    match first_word(text) {
        Some(w) => w,
        None => text,
    }
}

/// The first white-space separated word of a text.
fn first_word_of(s: &Vec<char>) -> (r: Option<Vec<char>>)
    ensures
        opt_chars(r) == first_word(s@),
{
    let mut start: usize = 0;
    while start < s.len() && char_is_whitespace(s[start])
        invariant
            start <= s@.len(),
            forall|j: int| 0 <= j < start ==> !not_white()(#[trigger] s@[j]),
        decreases s.len() - start,
    {
        start = start + 1;
    }
    if start == s.len() {
        proof { lemma_first_index_absent(s@, not_white()); }
        return None;
    }
    proof { lemma_first_index_found(s@, not_white(), start as int); }
    let ghost rest = s@.skip(start as int);
    let mut w: Vec<char> = Vec::new();
    let mut k: usize = start;
    while k < s.len() && !char_is_whitespace(s[k])
        invariant
            start <= k <= s@.len(),
            rest == s@.skip(start as int),
            w@ == rest.take(k - start),
            forall|j: int| 0 <= j < k - start ==> !white()(#[trigger] rest[j]),
        decreases s.len() - k,
    {
        w.push(s[k]);
        assert(w@ =~= rest.take(k + 1 - start));
        k = k + 1;
    }
    if k == s.len() {
        proof { lemma_first_index_absent(rest, white()); }
        assert(w@ =~= rest);
    } else {
        proof { lemma_first_index_found(rest, white(), k - start); }
    }
    Some(w)
}

/// The characters of an optional list.
pub open spec fn opt_chars(o: Option<Vec<char>>) -> Option<Seq<char>> {
    match o {
        Some(v) => Some(v@),
        None => None,
    }
}

impl AssetManager {
    /// The name of the cache file of an asset's download:
    /// `{id}_{version}.{extension of its download URL}`.
    pub fn cache_file_name(&self, asset_id: &str) -> (r: Result<String, String>)
        ensures
            ({
                let i = first_index(self.catalog(), has_id(asset_id@));
                &&& i < 0 ==> (r matches Err(e) && e@ == "Asset with ID '"@ + asset_id@ + "' not found"@)
                &&& i >= 0 ==> (r matches Ok(n) && n@ == asset_id@ + "_"@ + self.catalog()[i].version@ + "."@
                    + file_extension(self.catalog()[i].download_url@))
            }),
    {
        match self.get_asset_by_id(asset_id) {
            Some(asset) => {
                let ext = match extract_file_extension(asset.download_url.as_str()) {
                    Some(e) => e,
                    None => "zip".to_string(),
                };
                let mut n = asset_id.to_string();
                n.append("_");
                n.append(asset.version.as_str());
                n.append(".");
                n.append(ext.as_str());
                Ok(n)
            },
            None => {
                let mut m = "Asset with ID '".to_string();
                m.append(asset_id);
                m.append("' not found");
                Err(m)
            },
        }
    }

    /// Checks whether the catalogue offers an update for an installed asset.
    /// `installed_version` is the version recorded in the installed asset's
    /// metadata, if any; without one the installed version is taken to be the
    /// catalogue's.
    pub fn check_for_update(&self, asset_id: &str, installed_version: Option<&str>) -> (r: Result<Option<Asset>, String>)
        ensures
            !self.installed().contains(asset_id@) ==> r matches Ok(None),
            self.installed().contains(asset_id@) ==> ({
                let i = first_index(self.catalog(), has_id(asset_id@));
                &&& i < 0 ==> (r matches Err(e) && e@ == "Asset '"@ + asset_id@ + "' not found in catalog"@)
                &&& i >= 0 ==> match update_index(self.catalog(), asset_id@, opt_str_view(installed_version)) {
                    Some(j) => r matches Ok(Some(a)) && same_asset(a, self.catalog()[j]),
                    None => r matches Ok(None),
                }
            }),
    {
        if !self.is_asset_installed(asset_id) {
            return Ok(None);
        }
        let current = match self.get_asset_by_id(asset_id) {
            Some(a) => a,
            None => {
                let mut m = "Asset '".to_string();
                m.append(asset_id);
                m.append("' not found in catalog");
                return Err(m);
            },
        };
        let newer = match installed_version {
            Some(v) => is_version_newer(current.version.as_str(), v),
            None => is_version_newer(current.version.as_str(), current.version.as_str()),
        };
        if newer {
            Ok(Some(current))
        } else {
            Ok(None)
        }
    }

    /// Checks for updates for all installed assets. `installed_versions` holds,
    /// for each installed asset in order, the version recorded in its metadata.
    pub fn check_all_for_updates(&self, installed_versions: &Vec<Option<String>>) -> (r: Result<Vec<Asset>, String>)
        requires
            installed_versions@.len() == self.installed().len(),
        ensures
            r matches Ok(v) && same_assets(
                v@,
                updates_found(self.catalog(), self.installed(), opt_texts(installed_versions@)),
            ),
    {
        let installed = self.get_installed_assets();
        let ghost ids = self.installed();
        let ghost vs = opt_texts(installed_versions@);
        let mut updates: Vec<Asset> = Vec::new();
        let mut k: usize = 0;
        while k < installed.len()
            invariant
                k <= installed@.len(),
                texts(installed@) == ids,
                ids == self.installed(),
                vs == opt_texts(installed_versions@),
                installed_versions@.len() == ids.len(),
                same_assets(updates@, updates_found(self.catalog(), ids.take(k as int), vs.take(k as int))),
            decreases installed.len() - k,
        {
            let id = installed[k].as_str();
            assert(ids[k as int] == id@);
            assert(ids.contains(id@));
            let version: Option<&str> = match &installed_versions[k] {
                Some(v) => Some(v.as_str()),
                None => None,
            };
            assert(opt_str_view(version) == vs[k as int]);
            assert(ids.take(k + 1).drop_last() =~= ids.take(k as int));
            assert(vs.take(k + 1).drop_last() =~= vs.take(k as int));
            assert(ids.take(k + 1).last() == id@);
            match self.check_for_update(id, version) {
                Ok(Some(a)) => {
                    updates.push(a);
                },
                _ => {},
            }
            k = k + 1;
        }
        assert(ids.take(k as int) =~= ids);
        assert(vs.take(k as int) =~= vs);
        Ok(updates)
    }

    /// The dependencies of an asset that are not installed, each reported as
    /// `{id} (version: {requirement})`.
    pub fn resolve_dependencies(&self, asset_id: &str) -> (r: Result<Vec<String>, String>)
        ensures
            ({
                let i = first_index(self.catalog(), has_id(asset_id@));
                &&& i < 0 ==> (r matches Err(e) && e@ == "Asset '"@ + asset_id@ + "' not found"@)
                &&& i >= 0 ==> (r matches Ok(v) && texts(v@) == missing_dependencies(
                    self.catalog()[i].dependencies@,
                    self.installed(),
                ))
            }),
    {
        let asset = match self.get_asset_by_id(asset_id) {
            Some(a) => a,
            None => {
                let mut m = "Asset '".to_string();
                m.append(asset_id);
                m.append("' not found");
                return Err(m);
            },
        };
        let deps = &asset.dependencies;
        let ghost p = not_installed(self.installed());
        let mut missing: Vec<String> = Vec::new();
        let mut i: usize = 0;
        while i < deps.len()
            invariant
                i <= deps@.len(),
                p == not_installed(self.installed()),
                texts(missing@) == deps@.take(i as int).filter(p).map_values(|d: AssetDependency| dependency_text(d)),
            decreases deps.len() - i,
        {
            proof { lemma_filter_step(deps@, p, i as int); }
            let d = &deps[i];
            let ghost before = deps@.take(i as int).filter(p);
            if !self.is_asset_installed(d.asset_id.as_str()) {
                let mut m = d.asset_id.clone();
                m.append(" (version: ");
                m.append(d.version_requirement.as_str());
                m.append(")");
                missing.push(m);
                assert(before.push(*d).map_values(|d: AssetDependency| dependency_text(d)) =~= before.map_values(
                    |d: AssetDependency| dependency_text(d),
                ).push(dependency_text(*d)));
            }
            i = i + 1;
        }
        assert(deps@.take(i as int) =~= deps@);
        Ok(missing)
    }

    /// The IDs to install, in order, to install an asset with its dependencies:
    /// the missing dependencies first (each named by the first word of its
    /// report), then the asset itself.
    pub fn dependency_install_plan(&self, asset_id: &str) -> (r: Result<Vec<String>, String>)
        ensures
            ({
                let i = first_index(self.catalog(), has_id(asset_id@));
                &&& i < 0 ==> (r matches Err(e) && e@ == "Failed to resolve dependencies: "@ + "Asset '"@ + asset_id@
                    + "' not found"@)
                &&& i >= 0 ==> (r matches Ok(v) && texts(v@) == missing_dependencies(
                    self.catalog()[i].dependencies@,
                    self.installed(),
                ).map_values(|t: Seq<char>| reported_id(t)).push(asset_id@))
            }),
    {
        let missing = match self.resolve_dependencies(asset_id) {
            Ok(m) => m,
            Err(e) => {
                let mut m = "Failed to resolve dependencies: ".to_string();
                m.append(e.as_str());
                assert(m@ =~= "Failed to resolve dependencies: "@ + "Asset '"@ + asset_id@ + "' not found"@);
                return Err(m);
            },
        };
        let ghost reports = texts(missing@);
        let mut plan: Vec<String> = Vec::new();
        let mut i: usize = 0;
        while i < missing.len()
            invariant
                i <= missing@.len(),
                reports == texts(missing@),
                texts(plan@) == reports.take(i as int).map_values(|t: Seq<char>| reported_id(t)),
            decreases missing.len() - i,
        {
            let text = chars_of(missing[i].as_str());
            let id = match first_word_of(&text) {
                Some(w) => string_from_chars(&w),
                None => missing[i].clone(),
            };
            plan.push(id);
            assert(reports.take(i + 1).map_values(|t: Seq<char>| reported_id(t)) =~= reports.take(i as int).map_values(
                |t: Seq<char>| reported_id(t),
            ).push(reported_id(reports[i as int])));
            assert(texts(plan@) =~= reports.take(i + 1).map_values(|t: Seq<char>| reported_id(t)));
            i = i + 1;
        }
        assert(reports.take(i as int) =~= reports);
        plan.push(asset_id.to_string());
        assert(texts(plan@) =~= reports.map_values(|t: Seq<char>| reported_id(t)).push(asset_id@));
        Ok(plan)
    }
}


// ===== Conflicts =====

/// How a file that two assets share is reported.
pub open spec fn conflict_text(other: Seq<char>, file: Seq<char>) -> Seq<char> {
    "File conflict with '"@ + other + "': "@ + file
}

/// The file is among the files.
pub open spec fn among(files: Seq<Seq<char>>) -> spec_fn(Seq<char>) -> bool {
    |f: Seq<char>| files.contains(f)
}

/// The reports of the asset's files that the other asset has too, in the order of
/// the asset's files.
pub open spec fn conflicts_with(files: Seq<Seq<char>>, other: Seq<char>, other_files: Seq<Seq<char>>) -> Seq<Seq<char>> {
    files.filter(among(other_files)).map_values(|f: Seq<char>| conflict_text(other, f))
}

/// The reports of the asset's files that other installed assets have too: for each
/// installed asset other than the asset itself whose files are known, in order.
pub open spec fn all_conflicts(
    id: Seq<char>,
    files: Seq<Seq<char>>,
    ids: Seq<Seq<char>>,
    others: Seq<Option<Seq<Seq<char>>>>,
) -> Seq<Seq<char>>
    decreases ids.len(),
{
    if ids.len() == 0 {
        Seq::empty()
    } else {
        let prev = all_conflicts(id, files, ids.drop_last(), others.drop_last());
        match others[ids.len() - 1] {
            Some(of) => if ids.last() != id {
                prev + conflicts_with(files, ids.last(), of)
            } else {
                prev
            },
            None => prev,
        }
    }
}

/// The texts of a list of optional lists of strings.
pub open spec fn opt_text_lists(s: Seq<Option<Vec<String>>>) -> Seq<Option<Seq<Seq<char>>>> {
    s.map_values(|o: Option<Vec<String>>| match o {
        Some(v) => Some(texts(v@)),
        None => None,
    })
}

/// The reports of the files of `files` that `other_files` has too.
fn conflicts_between(files: &Vec<String>, other: &str, other_files: &Vec<String>) -> (r: Vec<String>)
    ensures
        texts(r@) == conflicts_with(texts(files@), other@, texts(other_files@)),
{
    let ghost fs = texts(files@);
    let ghost p = among(texts(other_files@));
    let mut r: Vec<String> = Vec::new();
    let mut i: usize = 0;
    while i < files.len()
        invariant
            i <= files@.len(),
            fs == texts(files@),
            p == among(texts(other_files@)),
            texts(r@) == fs.take(i as int).filter(p).map_values(|f: Seq<char>| conflict_text(other@, f)),
        decreases files.len() - i,
    {
        proof { lemma_filter_step(fs, p, i as int); }
        let f = files[i].as_str();
        let hit = contains_string(other_files, f);
        proof {
            if hit {
                let j = choose|j: int| 0 <= j < other_files@.len() && other_files@[j]@ == f@;
                assert(texts(other_files@)[j] == f@);
            }
            if texts(other_files@).contains(f@) {
                let j = choose|j: int| 0 <= j < texts(other_files@).len() && texts(other_files@)[j] == f@;
                assert(other_files@[j]@ == f@);
            }
        }
        let ghost before = fs.take(i as int).filter(p);
        if hit {
            let mut m = "File conflict with '".to_string();
            m.append(other);
            m.append("': ");
            m.append(f);
            r.push(m);
            assert(before.push(f@).map_values(|f: Seq<char>| conflict_text(other@, f)) =~= before.map_values(
                |f: Seq<char>| conflict_text(other@, f),
            ).push(conflict_text(other@, f@)));
        }
        i = i + 1;
    }
    assert(fs.take(i as int) =~= fs);
    r
}

impl AssetManager {
    /// Detects file conflicts between an installed asset and the other installed
    /// assets. `asset_files` are the asset's files, as paths relative to its
    /// directory; `installed_files` holds, for each installed asset in order, its
    /// files when its directory exists.
    pub fn detect_conflicts(
        &self,
        asset_id: &str,
        asset_files: &Vec<String>,
        installed_files: &Vec<Option<Vec<String>>>,
    ) -> (r: Vec<String>)
        requires
            installed_files@.len() == self.installed().len(),
        ensures
            texts(r@) == all_conflicts(asset_id@, texts(asset_files@), self.installed(), opt_text_lists(installed_files@)),
    {
        let ghost ids = self.installed();
        let ghost others = opt_text_lists(installed_files@);
        let mut conflicts: Vec<String> = Vec::new();
        let mut k: usize = 0;
        while k < self.installed_assets.len()
            invariant
                k <= ids.len(),
                ids == self.installed(),
                ids.len() == self.installed_assets@.len(),
                others == opt_text_lists(installed_files@),
                installed_files@.len() == ids.len(),
                texts(conflicts@) == all_conflicts(asset_id@, texts(asset_files@), ids.take(k as int), others.take(k as int)),
            decreases self.installed_assets.len() - k,
        {
            let other = self.installed_assets[k].as_str();
            assert(ids.take(k + 1).drop_last() =~= ids.take(k as int));
            assert(others.take(k + 1).drop_last() =~= others.take(k as int));
            assert(ids.take(k + 1).last() == other@);
            match &installed_files[k] {
                Some(of) => {
                    if !str_equal(other, asset_id) {
                        let found = conflicts_between(asset_files, other, of);
                        let ghost before = texts(conflicts@);
                        let mut j: usize = 0;
                        while j < found.len()
                            invariant
                                j <= found@.len(),
                                texts(conflicts@) == before + texts(found@).take(j as int),
                            decreases found.len() - j,
                        {
                            let ghost prev = conflicts@;
                            conflicts.push(found[j].clone());
                            assert(texts(conflicts@) =~= texts(prev).push(found@[j as int]@));
                            assert(texts(found@).take(j + 1) =~= texts(found@).take(j as int).push(found@[j as int]@));
                            assert(texts(conflicts@) =~= before + texts(found@).take(j + 1));
                            j = j + 1;
                        }
                        assert(texts(found@).take(j as int) =~= texts(found@));
                    }
                },
                None => {},
            }
            k = k + 1;
        }
        assert(ids.take(k as int) =~= ids);
        assert(others.take(k as int) =~= others);
        conflicts
    }
}

// ===== Import =====

/// Result type for validation operations
#[derive(Debug)]
pub struct ValidationResult {
    pub valid: bool,
    pub errors: Vec<String>,
    pub warnings: Vec<String>,
}

impl ValidationResult {
    /// A valid result without errors or warnings.
    pub fn new() -> (r: Self)
        ensures
            r.valid,
            r.errors@.len() == 0,
            r.warnings@.len() == 0,
    {
        ValidationResult { valid: true, errors: Vec::new(), warnings: Vec::new() }
    }

    /// Records an error, which makes the result invalid.
    pub fn add_error(&mut self, error: String)
        ensures
            !final(self).valid,
            final(self).errors@ == old(self).errors@.push(error),
            final(self).warnings@ == old(self).warnings@,
    {
        self.valid = false;
        self.errors.push(error);
    }

    /// Records a warning; validity is unchanged.
    pub fn add_warning(&mut self, warning: String)
        ensures
            final(self).valid == old(self).valid,
            final(self).errors@ == old(self).errors@,
            final(self).warnings@ == old(self).warnings@.push(warning),
    {
        self.warnings.push(warning);
    }

    /// Whether no error was recorded.
    pub fn is_valid(&self) -> (r: bool)
        ensures
            r == self.valid,
    {
        self.valid
    }
}

/// The kinds of archive that can be imported.
#[derive(Debug, Clone, Copy, PartialEq, Eq, Structural)]
pub enum ArchiveKind {
    Zip,
    TarGz,
}

/// The kind of archive that a file is, by its extension (`path` is the whole path
/// of the file, `extension` the part of its name after the last dot), or why it
/// cannot be imported.
pub open spec fn archive_kind_of(path: Seq<char>, extension: Seq<char>) -> Result<ArchiveKind, Seq<char>> {
    let lower = lowercase(extension);
    if lower == "zip"@ {
        Ok(ArchiveKind::Zip)
    } else if lower == "gz"@ || lower == "tgz"@ {
        if ends_with(path, ".tar.gz"@) || extension == "tgz"@ {
            Ok(ArchiveKind::TarGz)
        } else {
            Err("Unsupported archive format. Expected .tar.gz"@)
        }
    } else {
        Err("Unsupported archive format: "@ + extension)
    }
}

/// The extensions of the files that Godot recognises as asset content.
pub open spec fn godot_content_extensions() -> Seq<Seq<char>> {
    seq![".tscn"@, ".tres"@, ".gd"@, ".gdshader"@, ".material"@, ".mesh"@]
}

/// The extensions of the files that an asset may not hold.
pub open spec fn suspicious_extensions() -> Seq<Seq<char>> {
    seq![".exe"@, ".dll"@, ".so"@, ".dylib"@, ".bat"@, ".sh"@, ".ps1"@]
}

/// An extension with its dot, in lower case.
pub open spec fn dotted(extension: Seq<char>) -> Seq<char> {
    "."@ + lowercase(extension)
}

/// The metadata fields that an asset should have.
pub open spec fn recommended_fields() -> Seq<Seq<char>> {
    seq!["name"@, "version"@, "description"@, "author"@]
}

/// The field is not among the keys.
pub open spec fn absent_from(keys: Seq<Seq<char>>) -> spec_fn(Seq<char>) -> bool {
    |f: Seq<char>| !keys.contains(f)
}

/// The warnings for the recommended fields that metadata with these keys lacks.
pub open spec fn metadata_warnings_for(keys: Seq<Seq<char>>) -> Seq<Seq<char>> {
    recommended_fields().filter(absent_from(keys)).map_values(
        |f: Seq<char>| "Recommended field '"@ + f + "' missing from metadata"@,
    )
}

/// The entries of the top-level object of a JSON text, each key with its value
/// when that value is a string (no entries when the value is not an object), or
/// the parser's message when the text is not JSON.
pub uninterp spec fn json_entries(text: Seq<char>) -> Result<Seq<(Seq<char>, Option<Seq<char>>)>, Seq<char>>;

/// The texts of a list of entries.
pub open spec fn entry_texts(s: Seq<(String, Option<String>)>) -> Seq<(Seq<char>, Option<Seq<char>>)> {
    s.map_values(|e: (String, Option<String>)| (e.0@, opt_view(e.1)))
}

/// `serde_json::from_str::<serde_json::Value>`, with the entries of the top-level
/// object taken out as plain strings (a value that is not a string is left out as
/// `None`), and the parse error as its message. The result is named by
/// `json_entries`; nothing more of the parser is stated.
#[verifier::external_body]
fn parse_json_entries(text: &str) -> (r: Result<Vec<(String, Option<String>)>, String>)
    ensures
        match r {
            Ok(v) => json_entries(text@) == Ok::<Seq<(Seq<char>, Option<Seq<char>>)>, Seq<char>>(entry_texts(v@)),
            Err(e) => json_entries(text@) == Err::<Seq<(Seq<char>, Option<Seq<char>>)>, Seq<char>>(e@),
        },
{
    match serde_json::from_str::<serde_json::Value>(text) {
        Ok(serde_json::Value::Object(m)) => Ok(m.into_iter().map(|(k, v)| (k, v.as_str().map(|s| s.to_string()))).collect()),
        Ok(_) => Ok(Vec::new()),
        Err(e) => Err(e.to_string()),
    }
}

/// The keys of the entries.
pub open spec fn entry_keys(s: Seq<(Seq<char>, Option<Seq<char>>)>) -> Seq<Seq<char>> {
    s.map_values(|e: (Seq<char>, Option<Seq<char>>)| e.0)
}

/// What checking the metadata text gives: the warnings for missing recommended
/// fields, or why the text is not JSON.
pub open spec fn metadata_check(text: Seq<char>) -> Result<Seq<Seq<char>>, Seq<char>> {
    match json_entries(text) {
        Ok(entries) => Ok(metadata_warnings_for(entry_keys(entries))),
        Err(e) => Err("Invalid JSON in metadata file: "@ + e),
    }
}

/// The entry has the key.
pub open spec fn key_is(key: Seq<char>) -> spec_fn((Seq<char>, Option<Seq<char>>)) -> bool {
    |e: (Seq<char>, Option<Seq<char>>)| e.0 == key
}

/// The string value of the first entry with the key, if that value is a string.
pub open spec fn string_field(entries: Seq<(Seq<char>, Option<Seq<char>>)>, key: Seq<char>) -> Option<Seq<char>> {
    let i = first_index(entries, key_is(key));
    if i < 0 {
        None
    } else {
        entries[i].1
    }
}

/// The version that a metadata text records: its `version` field when the text is
/// JSON and the field a string.
pub open spec fn metadata_version_of(text: Seq<char>) -> Option<Seq<char>> {
    match json_entries(text) {
        Ok(entries) => string_field(entries, "version"@),
        Err(_) => None,
    }
}

impl AssetImporter {
    /// The name of the directory that an asset is extracted into before it is
    /// validated: its ID with the temporary suffix.
    pub fn temp_dir_name(asset_id: &str) -> (r: String)
        ensures
            r@ == asset_id@ + ".tmp_extract"@,
    {
        let mut r = asset_id.to_string();
        r.append(TEMP_EXTRACT_SUFFIX);
        proof { reveal_strlit(".tmp_extract"); }
        r
    }

    /// The kind of archive that the file is, by its extension.
    pub fn archive_kind(path: &str, extension: &str) -> (r: Result<ArchiveKind, String>)
        ensures
            match r {
                Ok(k) => archive_kind_of(path@, extension@) == Ok::<ArchiveKind, Seq<char>>(k),
                Err(e) => archive_kind_of(path@, extension@) == Err::<ArchiveKind, Seq<char>>(e@),
            },
    {
        let lower = to_lowercase_string(extension);
        if str_equal(lower.as_str(), "zip") {
            Ok(ArchiveKind::Zip)
        } else if str_equal(lower.as_str(), "gz") || str_equal(lower.as_str(), "tgz") {
            let p = chars_of(path);
            let suffix = chars_of(".tar.gz");
            if ends_with_chars(&p, &suffix) || str_equal(extension, "tgz") {
                Ok(ArchiveKind::TarGz)
            } else {
                Err("Unsupported archive format. Expected .tar.gz".to_string())
            }
        } else {
            let mut m = "Unsupported archive format: ".to_string();
            m.append(extension);
            Err(m)
        }
    }

    /// Whether a file with the extension is Godot asset content (scene, resource,
    /// script, shader, material or mesh).
    pub fn is_content_extension(extension: &str) -> (r: bool)
        ensures
            r == godot_content_extensions().contains(dotted(extension@)),
    {
        let d = dotted_text(extension);
        let known = vec![
            ".tscn".to_string(),
            ".tres".to_string(),
            ".gd".to_string(),
            ".gdshader".to_string(),
            ".material".to_string(),
            ".mesh".to_string(),
        ];
        assert(texts(known@) =~= godot_content_extensions());
        let r = contains_string(&known, d.as_str());
        proof { lemma_has_string_texts(known@, d@); }
        r
    }

    /// The suspicious pattern that the extension matches, if any: executables,
    /// libraries and shell scripts.
    pub fn suspicious_pattern(extension: &str) -> (r: Option<String>)
        ensures
            r is Some <==> suspicious_extensions().contains(dotted(extension@)),
            r matches Some(p) ==> p@ == dotted(extension@),
    {
        let d = dotted_text(extension);
        let patterns = vec![
            ".exe".to_string(),
            ".dll".to_string(),
            ".so".to_string(),
            ".dylib".to_string(),
            ".bat".to_string(),
            ".sh".to_string(),
            ".ps1".to_string(),
        ];
        assert(texts(patterns@) =~= suspicious_extensions());
        proof { lemma_has_string_texts(patterns@, d@); }
        if contains_string(&patterns, d.as_str()) {
            Some(d)
        } else {
            None
        }
    }

    /// Checks metadata text: the warnings for the recommended fields (name,
    /// version, description, author) that it lacks, or an error when it is not JSON.
    pub fn validate_metadata(content: &str) -> (r: Result<Vec<String>, String>)
        ensures
            match r {
                Ok(w) => metadata_check(content@) == Ok::<Seq<Seq<char>>, Seq<char>>(texts(w@)),
                Err(e) => metadata_check(content@) == Err::<Seq<Seq<char>>, Seq<char>>(e@),
            },
    {
        match parse_json_entries(content) {
            Ok(entries) => {
                let mut keys: Vec<String> = Vec::new();
                let mut i: usize = 0;
                while i < entries.len()
                    invariant
                        i <= entries@.len(),
                        texts(keys@) == entry_keys(entry_texts(entries@)).take(i as int),
                    decreases entries.len() - i,
                {
                    let ghost prev = keys@;
                    keys.push(entries[i].0.clone());
                    assert(entry_keys(entry_texts(entries@))[i as int] == entries@[i as int].0@);
                    assert(texts(keys@) =~= texts(prev).push(entries@[i as int].0@));
                    assert(texts(keys@) =~= entry_keys(entry_texts(entries@)).take(i + 1));
                    i = i + 1;
                }
                assert(entry_keys(entry_texts(entries@)).take(i as int) =~= entry_keys(entry_texts(entries@)));
                Ok(missing_field_warnings(&keys))
            },
            Err(e) => {
                let mut m = "Invalid JSON in metadata file: ".to_string();
                m.append(e.as_str());
                Err(m)
            },
        }
    }

    /// The version that installed metadata records, if its text is JSON with a
    /// string `version` field.
    pub fn metadata_version(content: &str) -> (r: Option<String>)
        ensures
            opt_view(r) == metadata_version_of(content@),
    {
        match parse_json_entries(content) {
            Ok(entries) => {
                let ghost es = entry_texts(entries@);
                let ghost p = key_is("version"@);
                let mut i: usize = 0;
                while i < entries.len()
                    invariant
                        i <= entries@.len(),
                        es == entry_texts(entries@),
                        p == key_is("version"@),
                        json_entries(content@) == Ok::<Seq<(Seq<char>, Option<Seq<char>>)>, Seq<char>>(es),
                        forall|j: int| 0 <= j < i ==> !p(#[trigger] es[j]),
                    decreases entries.len() - i,
                {
                    if str_equal(entries[i].0.as_str(), "version") {
                        proof { lemma_first_index_found(es, p, i as int); }
                        return match &entries[i].1 {
                            Some(v) => Some(v.clone()),
                            None => None,
                        };
                    }
                    i = i + 1;
                }
                proof { lemma_first_index_absent(es, p); }
                None
            },
            Err(_) => None,
        }
    }
}

/// An extension with its dot, in lower case.
fn dotted_text(extension: &str) -> (r: String)
    ensures
        r@ == dotted(extension@),
{
    let mut r = ".".to_string();
    r.append(to_lowercase_string(extension).as_str());
    r
}

/// A text is among the strings exactly when it is among their texts.
proof fn lemma_has_string_texts(v: Seq<String>, k: Seq<char>)
    ensures
        has_string(v, k) <==> texts(v).contains(k),
{
    if has_string(v, k) {
        let j = choose|j: int| 0 <= j < v.len() && v[j]@ == k;
        assert(texts(v)[j] == k);
    }
    if texts(v).contains(k) {
        let j = choose|j: int| 0 <= j < texts(v).len() && texts(v)[j] == k;
        assert(v[j]@ == k);
    }
}

/// The warnings for the recommended fields that are not among the keys.
fn missing_field_warnings(keys: &Vec<String>) -> (r: Vec<String>)
    ensures
        texts(r@) == metadata_warnings_for(texts(keys@)),
{
    let fields = vec!["name".to_string(), "version".to_string(), "description".to_string(), "author".to_string()];
    assert(texts(fields@) =~= recommended_fields());
    let ghost p = absent_from(texts(keys@));
    let ghost fs = recommended_fields();
    let mut r: Vec<String> = Vec::new();
    let mut i: usize = 0;
    while i < fields.len()
        invariant
            i <= fields@.len(),
            fs == recommended_fields(),
            texts(fields@) == fs,
            p == absent_from(texts(keys@)),
            texts(r@) == fs.take(i as int).filter(p).map_values(
                |f: Seq<char>| "Recommended field '"@ + f + "' missing from metadata"@,
            ),
        decreases fields.len() - i,
    {
        proof {
            lemma_filter_step(fs, p, i as int);
            lemma_has_string_texts(keys@, fields@[i as int]@);
        }
        let f = fields[i].as_str();
        assert(fs[i as int] == f@);
        let ghost before = fs.take(i as int).filter(p);
        if !contains_string(keys, f) {
            let mut m = "Recommended field '".to_string();
            m.append(f);
            m.append("' missing from metadata");
            r.push(m);
            assert(before.push(f@).map_values(|f: Seq<char>| "Recommended field '"@ + f + "' missing from metadata"@)
                =~= before.map_values(|f: Seq<char>| "Recommended field '"@ + f + "' missing from metadata"@).push(
                "Recommended field '"@ + f@ + "' missing from metadata"@,
            ));
        }
        i = i + 1;
    }
    assert(fs.take(i as int) =~= fs);
    r
}

/// Handles importing and extracting asset archives
pub struct AssetImporter {
    base_extract_dir: String,
    preserve_temp_on_error: bool,
}

impl AssetImporter {
    /// The base directory for extracting assets.
    pub closed spec fn base_dir(self) -> Seq<char> {
        self.base_extract_dir@
    }

    /// Whether temporary files are kept on error, for debugging.
    pub closed spec fn preserves_temp(self) -> bool {
        self.preserve_temp_on_error
    }

    /// Creates a new AssetImporter with the specified base directory; temporary
    /// files are not kept on error.
    pub fn new(base_extract_dir: String) -> (r: Self)
        ensures
            r.base_dir() == base_extract_dir@,
            !r.preserves_temp(),
    {
        AssetImporter { base_extract_dir, preserve_temp_on_error: false }
    }

    /// Creates a new AssetImporter with the default Godot asset directory.
    pub fn with_default_dir() -> (r: Self)
        ensures
            r.base_dir() == "res://addons/"@,
            !r.preserves_temp(),
    {
        Self::new("res://addons/".to_string())
    }

    /// Sets whether to preserve temporary files on error.
    pub fn set_preserve_temp(&mut self, preserve: bool)
        ensures
            final(self).preserves_temp() == preserve,
            final(self).base_dir() == old(self).base_dir(),
    {
        self.preserve_temp_on_error = preserve;
    }

    /// The base directory for extracting assets.
    pub fn get_base_extract_dir(&self) -> (r: &str)
        ensures
            r@ == self.base_dir(),
    {
        self.base_extract_dir.as_str()
    }

    /// Whether temporary files are kept on error.
    pub fn preserve_temp_on_error(&self) -> (r: bool)
        ensures
            r == self.preserves_temp(),
    {
        self.preserve_temp_on_error
    }
}

/// The outcome of validating an extracted asset. `dir_text` is how the directory
/// is shown in messages; `metadata` is the check of its metadata file when it has
/// one; `has_content` tells whether it holds Godot content files; `security` is
/// the check for suspicious files. A missing or non-directory path is an error
/// and nothing else is looked at.
pub open spec fn validation_of(
    dir_text: Seq<char>,
    exists: bool,
    is_dir: bool,
    metadata: Option<Result<Seq<Seq<char>>, Seq<char>>>,
    has_content: bool,
    security: Result<(), Seq<char>>,
) -> (bool, Seq<Seq<char>>, Seq<Seq<char>>) {
    if !exists {
        (false, seq!["Asset directory does not exist: "@ + dir_text], Seq::empty())
    } else if !is_dir {
        (false, seq!["Asset path is not a directory: "@ + dir_text], Seq::empty())
    } else {
        let meta_errors: Seq<Seq<char>> = match metadata {
            Some(Err(e)) => seq!["Invalid metadata file: "@ + e],
            _ => Seq::empty(),
        };
        let meta_warnings: Seq<Seq<char>> = match metadata {
            None => seq!["No metadata file found (asset.json). Asset may not have complete information."@],
            Some(Ok(w)) => w,
            Some(Err(_)) => Seq::empty(),
        };
        let content_warnings: Seq<Seq<char>> = if has_content {
            Seq::empty()
        } else {
            seq!["No recognizable Godot asset files found (scenes, scripts, resources)"@]
        };
        let security_errors: Seq<Seq<char>> = match security {
            Err(e) => seq!["Security validation failed: "@ + e],
            Ok(_) => Seq::empty(),
        };
        let errors = meta_errors + security_errors;
        (errors.len() == 0, errors, meta_warnings + content_warnings)
    }
}

/// The text of an optional check result.
pub open spec fn check_texts(m: Option<Result<Vec<String>, String>>) -> Option<Result<Seq<Seq<char>>, Seq<char>>> {
    match m {
        Some(Ok(w)) => Some(Ok(texts(w@))),
        Some(Err(e)) => Some(Err(e@)),
        None => None,
    }
}

/// The text of a check result.
pub open spec fn unit_text(s: Result<(), String>) -> Result<(), Seq<char>> {
    match s {
        Ok(_) => Ok(()),
        Err(e) => Err(e@),
    }
}

/// Assembles the validation of an extracted asset from what was found in its
/// directory.
pub fn validation_outcome(
    dir_text: &str,
    exists: bool,
    is_dir: bool,
    metadata: Option<Result<Vec<String>, String>>,
    has_content: bool,
    security: Result<(), String>,
) -> (r: ValidationResult)
    ensures
        (r.valid, texts(r.errors@), texts(r.warnings@)) == validation_of(
            dir_text@,
            exists,
            is_dir,
            check_texts(metadata),
            has_content,
            unit_text(security),
        ),
{
    let mut result = ValidationResult::new();
    if !exists {
        let mut m = "Asset directory does not exist: ".to_string();
        m.append(dir_text);
        result.add_error(m);
        assert(texts(result.errors@) =~= seq!["Asset directory does not exist: "@ + dir_text@]);
        assert(texts(result.warnings@) =~= Seq::<Seq<char>>::empty());
        return result;
    }
    if !is_dir {
        let mut m = "Asset path is not a directory: ".to_string();
        m.append(dir_text);
        result.add_error(m);
        assert(texts(result.errors@) =~= seq!["Asset path is not a directory: "@ + dir_text@]);
        assert(texts(result.warnings@) =~= Seq::<Seq<char>>::empty());
        return result;
    }
    let ghost meta = check_texts(metadata);
    match metadata {
        None => {
            result.add_warning(
                "No metadata file found (asset.json). Asset may not have complete information.".to_string(),
            );
        },
        Some(Ok(warnings)) => {
            let mut i: usize = 0;
            while i < warnings.len()
                invariant
                    i <= warnings@.len(),
                    result.valid,
                    result.errors@.len() == 0,
                    texts(result.warnings@) == texts(warnings@).take(i as int),
                decreases warnings.len() - i,
            {
                let ghost prev = result.warnings@;
                result.add_warning(warnings[i].clone());
                assert(texts(result.warnings@) =~= texts(prev).push(warnings@[i as int]@));
                assert(texts(result.warnings@) =~= texts(warnings@).take(i + 1));
                i = i + 1;
            }
            assert(texts(warnings@).take(i as int) =~= texts(warnings@));
        },
        Some(Err(e)) => {
            let mut m = "Invalid metadata file: ".to_string();
            m.append(e.as_str());
            result.add_error(m);
        },
    }
    let ghost after_meta_errors = texts(result.errors@);
    let ghost after_meta_warnings = texts(result.warnings@);
    if !has_content {
        result.add_warning("No recognizable Godot asset files found (scenes, scripts, resources)".to_string());
    }
    match security {
        Err(e) => {
            let mut m = "Security validation failed: ".to_string();
            m.append(e.as_str());
            result.add_error(m);
        },
        Ok(_) => {},
    }
    let ghost spec_r = validation_of(dir_text@, exists, is_dir, meta, has_content, unit_text(security));
    assert(texts(result.errors@) =~= spec_r.1);
    assert(texts(result.warnings@) =~= spec_r.2);
    result
}

/// The lines joined with a line break between each two.
pub open spec fn join_lines(lines: Seq<Seq<char>>) -> Seq<char>
    decreases lines.len(),
{
    if lines.len() == 0 {
        Seq::empty()
    } else if lines.len() == 1 {
        lines[0]
    } else {
        join_lines(lines.drop_last()) + "\n"@ + lines.last()
    }
}

/// The message of an import whose validation failed: its errors, one per line.
pub fn validation_failure_message(v: &ValidationResult) -> (r: String)
    ensures
        r@ == "Asset validation failed:\n"@ + join_lines(texts(v.errors@)),
{
    let ghost es = texts(v.errors@);
    let mut joined = String::new();
    let mut i: usize = 0;
    while i < v.errors.len()
        invariant
            i <= v.errors@.len(),
            es == texts(v.errors@),
            joined@ == join_lines(es.take(i as int)),
        decreases v.errors.len() - i,
    {
        assert(es.take(i + 1).drop_last() =~= es.take(i as int));
        assert(es.take(i + 1).last() == v.errors@[i as int]@);
        if i > 0 {
            joined.append("\n");
        }
        joined.append(v.errors[i].as_str());
        proof {
            if i == 0 {
                assert(joined@ =~= es.take(1)[0]);
            }
        }
        i = i + 1;
    }
    assert(es.take(i as int) =~= es);
    let mut r = "Asset validation failed:\n".to_string();
    r.append(joined.as_str());
    r
}


// ===== Laws of the catalogue =====

/// After an asset is added, looking up its ID finds it, at the end of the
/// catalogue; the catalogue grows by one unless an asset with that ID was there.
pub proof fn lemma_add_then_find(catalog: Seq<Asset>, a: Asset)
    ensures
        ({
            let after = catalog.filter(other_id(a.id@)).push(a);
            &&& first_index(after, has_id(a.id@)) == after.len() - 1
            &&& after[after.len() - 1] == a
            &&& (forall|i: int| 0 <= i < catalog.len() ==> #[trigger] catalog[i].id@ != a.id@) ==> after.len()
                == catalog.len() + 1
        }),
{
    let kept = catalog.filter(other_id(a.id@));
    let after = kept.push(a);
    assert forall|j: int| 0 <= j < after.len() - 1 implies !has_id(a.id@)(#[trigger] after[j]) by {
        assert(after[j] == kept[j]);
        assert(other_id(a.id@)(kept[j]));
    }
    lemma_first_index_found(after, has_id(a.id@), after.len() - 1);
    crate::seqs::lemma_filter_all_or_shorter(catalog, other_id(a.id@));
}

/// After the assets with an ID are removed, looking the ID up finds nothing, and
/// the others stay in order.
pub proof fn lemma_remove_then_absent(catalog: Seq<Asset>, id: Seq<char>)
    ensures
        first_index(catalog.filter(other_id(id)), has_id(id)) == -1,
{
    let kept = catalog.filter(other_id(id));
    assert forall|j: int| 0 <= j < kept.len() implies !has_id(id)(#[trigger] kept[j]) by {
        assert(other_id(id)(kept[j]));
    }
    lemma_first_index_absent(kept, has_id(id));
}

/// The first `k` pages, one after the other.
pub open spec fn pages_upto(s: Seq<Asset>, page_size: int, k: nat) -> Seq<Asset>
    decreases k,
{
    if k == 0 {
        Seq::empty()
    } else {
        pages_upto(s, page_size, (k - 1) as nat) + page_slice(s, k - 1, page_size)
    }
}

/// Paging through the catalogue gives it back: the first `k` pages together are
/// its first `k * page_size` assets (all of them once the pages run out), and a
/// page is empty exactly when it starts past the end.
pub proof fn lemma_pages_concatenate(s: Seq<Asset>, page_size: int, k: nat)
    requires
        page_size > 0,
    ensures
        pages_upto(s, page_size, k) == s.take(if k * page_size < s.len() { k * page_size } else { s.len() as int }),
        page_slice(s, k as int, page_size).len() == 0 <==> k * page_size >= s.len(),
    decreases k,
{
    assert(k * page_size >= 0) by (nonlinear_arith)
        requires
            page_size > 0,
    ;
    if k > 0 {
        lemma_pages_concatenate(s, page_size, (k - 1) as nat);
        assert((k - 1) * page_size + page_size == k * page_size) by (nonlinear_arith);
        let prev_end = if (k - 1) * page_size < s.len() { (k - 1) * page_size } else { s.len() as int };
        let end = if k * page_size < s.len() { k * page_size } else { s.len() as int };
        assert(((k - 1) as nat) * page_size == (k - 1) * page_size);
        assert(pages_upto(s, page_size, (k - 1) as nat) == s.take(prev_end));
        assert(pages_upto(s, page_size, k) == pages_upto(s, page_size, (k - 1) as nat) + page_slice(
            s,
            k - 1,
            page_size,
        ));
        assert(s.take(prev_end) + page_slice(s, k - 1, page_size) =~= s.take(end));
    } else {
        assert(k * page_size == 0) by (nonlinear_arith)
            requires
                k == 0,
        ;
        assert(s.take(0) =~= Seq::<Asset>::empty());
    }
}

/// What a search finds: given the results `r` of a search of `catalog` for
/// `query`, every asset of the catalogue whose name, one of whose tags, or whose
/// description holds the query (both in lower case) is among the results, and
/// every result is such an asset.
pub proof fn lemma_search_results(catalog: Seq<Asset>, query: Seq<char>, r: Seq<Asset>)
    requires
        same_assets(r, catalog.filter(search_hit(query))),
    ensures
        forall|i: int|
            0 <= i < catalog.len() && (contains_seq(lowercase(catalog[i].name@), lowercase(query)) || (exists|j: int|
                0 <= j < catalog[i].tags@.len() && contains_seq(lowercase(#[trigger] catalog[i].tags@[j]@), lowercase(query)))
                || contains_seq(lowercase(catalog[i].description@), lowercase(query))) ==> exists|k: int|
                0 <= k < r.len() && same_asset(#[trigger] r[k], catalog[i]),
        forall|k: int|
            0 <= k < r.len() ==> contains_seq(lowercase((#[trigger] r[k]).name@), lowercase(query)) || (exists|j: int|
                0 <= j < r[k].tags@.len() && contains_seq(lowercase(#[trigger] r[k].tags@[j]@), lowercase(query)))
                || contains_seq(lowercase(r[k].description@), lowercase(query)),
{
    let f = catalog.filter(search_hit(query));
    assert forall|i: int|
        0 <= i < catalog.len() && (contains_seq(lowercase(catalog[i].name@), lowercase(query)) || (exists|j: int|
            0 <= j < catalog[i].tags@.len() && contains_seq(lowercase(#[trigger] catalog[i].tags@[j]@), lowercase(query)))
            || contains_seq(lowercase(catalog[i].description@), lowercase(query))) implies exists|k: int|
            0 <= k < r.len() && same_asset(#[trigger] r[k], catalog[i]) by {
        assert(search_hit(query)(catalog[i]));
        catalog.lemma_filter_contains(search_hit(query), i);
        let k = choose|k: int| 0 <= k < f.len() && f[k] == catalog[i];
        assert(same_asset(r[k], f[k]));
    }
    assert forall|k: int|
        0 <= k < r.len() implies contains_seq(lowercase((#[trigger] r[k]).name@), lowercase(query)) || (exists|j: int|
            0 <= j < r[k].tags@.len() && contains_seq(lowercase(#[trigger] r[k].tags@[j]@), lowercase(query)))
            || contains_seq(lowercase(r[k].description@), lowercase(query)) by {
        catalog.lemma_filter_pred(search_hit(query), k);
        assert(same_asset(r[k], f[k]));
        assert(search_hit(query)(f[k]));
        if tag_holds(f[k], query) {
            let j = choose|j: int| 0 <= j < f[k].tags@.len() && contains_seq(lowercase(f[k].tags@[j]@), lowercase(query));
            assert(r[k].tags@[j] == f[k].tags@[j]);
        }
    }
}

/// Version texts compare by their dot-separated numbers as integers, from the
/// left, a missing number counting as 0: where the numbers first differ, the
/// version with the greater number is the newer one.
pub proof fn lemma_version_first_difference(a: Seq<char>, b: Seq<char>, i: int)
    requires
        0 <= i,
        i < version_numbers(a).len() || i < version_numbers(b).len(),
        forall|j: int|
            0 <= j < i ==> (if j < version_numbers(a).len() { version_numbers(a)[j] as int } else { 0 }) == (if j
                < version_numbers(b).len() { version_numbers(b)[j] as int } else { 0 }),
        (if i < version_numbers(a).len() { version_numbers(a)[i] as int } else { 0 }) != (if i < version_numbers(
            b,
        ).len() { version_numbers(b)[i] as int } else { 0 }),
    ensures
        version_is_newer(a, b) <==> (if i < version_numbers(a).len() { version_numbers(a)[i] as int } else { 0 }) > (
        if i < version_numbers(b).len() { version_numbers(b)[i] as int } else { 0 }),
{
    let pa = version_numbers(a);
    let pb = version_numbers(b);
    lemma_newer_from_equal_prefix(pa, pb, 0, i);
}

/// Equal numbers before `i` leave the comparison to what follows.
proof fn lemma_newer_from_equal_prefix(pa: Seq<u32>, pb: Seq<u32>, k: int, i: int)
    requires
        0 <= k <= i,
        i < longer(pa, pb),
        forall|j: int|
            0 <= j < i ==> (if j < pa.len() { pa[j] as int } else { 0 }) == (if j < pb.len() { pb[j] as int } else { 0 }),
    ensures
        newer_from(pa, pb, k) == newer_from(pa, pb, i),
    decreases i - k,
{
    if k < i {
        assert(number_at(pa, k) == number_at(pb, k));
        lemma_newer_from_equal_prefix(pa, pb, k + 1, i);
    }
}

} // verus!
