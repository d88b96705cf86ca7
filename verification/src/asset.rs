//! Assets of the Godot Asset Library: semantic versions, version history,
//! categories and dependencies.
use vstd::prelude::*;
use crate::text::{
    copy_strings,
    append_chars, append_str, chars_equal, chars_of, compare_chars, copy_opt_string, decimal,
    decimal_chars, find_char, index_of, lemma_decimal_digits, lemma_index_of_absent,
    lemma_index_of_first, lemma_parse_decimal, lemma_split_concat, lemma_split_no_sep, lex_sign,
    opt_view, parse_u32, str_equal, parse_u32_spec, slice_chars, split_chars, split_spec, string_from_chars,
};

use crate::prerelease::{compare_pre_release, lemma_pre_order, pre_sign};

verus! {

// ===== SemanticVersion =====

/// Semantic version following the semver specification (major.minor.patch)
#[derive(Debug, Clone, PartialEq, Eq, Hash)]
pub struct SemanticVersion {
    pub major: u32,
    pub minor: u32,
    pub patch: u32,
    /// Optional pre-release identifier (e.g., "alpha", "beta.1", "rc.2")
    pub pre_release: Option<String>,
}

/// The parts of a version text: `major.minor.patch`, then an optional `-` and a
/// pre-release identifier that runs to the end of the text.
pub open spec fn semver_parts(s: Seq<char>) -> (Seq<char>, Option<Seq<char>>) {
    let d = index_of(s, '-');
    if d >= 0 {
        (s.take(d), Some(s.skip(d + 1)))
    } else {
        (s, None)
    }
}

/// The version that a text spells, if it spells one: major, minor, patch and
/// pre-release.
pub open spec fn parse_semver(s: Seq<char>) -> Option<(u32, u32, u32, Option<Seq<char>>)> {
    let (core, pre) = semver_parts(s);
    let parts = split_spec(core, '.');
    if parts.len() == 3 && parse_u32_spec(parts[0]) is Some && parse_u32_spec(parts[1]) is Some
        && parse_u32_spec(parts[2]) is Some {
        Some(
            (
                parse_u32_spec(parts[0]).unwrap(),
                parse_u32_spec(parts[1]).unwrap(),
                parse_u32_spec(parts[2]).unwrap(),
                pre,
            ),
        )
    } else {
        None
    }
}

/// The message with which `SemanticVersion::parse` refuses a text.
pub open spec fn semver_parse_error(s: Seq<char>) -> Seq<char> {
    let parts = split_spec(semver_parts(s).0, '.');
    if parts.len() != 3 {
        "Invalid version format: "@ + s
    } else if parse_u32_spec(parts[0]) is None {
        "Invalid major version: "@ + parts[0]
    } else if parse_u32_spec(parts[1]) is None {
        "Invalid minor version: "@ + parts[1]
    } else {
        "Invalid patch version: "@ + parts[2]
    }
}

/// The text of a version: `major.minor.patch`, and `-pre` when there is a
/// pre-release identifier.
pub open spec fn semver_text(major: u32, minor: u32, patch: u32, pre: Option<Seq<char>>) -> Seq<char> {
    let core = decimal(major as nat) + seq!['.'] + decimal(minor as nat) + seq!['.'] + decimal(
        patch as nat,
    );
    match pre {
        Some(p) => core + seq!['-'] + p,
        None => core,
    }
}

/// Sign of the comparison of two numbers.
pub open spec fn num_sign(a: u32, b: u32) -> int {
    if a < b { -1 } else if a > b { 1 } else { 0 }
}

/// Precedence of two versions: negative, zero or positive as `a` is older than,
/// the same as, or newer than `b`. Numbers are compared first; then a version
/// without pre-release identifier is newer than one with; two pre-release
/// identifiers are compared by semver precedence (`pre_sign`).
pub open spec fn semver_sign(a: SemanticVersion, b: SemanticVersion) -> int {
    if a.major != b.major {
        num_sign(a.major, b.major)
    } else if a.minor != b.minor {
        num_sign(a.minor, b.minor)
    } else if a.patch != b.patch {
        num_sign(a.patch, b.patch)
    } else {
        match (a.pre_release, b.pre_release) {
            (None, None) => 0,
            (None, Some(_)) => 1,
            (Some(_), None) => -1,
            (Some(x), Some(y)) => pre_sign(x@, y@),
        }
    }
}

/// Two versions are the same: same numbers and same pre-release identifier.
pub open spec fn semver_same(a: SemanticVersion, b: SemanticVersion) -> bool {
    a.major == b.major && a.minor == b.minor && a.patch == b.patch && opt_view(a.pre_release)
        == opt_view(b.pre_release)
}

impl SemanticVersion {
    /// The text of this version.
    pub open spec fn text(self) -> Seq<char> {
        semver_text(self.major, self.minor, self.patch, opt_view(self.pre_release))
    }

    /// Creates a new semantic version
    pub fn new(major: u32, minor: u32, patch: u32) -> (r: Self)
        ensures
            r.major == major,
            r.minor == minor,
            r.patch == patch,
            r.pre_release is None,
    {
        Self { major, minor, patch, pre_release: None }
    }

    /// Creates a new semantic version with pre-release identifier
    pub fn with_pre_release(major: u32, minor: u32, patch: u32, pre_release: String) -> (r: Self)
        ensures
            r.major == major,
            r.minor == minor,
            r.patch == patch,
            r.pre_release == Some(pre_release),
    {
        Self { major, minor, patch, pre_release: Some(pre_release) }
    }

    /// Parses a version string (e.g., "1.2.3" or "2.0.0-beta.1")
    pub fn parse(version_str: &str) -> (r: Result<Self, String>)
        ensures
            match r {
                Ok(v) => parse_semver(version_str@) == Some(
                    (v.major, v.minor, v.patch, opt_view(v.pre_release)),
                ),
                Err(e) => parse_semver(version_str@) is None && e@ == semver_parse_error(
                    version_str@,
                ),
            },
    {
        let chars = chars_of(version_str);
        let (core, pre_release) = match find_char(&chars, '-') {
            Some(d) => {
                let core = slice_chars(&chars, 0, d);
                let pre = slice_chars(&chars, d + 1, chars.len());
                (core, Some(string_from_chars(&pre)))
            },
            None => (chars, None),
        };
        assert(core@ == semver_parts(version_str@).0);
        assert(opt_view(pre_release) == semver_parts(version_str@).1);
        let parts = split_chars(&core, '.');
        if parts.len() != 3 {
            let mut e = "Invalid version format: ".to_string();
            e.append(version_str);
            return Err(e);
        }
        let major = match parse_u32(&parts[0]) {
            Some(n) => n,
            None => {
                let mut e = "Invalid major version: ".to_string();
                let p = string_from_chars(&parts[0]);
                e.append(p.as_str());
                return Err(e);
            },
        };
        let minor = match parse_u32(&parts[1]) {
            Some(n) => n,
            None => {
                let mut e = "Invalid minor version: ".to_string();
                let p = string_from_chars(&parts[1]);
                e.append(p.as_str());
                return Err(e);
            },
        };
        let patch = match parse_u32(&parts[2]) {
            Some(n) => n,
            None => {
                let mut e = "Invalid patch version: ".to_string();
                let p = string_from_chars(&parts[2]);
                e.append(p.as_str());
                return Err(e);
            },
        };
        Ok(Self { major, minor, patch, pre_release })
    }

    /// Converts the version to a string representation
    pub fn to_string(&self) -> (r: String)
        ensures
            r@ == self.text(),
    {
        let mut v = decimal_chars(self.major);
        v.push('.');
        let m = decimal_chars(self.minor);
        append_chars(&mut v, &m);
        v.push('.');
        let p = decimal_chars(self.patch);
        append_chars(&mut v, &p);
        match &self.pre_release {
            Some(pre) => {
                v.push('-');
                append_str(&mut v, pre.as_str());
            },
            None => {},
        }
        string_from_chars(&v)
    }

    /// Checks if this version is compatible with another (same major version)
    pub fn is_compatible_with(&self, other: &SemanticVersion) -> (r: bool)
        ensures
            r == (self.major == other.major && self.major > 0),
    {
        self.major == other.major && self.major > 0
    }

    /// Precedence of this version against another: -1, 0 or 1 as it is older
    /// than, the same as, or newer than `other`.
    pub fn compare(&self, other: &SemanticVersion) -> (r: i8)
        ensures
            r as int == semver_sign(*self, *other),
    {
        if self.major != other.major {
            return if self.major < other.major { -1 } else { 1 };
        }
        if self.minor != other.minor {
            return if self.minor < other.minor { -1 } else { 1 };
        }
        if self.patch != other.patch {
            return if self.patch < other.patch { -1 } else { 1 };
        }
        match (&self.pre_release, &other.pre_release) {
            (None, None) => 0,
            (None, Some(_)) => 1,
            (Some(_), None) => -1,
            (Some(a), Some(b)) => compare_pre_release(a.as_str(), b.as_str()),
        }
    }

    /// Whether two versions are the same version (same numbers and pre-release).
    pub fn same_as(&self, other: &SemanticVersion) -> (r: bool)
        ensures
            r == semver_same(*self, *other),
    {
        if self.major != other.major || self.minor != other.minor || self.patch != other.patch {
            return false;
        }
        match (&self.pre_release, &other.pre_release) {
            (None, None) => true,
            (Some(a), Some(b)) => {
                let x = chars_of(a.as_str());
                let y = chars_of(b.as_str());
                chars_equal(&x, &y)
            },
            _ => false,
        }
    }

    /// A copy of this version.
    pub fn copy(&self) -> (r: Self)
        ensures
            r == *self,
    {
        Self {
            major: self.major,
            minor: self.minor,
            patch: self.patch,
            pre_release: copy_opt_string(&self.pre_release),
        }
    }
}

impl Default for SemanticVersion {
    fn default() -> (r: Self)
        ensures
            r.major == 0 && r.minor == 0 && r.patch == 0 && r.pre_release is None,
    {
        Self::new(0, 0, 0)
    }
}

// ===== Laws of versions =====

/// The text of a version parses back to the same version.
pub proof fn lemma_version_text_roundtrip(major: u32, minor: u32, patch: u32, pre: Option<Seq<char>>)
    ensures
        parse_semver(semver_text(major, minor, patch, pre)) == Some((major, minor, patch, pre)),
{
    let a = decimal(major as nat);
    let b = decimal(minor as nat);
    let c = decimal(patch as nat);
    lemma_decimal_digits(major as nat);
    lemma_decimal_digits(minor as nat);
    lemma_decimal_digits(patch as nat);
    lemma_parse_decimal(major);
    lemma_parse_decimal(minor);
    lemma_parse_decimal(patch);
    let core = a + seq!['.'] + b + seq!['.'] + c;
    let text = semver_text(major, minor, patch, pre);
    assert forall|i: int| 0 <= i < core.len() implies core[i] != '-' by {
        if i < a.len() {
            assert(core[i] == a[i]);
        } else if i == a.len() {
        } else if i < a.len() + 1 + b.len() {
            assert(core[i] == b[i - a.len() - 1]);
        } else if i == a.len() + 1 + b.len() {
        } else {
            assert(core[i] == c[i - a.len() - 2 - b.len()]);
        }
    }
    match pre {
        Some(p) => {
            assert(text =~= core + seq!['-'] + p);
            assert(text[core.len() as int] == '-');
            assert forall|j: int| 0 <= j < core.len() implies text[j] != '-' by {
                assert(text[j] == core[j]);
            }
            lemma_index_of_first(text, '-', core.len() as int);
            assert(text.take(core.len() as int) =~= core);
            assert(text.skip(core.len() as int + 1) =~= p);
        },
        None => {
            lemma_index_of_absent(text, '-');
        },
    }
    assert(semver_parts(text).0 == core);
    lemma_split_no_sep(a, '.');
    lemma_split_no_sep(b, '.');
    lemma_split_no_sep(c, '.');
    lemma_split_concat(a, b, '.');
    lemma_split_concat(a + seq!['.'] + b, c, '.');
    assert(split_spec(core, '.') =~= seq![a, b, c]);
}

/// A version's text, parsed again, gives back that version.
pub proof fn lemma_semver_roundtrip(v: SemanticVersion)
    ensures
        parse_semver(v.text()) == Some((v.major, v.minor, v.patch, opt_view(v.pre_release))),
{
    lemma_version_text_roundtrip(v.major, v.minor, v.patch, opt_view(v.pre_release));
}

// ===== AssetVersionInfo =====

/// Information about a specific version of an asset
#[derive(Debug, Clone, PartialEq, Eq)]
pub struct AssetVersionInfo {
    /// Semantic version
    pub version: SemanticVersion,
    /// Release date (ISO 8601 format string)
    pub release_date: String,
    /// Changelog or release notes
    pub changelog: String,
    /// Download URL for this specific version
    pub download_url: String,
    /// Whether this version is marked as deprecated
    pub deprecated: bool,
}

impl AssetVersionInfo {
    /// Creates a new asset version info
    pub fn new(version: SemanticVersion, release_date: String, changelog: String, download_url: String) -> (r: Self)
        ensures
            r == (AssetVersionInfo { version, release_date, changelog, download_url, deprecated: false }),
    {
        Self { version, release_date, changelog, download_url, deprecated: false }
    }

    /// Marks this version as deprecated
    pub fn mark_deprecated(&mut self)
        ensures
            *final(self) == (AssetVersionInfo { deprecated: true, ..*old(self) }),
    {
        self.deprecated = true;
    }

    /// A copy of this version record.
    pub fn copy(&self) -> (r: Self)
        ensures
            r == *self,
    {
        Self {
            version: self.version.copy(),
            release_date: self.release_date.clone(),
            changelog: self.changelog.clone(),
            download_url: self.download_url.clone(),
            deprecated: self.deprecated,
        }
    }
}

// ===== AssetCategory =====

/// Category/type of asset in the Godot Asset Library
#[derive(Debug, Clone, Copy, PartialEq, Eq, Hash, Structural)]
pub enum AssetCategory {
    /// 2D tools, sprites, and resources
    TwoD,
    /// 3D models, meshes, and scenes
    ThreeD,
    /// Shader files and shader graphs
    Shaders,
    /// Materials and textures
    Materials,
    /// Audio files (music, sound effects, etc.)
    Audio,
    /// Script files (GDScript, C#, etc.)
    Scripts,
    /// Editor tools and plugins
    Tools,
    /// Templates and project starters
    Templates,
    /// Demos and example projects
    Demos,
    /// Miscellaneous assets
    Misc,
}

/// The display name of a category.
pub open spec fn category_name(c: AssetCategory) -> Seq<char> {
    match c {
        AssetCategory::TwoD => "2D"@,
        AssetCategory::ThreeD => "3D"@,
        AssetCategory::Shaders => "Shaders"@,
        AssetCategory::Materials => "Materials"@,
        AssetCategory::Audio => "Audio"@,
        AssetCategory::Scripts => "Scripts"@,
        AssetCategory::Tools => "Tools"@,
        AssetCategory::Templates => "Templates"@,
        AssetCategory::Demos => "Demos"@,
        AssetCategory::Misc => "Miscellaneous"@,
    }
}

/// Every category, in the order of their declaration.
pub open spec fn all_categories() -> Seq<AssetCategory> {
    seq![
        AssetCategory::TwoD,
        AssetCategory::ThreeD,
        AssetCategory::Shaders,
        AssetCategory::Materials,
        AssetCategory::Audio,
        AssetCategory::Scripts,
        AssetCategory::Tools,
        AssetCategory::Templates,
        AssetCategory::Demos,
        AssetCategory::Misc,
    ]
}

impl AssetCategory {
    /// Returns a human-readable display name for the category
    pub fn display_name(&self) -> (r: &'static str)
        ensures
            r@ == category_name(*self),
    {
        match self {
            AssetCategory::TwoD => "2D",
            AssetCategory::ThreeD => "3D",
            AssetCategory::Shaders => "Shaders",
            AssetCategory::Materials => "Materials",
            AssetCategory::Audio => "Audio",
            AssetCategory::Scripts => "Scripts",
            AssetCategory::Tools => "Tools",
            AssetCategory::Templates => "Templates",
            AssetCategory::Demos => "Demos",
            AssetCategory::Misc => "Miscellaneous",
        }
    }

    /// Returns all available categories
    pub fn all() -> (r: Vec<AssetCategory>)
        ensures
            r@ == all_categories(),
    {
        let r = vec![
            AssetCategory::TwoD,
            AssetCategory::ThreeD,
            AssetCategory::Shaders,
            AssetCategory::Materials,
            AssetCategory::Audio,
            AssetCategory::Scripts,
            AssetCategory::Tools,
            AssetCategory::Templates,
            AssetCategory::Demos,
            AssetCategory::Misc,
        ];
        assert(r@ =~= all_categories());
        r
    }

    /// The display name as an owned string (what the category shows as text).
    pub fn to_string(&self) -> (r: String)
        ensures
            r@ == category_name(*self),
    {
        self.display_name().to_string()
    }
}

impl Default for AssetCategory {
    fn default() -> (r: Self)
        ensures
            r == AssetCategory::Misc,
    {
        AssetCategory::Misc
    }
}

// ===== AssetDependency =====

/// Represents a dependency on another asset
#[derive(Debug, Clone, PartialEq, Eq, Hash)]
pub struct AssetDependency {
    /// ID of the dependent asset
    pub asset_id: String,
    /// Name of the dependent asset
    pub asset_name: String,
    /// Required version or version constraint (e.g., "1.0.0", ">=2.0.0", "^1.5.0")
    pub version_requirement: String,
    /// Whether this dependency is optional or required
    pub optional: bool,
}

impl AssetDependency {
    /// Creates a new required dependency
    pub fn new(asset_id: String, asset_name: String, version_requirement: String) -> (r: Self)
        ensures
            r == (AssetDependency { asset_id, asset_name, version_requirement, optional: false }),
    {
        Self { asset_id, asset_name, version_requirement, optional: false }
    }

    /// Creates a new optional dependency
    pub fn optional(asset_id: String, asset_name: String, version_requirement: String) -> (r: Self)
        ensures
            r == (AssetDependency { asset_id, asset_name, version_requirement, optional: true }),
    {
        Self { asset_id, asset_name, version_requirement, optional: true }
    }

    /// Checks if this dependency is required
    pub fn is_required(&self) -> (r: bool)
        ensures
            r == !self.optional,
    {
        !self.optional
    }

    /// A copy of this dependency.
    pub fn copy(&self) -> (r: Self)
        ensures
            r == *self,
    {
        Self {
            asset_id: self.asset_id.clone(),
            asset_name: self.asset_name.clone(),
            version_requirement: self.version_requirement.clone(),
            optional: self.optional,
        }
    }
}

// ===== Asset =====

/// Represents an asset in the Godot Asset Library
#[derive(Debug, Clone, PartialEq, Eq)]
pub struct Asset {
    /// Unique identifier for the asset
    pub id: String,
    /// Display name of the asset
    pub name: String,
    /// Category/type of the asset
    pub category: AssetCategory,
    /// Local filesystem path where the asset is stored (if downloaded)
    pub path: String,
    /// Author/creator of the asset
    pub author: String,
    /// Version string (e.g., "1.0.0", "2.1.3")
    pub version: String,
    /// Detailed description of the asset
    pub description: String,
    /// Tags/keywords for categorization and search
    pub tags: Vec<String>,
    /// URL to the preview/thumbnail image (optional)
    pub preview_url: Option<String>,
    /// URL to download the asset
    pub download_url: String,
    /// Dependencies on other assets
    pub dependencies: Vec<AssetDependency>,
    /// Version history (all available versions, sorted from newest to oldest)
    pub version_history: Vec<AssetVersionInfo>,
}

/// Inserts a version record into a history that runs from newest to oldest: it
/// goes before the first record that is older, after all that are not.
pub open spec fn insert_by_version(s: Seq<AssetVersionInfo>, x: AssetVersionInfo) -> Seq<AssetVersionInfo>
    decreases s.len(),
{
    if s.len() == 0 {
        seq![x]
    } else if semver_sign(s[0].version, x.version) < 0 {
        seq![x] + s
    } else {
        seq![s[0]] + insert_by_version(s.drop_first(), x)
    }
}

/// A history sorted from newest to oldest; records of the same precedence keep
/// their order (a stable sort).
pub open spec fn sort_by_version_desc(s: Seq<AssetVersionInfo>) -> Seq<AssetVersionInfo>
    decreases s.len(),
{
    if s.len() == 0 {
        s
    } else {
        insert_by_version(sort_by_version_desc(s.drop_last()), s.last())
    }
}

/// Every record is at least as new as every record after it.
pub open spec fn newest_first(s: Seq<AssetVersionInfo>) -> bool {
    forall|i: int, j: int| 0 <= i <= j < s.len() ==> semver_sign(#[trigger] s[i].version, #[trigger] s[j].version) >= 0
}

/// Inserting a record into a history sorted newest first keeps it so, and adds
/// exactly the record.
proof fn lemma_insert_by_version(s: Seq<AssetVersionInfo>, x: AssetVersionInfo)
    requires
        newest_first(s),
    ensures
        newest_first(insert_by_version(s, x)),
        insert_by_version(s, x).to_multiset() == s.to_multiset().insert(x),
        insert_by_version(s, x).len() == s.len() + 1,
{
    let p = |v: AssetVersionInfo| semver_sign(v.version, x.version) < 0;
    crate::seqs::lemma_first_index_spec(s, p);
    let f = crate::seqs::first_index(s, p);
    let j = if f < 0 { s.len() as int } else { f };
    assert forall|k: int| 0 <= k < j implies semver_sign(#[trigger] s[k].version, x.version) >= 0 by {
        assert(!p(s[k]));
    }
    if j < s.len() {
        assert(p(s[j]));
    }
    lemma_insert_by_version_at(s, x, j);
    vstd::seq_lib::to_multiset_insert(s, j, x);
    let r = s.insert(j, x);
    assert forall|a: int, b: int| 0 <= a <= b < r.len() implies semver_sign(#[trigger] r[a].version, #[trigger] r[b].version) >= 0 by {
        lemma_semver_order(r[a].version, r[b].version, r[a].version);
        if b < j {
            assert(r[a] == s[a] && r[b] == s[b]);
        } else if b == j {
            if a < j {
                assert(r[a] == s[a]);
            }
        } else {
            assert(r[b] == s[b - 1]);
            if a < j {
                assert(r[a] == s[a]);
            } else if a == j {
                // x is newer than s[j], which is at least as new as s[b - 1]
                lemma_semver_order(s[b - 1].version, s[j].version, x.version);
                lemma_semver_order(s[j].version, s[b - 1].version, s[j].version);
                lemma_semver_order(x.version, s[b - 1].version, x.version);
                lemma_semver_order(s[j].version, x.version, s[j].version);
            } else {
                assert(r[a] == s[a - 1]);
            }
        }
    }
}

/// Sorting a history gives one sorted newest first, with the same records.
proof fn lemma_sort_by_version_desc(s: Seq<AssetVersionInfo>)
    ensures
        newest_first(sort_by_version_desc(s)),
        sort_by_version_desc(s).to_multiset() == s.to_multiset(),
        sort_by_version_desc(s).len() == s.len(),
    decreases s.len(),
{
    if s.len() > 0 {
        lemma_sort_by_version_desc(s.drop_last());
        vstd::seq_lib::to_multiset_insert(s.drop_last(), s.len() - 1, s.last());
        lemma_insert_by_version(sort_by_version_desc(s.drop_last()), s.last());
        assert(s =~= s.drop_last().insert(s.len() - 1, s.last()));
    } else {
        assert(s.to_multiset() =~= sort_by_version_desc(s).to_multiset());
    }
}

/// Two assets hold the same data.
pub open spec fn same_asset(a: Asset, b: Asset) -> bool {
    &&& a.id == b.id
    &&& a.name == b.name
    &&& a.category == b.category
    &&& a.path == b.path
    &&& a.author == b.author
    &&& a.version == b.version
    &&& a.description == b.description
    &&& a.tags@ == b.tags@
    &&& a.preview_url == b.preview_url
    &&& a.download_url == b.download_url
    &&& a.dependencies@ == b.dependencies@
    &&& a.version_history@ == b.version_history@
}

/// The assets of `a` are copies of those of `b`, in the same order.
pub open spec fn same_assets(a: Seq<Asset>, b: Seq<Asset>) -> bool {
    a.len() == b.len() && forall|i: int| 0 <= i < a.len() ==> same_asset(#[trigger] a[i], b[i])
}

/// The dependency is required.
pub open spec fn dep_required(d: AssetDependency) -> bool {
    !d.optional
}

/// The dependency is optional.
pub open spec fn dep_optional(d: AssetDependency) -> bool {
    d.optional
}

/// The version record is not deprecated.
pub open spec fn version_available(v: AssetVersionInfo) -> bool {
    !v.deprecated
}

/// Drops the references of a list of borrowed dependencies.
pub open spec fn deref_deps(s: Seq<&AssetDependency>) -> Seq<AssetDependency> {
    s.map_values(|d: &AssetDependency| *d)
}

/// Drops the references of a list of borrowed version records.
pub open spec fn deref_versions(s: Seq<&AssetVersionInfo>) -> Seq<AssetVersionInfo> {
    s.map_values(|v: &AssetVersionInfo| *v)
}

impl Asset {
    /// Creates a new Asset with the given parameters
    pub fn new(
        id: String,
        name: String,
        category: AssetCategory,
        path: String,
        author: String,
        version: String,
        description: String,
        tags: Vec<String>,
        preview_url: Option<String>,
        download_url: String,
        dependencies: Vec<AssetDependency>,
        version_history: Vec<AssetVersionInfo>,
    ) -> (r: Self)
        ensures
            r == (Asset {
                id,
                name,
                category,
                path,
                author,
                version,
                description,
                tags,
                preview_url,
                download_url,
                dependencies,
                version_history,
            }),
    {
        Self {
            id,
            name,
            category,
            path,
            author,
            version,
            description,
            tags,
            preview_url,
            download_url,
            dependencies,
            version_history,
        }
    }

    /// A copy of the asset.
    pub fn copy(&self) -> (r: Self)
        ensures
            same_asset(r, *self),
    {
        let mut deps: Vec<AssetDependency> = Vec::new();
        let mut i: usize = 0;
        while i < self.dependencies.len()
            invariant
                i <= self.dependencies@.len(),
                deps@ == self.dependencies@.take(i as int),
            decreases self.dependencies.len() - i,
        {
            deps.push(self.dependencies[i].copy());
            i = i + 1;
            assert(deps@ =~= self.dependencies@.take(i as int));
        }
        assert(self.dependencies@.take(i as int) =~= self.dependencies@);
        let mut versions: Vec<AssetVersionInfo> = Vec::new();
        let mut i: usize = 0;
        while i < self.version_history.len()
            invariant
                i <= self.version_history@.len(),
                versions@ == self.version_history@.take(i as int),
            decreases self.version_history.len() - i,
        {
            versions.push(self.version_history[i].copy());
            i = i + 1;
            assert(versions@ =~= self.version_history@.take(i as int));
        }
        assert(self.version_history@.take(i as int) =~= self.version_history@);
        Self {
            id: self.id.clone(),
            name: self.name.clone(),
            category: self.category,
            path: self.path.clone(),
            author: self.author.clone(),
            version: self.version.clone(),
            description: self.description.clone(),
            tags: copy_strings(&self.tags),
            preview_url: copy_opt_string(&self.preview_url),
            download_url: self.download_url.clone(),
            dependencies: deps,
            version_history: versions,
        }
    }

    /// Creates a minimal Asset (useful for testing or placeholders)
    pub fn minimal(id: String, name: String) -> (r: Self)
        ensures
            r.id == id,
            r.name == name,
            r.category == AssetCategory::Misc,
            r.path@.len() == 0,
            r.author@.len() == 0,
            r.version@ == "0.0.0"@,
            r.description@.len() == 0,
            r.tags@.len() == 0,
            r.preview_url is None,
            r.download_url@.len() == 0,
            r.dependencies@.len() == 0,
            r.version_history@.len() == 0,
    {
        Self {
            id,
            name,
            category: AssetCategory::default(),
            path: String::new(),
            author: String::new(),
            version: "0.0.0".to_string(),
            description: String::new(),
            tags: Vec::new(),
            preview_url: None,
            download_url: String::new(),
            dependencies: Vec::new(),
            version_history: Vec::new(),
        }
    }

    /// Adds a dependency to this asset
    pub fn add_dependency(&mut self, dependency: AssetDependency)
        ensures
            final(self).dependencies@ == old(self).dependencies@.push(dependency),
            *final(self) == (Asset { dependencies: final(self).dependencies, ..*old(self) }),
    {
        self.dependencies.push(dependency);
    }

    /// Checks if this asset has any dependencies
    pub fn has_dependencies(&self) -> (r: bool)
        ensures
            r == (self.dependencies@.len() > 0),
    {
        !self.dependencies.is_empty()
    }

    /// Gets all required dependencies (non-optional)
    pub fn required_dependencies(&self) -> (r: Vec<&AssetDependency>)
        ensures
            deref_deps(r@) == self.dependencies@.filter(|d: AssetDependency| dep_required(d)),
    {
        let ghost p = |d: AssetDependency| dep_required(d);
        let mut r: Vec<&AssetDependency> = Vec::new();
        let mut i: usize = 0;
        while i < self.dependencies.len()
            invariant
                i <= self.dependencies.len(),
                p == (|d: AssetDependency| dep_required(d)),
                deref_deps(r@) == self.dependencies@.take(i as int).filter(p),
            decreases self.dependencies.len() - i,
        {
            let d = &self.dependencies[i];
            proof { crate::seqs::lemma_filter_step(self.dependencies@, p, i as int); }
            if !d.optional {
                let ghost before = r@;
                r.push(d);
                assert(deref_deps(r@) =~= deref_deps(before).push(*d));
            }
            i = i + 1;
        }
        assert(self.dependencies@.take(i as int) =~= self.dependencies@);
        r
    }

    /// Gets all optional dependencies
    pub fn optional_dependencies(&self) -> (r: Vec<&AssetDependency>)
        ensures
            deref_deps(r@) == self.dependencies@.filter(|d: AssetDependency| dep_optional(d)),
    {
        let ghost p = |d: AssetDependency| dep_optional(d);
        let mut r: Vec<&AssetDependency> = Vec::new();
        let mut i: usize = 0;
        while i < self.dependencies.len()
            invariant
                i <= self.dependencies.len(),
                p == (|d: AssetDependency| dep_optional(d)),
                deref_deps(r@) == self.dependencies@.take(i as int).filter(p),
            decreases self.dependencies.len() - i,
        {
            let d = &self.dependencies[i];
            proof { crate::seqs::lemma_filter_step(self.dependencies@, p, i as int); }
            if d.optional {
                let ghost before = r@;
                r.push(d);
                assert(deref_deps(r@) =~= deref_deps(before).push(*d));
            }
            i = i + 1;
        }
        assert(self.dependencies@.take(i as int) =~= self.dependencies@);
        r
    }

    /// Checks if this asset depends on another asset by ID
    pub fn depends_on(&self, asset_id: &str) -> (r: bool)
        ensures
            r == exists|i: int| 0 <= i < self.dependencies@.len() && #[trigger] self.dependencies@[i].asset_id@ == asset_id@,
    {
        let mut i: usize = 0;
        while i < self.dependencies.len()
            invariant
                i <= self.dependencies.len(),
                forall|j: int| 0 <= j < i ==> #[trigger] self.dependencies@[j].asset_id@ != asset_id@,
            decreases self.dependencies.len() - i,
        {
            if str_equal(self.dependencies[i].asset_id.as_str(), asset_id) {
                return true;
            }
            i = i + 1;
        }
        false
    }

    /// Adds a version to the version history
    pub fn add_version(&mut self, version_info: AssetVersionInfo)
        ensures
            final(self).version_history@ == sort_by_version_desc(
                old(self).version_history@.push(version_info),
            ),
            newest_first(final(self).version_history@),
            final(self).version_history@.to_multiset() == old(self).version_history@.push(version_info).to_multiset(),
            *final(self) == (Asset { version_history: final(self).version_history, ..*old(self) }),
    {
        let mut src: Vec<AssetVersionInfo> = Vec::new();
        std::mem::swap(&mut src, &mut self.version_history);
        src.push(version_info);
        let ghost all = src@;
        let mut out: Vec<AssetVersionInfo> = Vec::new();
        let mut k: usize = 0;
        let n = src.len();
        while src.len() > 0
            invariant
                n == all.len(),
                k + src@.len() == n,
                src@ == all.skip(k as int),
                out@ == sort_by_version_desc(all.take(k as int)),
            decreases src@.len(),
        {
            let x = src.remove(0);
            assert(x == all[k as int]);
            let j = version_insert_position(&out, &x);
            proof { lemma_insert_by_version_at(out@, x, j as int); }
            out.insert(j, x);
            assert(all.take(k + 1).drop_last() =~= all.take(k as int));
            assert(all.skip(k + 1) =~= all.skip(k as int).drop_first());
            k = k + 1;
        }
        assert(all.take(k as int) =~= all);
        proof { lemma_sort_by_version_desc(all); }
        self.version_history = out;
    }

    /// Gets the latest version from version history
    pub fn latest_version(&self) -> (r: Option<&AssetVersionInfo>)
        ensures
            match r {
                Some(v) => self.version_history@.len() > 0 && *v == self.version_history@[0],
                None => self.version_history@.len() == 0,
            },
    {
        if self.version_history.len() > 0 {
            Some(&self.version_history[0])
        } else {
            None
        }
    }

    /// Gets a specific version by version string
    pub fn get_version(&self, version_str: &str) -> (r: Option<&AssetVersionInfo>)
        ensures
            match parse_semver(version_str@) {
                None => r is None,
                Some((a, b, c, p)) => {
                    let found = crate::seqs::first_index(self.version_history@, matches_version(a, b, c, p));
                    match r {
                        Some(v) => found >= 0 && *v == self.version_history@[found],
                        None => found < 0,
                    }
                },
            },
    {
        match SemanticVersion::parse(version_str) {
            Ok(target) => {
                let ghost p = matches_version(target.major, target.minor, target.patch, opt_view(target.pre_release));
                let mut i: usize = 0;
                while i < self.version_history.len()
                    invariant
                        i <= self.version_history.len(),
                        p == matches_version(target.major, target.minor, target.patch, opt_view(target.pre_release)),
                        parse_semver(version_str@) == Some(
                            (target.major, target.minor, target.patch, opt_view(target.pre_release)),
                        ),
                        forall|j: int| 0 <= j < i ==> !p(#[trigger] self.version_history@[j]),
                    decreases self.version_history.len() - i,
                {
                    if self.version_history[i].version.same_as(&target) {
                        proof {
                            crate::seqs::lemma_first_index_found(self.version_history@, p, i as int);
                        }
                        return Some(&self.version_history[i]);
                    }
                    i = i + 1;
                }
                proof { crate::seqs::lemma_first_index_absent(self.version_history@, p); }
                None
            },
            Err(_) => None,
        }
    }

    /// Gets all non-deprecated versions
    pub fn available_versions(&self) -> (r: Vec<&AssetVersionInfo>)
        ensures
            deref_versions(r@) == self.version_history@.filter(|v: AssetVersionInfo| version_available(v)),
    {
        let ghost p = |v: AssetVersionInfo| version_available(v);
        let mut r: Vec<&AssetVersionInfo> = Vec::new();
        let mut i: usize = 0;
        while i < self.version_history.len()
            invariant
                i <= self.version_history.len(),
                p == (|v: AssetVersionInfo| version_available(v)),
                deref_versions(r@) == self.version_history@.take(i as int).filter(p),
            decreases self.version_history.len() - i,
        {
            let v = &self.version_history[i];
            proof { crate::seqs::lemma_filter_step(self.version_history@, p, i as int); }
            if !v.deprecated {
                let ghost before = r@;
                r.push(v);
                assert(deref_versions(r@) =~= deref_versions(before).push(*v));
            }
            i = i + 1;
        }
        assert(self.version_history@.take(i as int) =~= self.version_history@);
        r
    }

    /// Checks if an update is available (compared to current version)
    pub fn has_update(&self) -> (r: bool)
        ensures
            r == (self.version_history@.len() > 0 && match parse_semver(self.version@) {
                Some((a, b, c, p)) => semver_newer_than_parsed(self.version_history@[0].version, a, b, c, p),
                None => false,
            }),
    {
        match SemanticVersion::parse(self.version.as_str()) {
            Ok(current) => {
                match self.latest_version() {
                    Some(latest) => {
                        let s = latest.version.compare(&current);
                        s > 0
                    },
                    None => false,
                }
            },
            Err(_) => false,
        }
    }

    /// Gets the parsed current version as SemanticVersion
    pub fn current_semantic_version(&self) -> (r: Result<SemanticVersion, String>)
        ensures
            match r {
                Ok(v) => parse_semver(self.version@) == Some(
                    (v.major, v.minor, v.patch, opt_view(v.pre_release)),
                ),
                Err(e) => parse_semver(self.version@) is None && e@ == semver_parse_error(
                    self.version@,
                ),
            },
    {
        SemanticVersion::parse(self.version.as_str())
    }
}

/// The version record carries the version with these numbers and pre-release.
pub open spec fn matches_version(a: u32, b: u32, c: u32, pre: Option<Seq<char>>) -> spec_fn(AssetVersionInfo) -> bool {
    |v: AssetVersionInfo| v.version.major == a && v.version.minor == b && v.version.patch == c
        && opt_view(v.version.pre_release) == pre
}

/// `a` is newer than the version with numbers `major.minor.patch` and pre-release `pre`.
pub open spec fn semver_newer_than_parsed(a: SemanticVersion, major: u32, minor: u32, patch: u32, pre: Option<Seq<char>>) -> bool {
    if a.major != major {
        a.major > major
    } else if a.minor != minor {
        a.minor > minor
    } else if a.patch != patch {
        a.patch > patch
    } else {
        match (opt_view(a.pre_release), pre) {
            (None, None) => false,
            (None, Some(_)) => true,
            (Some(_), None) => false,
            (Some(x), Some(y)) => pre_sign(x, y) > 0,
        }
    }
}

/// Where a record goes in a history sorted from newest to oldest: before the
/// first record that is older.
fn version_insert_position(s: &Vec<AssetVersionInfo>, x: &AssetVersionInfo) -> (j: usize)
    ensures
        j <= s@.len(),
        j < s@.len() ==> semver_sign(s@[j as int].version, x.version) < 0,
        forall|k: int| 0 <= k < j ==> semver_sign(#[trigger] s@[k].version, x.version) >= 0,
{
    let mut j: usize = 0;
    while j < s.len()
        invariant
            j <= s.len(),
            forall|k: int| 0 <= k < j ==> semver_sign(#[trigger] s@[k].version, x.version) >= 0,
        decreases s.len() - j,
    {
        if s[j].version.compare(&x.version) < 0 {
            return j;
        }
        j = j + 1;
    }
    j
}

proof fn lemma_insert_by_version_at(s: Seq<AssetVersionInfo>, x: AssetVersionInfo, j: int)
    requires
        0 <= j <= s.len(),
        j < s.len() ==> semver_sign(s[j].version, x.version) < 0,
        forall|k: int| 0 <= k < j ==> semver_sign(#[trigger] s[k].version, x.version) >= 0,
    ensures
        insert_by_version(s, x) == s.insert(j, x),
    decreases j,
{
    if s.len() == 0 {
        assert(s.insert(j, x) =~= seq![x]);
    } else if j == 0 {
        assert(s.insert(0, x) =~= seq![x] + s);
    } else {
        assert(semver_sign(s[0].version, x.version) >= 0);
        let t = s.drop_first();
        assert forall|k: int| 0 <= k < j - 1 implies semver_sign(#[trigger] t[k].version, x.version) >= 0 by {
            assert(t[k] == s[k + 1]);
        }
        lemma_insert_by_version_at(t, x, j - 1);
        assert(s.insert(j, x) =~= seq![s[0]] + t.insert(j - 1, x));
    }
}

/// Version precedence: major, then minor, then patch numbers decide; with equal
/// numbers a release comes after a pre-release, and two pre-releases compare by
/// their identifiers (`lemma_identifier_precedence`, `lemma_pre_first_difference`,
/// `lemma_pre_prefix`).
pub proof fn lemma_semver_precedence(a: SemanticVersion, b: SemanticVersion)
    ensures
        a.major != b.major ==> (semver_sign(a, b) < 0 <==> a.major < b.major) && semver_sign(a, b) != 0,
        a.major == b.major && a.minor != b.minor ==> (semver_sign(a, b) < 0 <==> a.minor < b.minor)
            && semver_sign(a, b) != 0,
        a.major == b.major && a.minor == b.minor && a.patch != b.patch ==> (semver_sign(a, b) < 0 <==> a.patch
            < b.patch) && semver_sign(a, b) != 0,
        a.major == b.major && a.minor == b.minor && a.patch == b.patch ==> semver_sign(a, b) == match (
            opt_view(a.pre_release),
            opt_view(b.pre_release),
        ) {
            (None, None) => 0,
            (None, Some(_)) => 1,
            (Some(_), None) => -1,
            (Some(x), Some(y)) => pre_sign(x, y),
        },
{
}

/// Version precedence is an order: swapping two versions negates their
/// comparison, versions that compare equal are the same, and it is transitive.
pub proof fn lemma_semver_order(a: SemanticVersion, b: SemanticVersion, c: SemanticVersion)
    ensures
        semver_sign(a, b) == -semver_sign(b, a),
        semver_sign(a, b) == 0 ==> semver_same(a, b),
        semver_sign(a, b) <= 0 && semver_sign(b, c) <= 0 ==> semver_sign(a, c) <= 0,
{
    if let (Some(x), Some(y)) = (a.pre_release, b.pre_release) {
        lemma_pre_order(x@, y@, x@);
    }
    if let (Some(x), Some(y), Some(z)) = (a.pre_release, b.pre_release, c.pre_release) {
        lemma_pre_order(x@, y@, z@);
    }
}

} // verus!
