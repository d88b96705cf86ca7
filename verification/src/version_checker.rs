//! Plugin versions and the decisions of the update check against GitHub releases.
use vstd::prelude::*;
use crate::text::{
    append_chars, append_str, chars_of, contains_chars, contains_seq, decimal, decimal_chars,
    lemma_decimal_digits, lemma_parse_decimal, lemma_split_concat, lemma_split_no_sep, parse_u32,
    parse_u32_spec, split_chars, split_spec, string_from_chars,
};

verus! {

/// Current version of the plugin
pub const CURRENT_VERSION: &'static str = "0.1.0";

/// Represents a semantic version
#[derive(Debug, Clone, PartialEq, Eq, PartialOrd, Ord, Structural)]
pub struct Version {
    pub major: u32,
    pub minor: u32,
    pub patch: u32,
}

/// `s` without its leading `v` characters (`trim_start_matches('v')`).
pub open spec fn trim_leading_v(s: Seq<char>) -> Seq<char>
    decreases s.len(),
{
    if s.len() > 0 && s[0] == 'v' {
        trim_leading_v(s.drop_first())
    } else {
        s
    }
}

/// The version that a text spells: leading `v`s, then `major.minor.patch`.
pub open spec fn parse_version_spec(s: Seq<char>) -> Option<(u32, u32, u32)> {
    let parts = split_spec(trim_leading_v(s), '.');
    if parts.len() == 3 && parse_u32_spec(parts[0]) is Some && parse_u32_spec(parts[1]) is Some
        && parse_u32_spec(parts[2]) is Some {
        Some((parse_u32_spec(parts[0]).unwrap(), parse_u32_spec(parts[1]).unwrap(), parse_u32_spec(parts[2]).unwrap()))
    } else {
        None
    }
}

/// The message with which `Version::parse` refuses a text.
pub open spec fn version_parse_error(s: Seq<char>) -> Seq<char> {
    let t = trim_leading_v(s);
    let parts = split_spec(t, '.');
    if parts.len() != 3 {
        "Invalid version format: "@ + t
    } else if parse_u32_spec(parts[0]) is None {
        "Invalid major version: "@ + parts[0]
    } else if parse_u32_spec(parts[1]) is None {
        "Invalid minor version: "@ + parts[1]
    } else {
        "Invalid patch version: "@ + parts[2]
    }
}

/// The text of a version: `v` and `major.minor.patch`.
pub open spec fn version_text(v: Version) -> Seq<char> {
    seq!['v'] + decimal(v.major as nat) + seq!['.'] + decimal(v.minor as nat) + seq!['.'] + decimal(
        v.patch as nat,
    )
}

/// `a` comes after `b` (major, then minor, then patch).
pub open spec fn version_newer(a: Version, b: Version) -> bool {
    a.major > b.major || (a.major == b.major && (a.minor > b.minor || (a.minor == b.minor
        && a.patch > b.patch)))
}

impl Version {
    /// Parses a version string (e.g., "v1.2.3" or "1.2.3")
    pub fn parse(s: &str) -> (r: Result<Self, String>)
        ensures
            match r {
                Ok(v) => parse_version_spec(s@) == Some((v.major, v.minor, v.patch)),
                Err(e) => parse_version_spec(s@) is None && e@ == version_parse_error(s@),
            },
    {
        let chars = chars_of(s);
        let mut start: usize = 0;
        assert(chars@.skip(0) =~= chars@);
        while start < chars.len() && chars[start] == 'v'
            invariant
                start <= chars.len(),
                trim_leading_v(chars@.skip(start as int)) == trim_leading_v(s@),
            decreases chars.len() - start,
        {
            assert(chars@.skip(start as int).drop_first() =~= chars@.skip(start + 1));
            start = start + 1;
        }
        let trimmed = crate::text::slice_chars(&chars, start, chars.len());
        assert(trimmed@ =~= chars@.skip(start as int));
        assert(trim_leading_v(trimmed@) == trimmed@);
        let parts = split_chars(&trimmed, '.');
        if parts.len() != 3 {
            let mut e = "Invalid version format: ".to_string();
            let t = string_from_chars(&trimmed);
            e.append(t.as_str());
            return Err(e);
        }
        let major = match parse_u32(&parts[0]) {
            Some(n) => n,
            None => {
                let mut e = "Invalid major version: ".to_string();
                let p = string_from_chars(&parts[0]);
                e.append(p.as_str());
                return Err(e);
            },
        };
        let minor = match parse_u32(&parts[1]) {
            Some(n) => n,
            None => {
                let mut e = "Invalid minor version: ".to_string();
                let p = string_from_chars(&parts[1]);
                e.append(p.as_str());
                return Err(e);
            },
        };
        let patch = match parse_u32(&parts[2]) {
            Some(n) => n,
            None => {
                let mut e = "Invalid patch version: ".to_string();
                let p = string_from_chars(&parts[2]);
                e.append(p.as_str());
                return Err(e);
            },
        };
        Ok(Version { major, minor, patch })
    }

    /// Converts to string format "v1.2.3"
    pub fn to_string(&self) -> (r: String)
        ensures
            r@ == version_text(*self),
    {
        let mut v: Vec<char> = Vec::new();
        v.push('v');
        let a = decimal_chars(self.major);
        append_chars(&mut v, &a);
        v.push('.');
        let b = decimal_chars(self.minor);
        append_chars(&mut v, &b);
        v.push('.');
        let c = decimal_chars(self.patch);
        append_chars(&mut v, &c);
        assert(v@ =~= version_text(*self));
        string_from_chars(&v)
    }

    /// Checks if this version is newer than another
    pub fn is_newer_than(&self, other: &Version) -> (r: bool)
        ensures
            r == version_newer(*self, *other),
    {
        self.major > other.major || (self.major == other.major && (self.minor > other.minor || (
        self.minor == other.minor && self.patch > other.patch)))
    }
}

/// A version's text parses back to the same version.
pub proof fn lemma_version_roundtrip(v: Version)
    ensures
        parse_version_spec(version_text(v)) == Some((v.major, v.minor, v.patch)),
{
    let a = decimal(v.major as nat);
    let b = decimal(v.minor as nat);
    let c = decimal(v.patch as nat);
    lemma_decimal_digits(v.major as nat);
    lemma_decimal_digits(v.minor as nat);
    lemma_decimal_digits(v.patch as nat);
    lemma_parse_decimal(v.major);
    lemma_parse_decimal(v.minor);
    lemma_parse_decimal(v.patch);
    let core = a + seq!['.'] + b + seq!['.'] + c;
    let text = version_text(v);
    assert(text =~= seq!['v'] + core);
    assert(text.drop_first() =~= core);
    assert(core[0] == a[0]);
    assert(a[0] != 'v') by {
        assert(crate::text::is_digit(a[0]));
    }
    assert(trim_leading_v(text) == trim_leading_v(core));
    assert(trim_leading_v(core) == core);
    lemma_split_no_sep(a, '.');
    lemma_split_no_sep(b, '.');
    lemma_split_no_sep(c, '.');
    lemma_split_concat(a, b, '.');
    lemma_split_concat(a + seq!['.'] + b, c, '.');
    assert(split_spec(core, '.') =~= seq![a, b, c]);
}

/// "Newer than" is a strict order: never both ways, and transitive.
pub proof fn lemma_version_newer_strict_order(a: Version, b: Version, c: Version)
    ensures
        !(version_newer(a, b) && version_newer(b, a)),
        !version_newer(a, a),
        version_newer(a, b) && version_newer(b, c) ==> version_newer(a, c),
        a != b ==> version_newer(a, b) || version_newer(b, a),
{
}

/// GitHub release information
#[derive(Debug, Clone)]
pub struct GitHubRelease {
    pub tag_name: String,
    pub name: String,
    pub body: String,
    pub html_url: String,
    pub published_at: String,
    pub assets: Vec<GitHubAsset>,
}

/// GitHub release asset
#[derive(Debug, Clone)]
pub struct GitHubAsset {
    pub name: String,
    pub browser_download_url: String,
    pub size: u64,
}

/// Update information
#[derive(Debug, Clone)]
pub struct UpdateInfo {
    pub current_version: Version,
    pub latest_version: Version,
    pub is_update_available: bool,
    pub release_notes: String,
    pub download_url: String,
    pub release_url: String,
}

/// Update check result
#[derive(Debug, Clone)]
pub enum UpdateCheckResult {
    /// Update is available
    UpdateAvailable(UpdateInfo),
    /// Already on latest version
    UpToDate(Version),
    /// Check failed
    Error(String),
}

/// The download URL for a platform: that of the first release asset whose name
/// contains the platform's suffix, else the release page.
pub open spec fn platform_download_url(release: GitHubRelease, suffix: Seq<char>) -> Seq<char> {
    let i = crate::seqs::first_index(
        release.assets@,
        |a: GitHubAsset| contains_seq(a.name@, suffix),
    );
    if i >= 0 {
        release.assets@[i].browser_download_url@
    } else {
        release.html_url@
    }
}

/// Version checker for checking plugin updates
pub struct VersionChecker {
    /// When the last successful check was made (milliseconds since the Unix epoch)
    pub last_check: Option<u64>,
    /// How long to wait between checks, in milliseconds
    pub check_interval: u64,
}

/// Whether a check is due at `now`.
pub open spec fn check_due(last_check: Option<u64>, interval: u64, now: u64) -> bool {
    match last_check {
        Some(last) => now < last || now - last >= interval,
        None => true,
    }
}

impl VersionChecker {
    /// Creates a new version checker
    pub fn new() -> (r: Self)
        ensures
            r.last_check is None,
            r.check_interval == 24 * 60 * 60 * 1000,
    {
        Self { last_check: None, check_interval: 24 * 60 * 60 * 1000 }
    }

    /// Sets the check interval (milliseconds)
    pub fn with_check_interval(self, interval: u64) -> (r: Self)
        ensures
            r.check_interval == interval,
            r.last_check == self.last_check,
    {
        Self { check_interval: interval, ..self }
    }

    /// Gets the current version
    pub fn get_current_version() -> (r: Result<Version, String>)
        ensures
            match r {
                Ok(v) => parse_version_spec(CURRENT_VERSION@) == Some((v.major, v.minor, v.patch)),
                Err(e) => parse_version_spec(CURRENT_VERSION@) is None,
            },
    {
        Version::parse(CURRENT_VERSION)
    }

    /// Checks if enough time has passed since last check
    pub fn should_check(&self) -> (r: bool)
        ensures
            self.last_check is None ==> r,
            exists|now: u64| r == #[trigger] check_due(self.last_check, self.check_interval, now),
    {
        let now = crate::clock::now_millis();
        self.should_check_at(now)
    }

    /// Whether enough time has passed at `now` since the last check; a clock that
    /// went backwards also makes a check due.
    pub fn should_check_at(&self, now: u64) -> (r: bool)
        ensures
            r == check_due(self.last_check, self.check_interval, now),
    {
        match self.last_check {
            Some(last) => {
                if now >= last {
                    now - last >= self.check_interval
                } else {
                    true
                }
            },
            None => true,
        }
    }

    /// Gets the appropriate download URL for a platform, given the suffix of its
    /// release archives (e.g. "linux-x64.tar.gz")
    pub fn get_platform_download_url(&self, release: &GitHubRelease, platform_suffix: &str) -> (r: String)
        ensures
            r@ == platform_download_url(*release, platform_suffix@),
    {
        let suffix = chars_of(platform_suffix);
        let ghost p = |a: GitHubAsset| contains_seq(a.name@, platform_suffix@);
        let mut i: usize = 0;
        while i < release.assets.len()
            invariant
                i <= release.assets.len(),
                suffix@ == platform_suffix@,
                p == (|a: GitHubAsset| contains_seq(a.name@, platform_suffix@)),
                forall|j: int| 0 <= j < i ==> !p(#[trigger] release.assets@[j]),
            decreases release.assets.len() - i,
        {
            let name = chars_of(release.assets[i].name.as_str());
            if contains_chars(&name, &suffix) {
                proof { crate::seqs::lemma_first_index_found(release.assets@, p, i as int); }
                return release.assets[i].browser_download_url.clone();
            }
            i = i + 1;
        }
        proof { crate::seqs::lemma_first_index_absent(release.assets@, p); }
        release.html_url.clone()
    }

    /// The decision of an update check, once the latest release has been fetched
    /// (or its fetch has failed): parses both versions, records the check at `now`
    /// when the latest version parses, and reports what was found.
    pub fn check_for_updates_with(
        &mut self,
        fetched: Result<GitHubRelease, String>,
        now: u64,
        platform_suffix: &str,
    ) -> (r: UpdateCheckResult)
        ensures
            final(self).check_interval == old(self).check_interval,
            match Self::get_current_version_spec() {
                None => r is Error && final(self).last_check == old(self).last_check,
                Some(current) => match fetched {
                    Err(e) => r is Error && final(self).last_check == old(self).last_check,
                    Ok(release) => match parse_version_spec(release.tag_name@) {
                        None => r is Error && final(self).last_check == old(self).last_check,
                        Some((a, b, c)) => final(self).last_check == Some(now) && if version_newer(
                            Version { major: a, minor: b, patch: c },
                            current,
                        ) {
                            r matches UpdateCheckResult::UpdateAvailable(info) && info.current_version
                                == current && info.latest_version == (Version {
                                major: a,
                                minor: b,
                                patch: c,
                            }) && info.is_update_available && info.release_notes == release.body
                                && info.release_url == release.html_url && info.download_url@
                                == platform_download_url(release, platform_suffix@)
                        } else {
                            r == UpdateCheckResult::UpToDate(current)
                        },
                    },
                },
            },
    {
        let current_version = match Self::get_current_version() {
            Ok(v) => v,
            Err(e) => {
                let mut m = "Failed to parse current version: ".to_string();
                m.append(e.as_str());
                return UpdateCheckResult::Error(m);
            },
        };
        let latest_release = match fetched {
            Ok(r) => r,
            Err(e) => {
                let mut m = "Failed to fetch latest release: ".to_string();
                m.append(e.as_str());
                return UpdateCheckResult::Error(m);
            },
        };
        let latest_version = match Version::parse(latest_release.tag_name.as_str()) {
            Ok(v) => v,
            Err(e) => {
                let mut m = "Failed to parse latest version: ".to_string();
                m.append(e.as_str());
                return UpdateCheckResult::Error(m);
            },
        };
        self.last_check = Some(now);
        if latest_version.is_newer_than(&current_version) {
            let download_url = self.get_platform_download_url(&latest_release, platform_suffix);
            UpdateCheckResult::UpdateAvailable(
                UpdateInfo {
                    current_version,
                    latest_version,
                    is_update_available: true,
                    release_notes: latest_release.body,
                    download_url,
                    release_url: latest_release.html_url,
                },
            )
        } else {
            UpdateCheckResult::UpToDate(current_version)
        }
    }

    /// The current version as the specification sees it.
    pub open spec fn get_current_version_spec() -> Option<Version> {
        match parse_version_spec(CURRENT_VERSION@) {
            Some((a, b, c)) => Some(Version { major: a, minor: b, patch: c }),
            None => None,
        }
    }
}

/// Versions are ordered by their numbers field by field: a greater major number
/// makes a version newer whatever the minor and patch numbers, then a greater
/// minor number with the same major, then a greater patch number.
pub proof fn lemma_version_field_order(a: Version, b: Version)
    ensures
        a.major > b.major ==> version_newer(a, b),
        a.major < b.major ==> !version_newer(a, b),
        a.major == b.major && a.minor > b.minor ==> version_newer(a, b),
        a.major == b.major && a.minor < b.minor ==> !version_newer(a, b),
        a.major == b.major && a.minor == b.minor ==> (version_newer(a, b) <==> a.patch > b.patch),
{
}

} // verus!
