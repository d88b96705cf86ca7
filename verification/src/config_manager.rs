//! The browser's configuration: asset sources and user preferences.
//!
//! Reading the configuration file and writing it back are done by the program
//! around the library; this module holds the configuration and the rules that
//! govern it.
use vstd::prelude::*;
use crate::text::{
    blank, chars_of, decimal, is_blank, slice_chars, starts_with, starts_with_chars, str_equal,
    string_from_chars, u32_string,
};
use crate::seqs::{first_index, lemma_filter_all_or_shorter, lemma_filter_step, lemma_first_index_spec};

verus! {

/// An asset source: a named repository URL.
#[derive(Debug, Clone)]
pub struct AssetSource {
    pub name: String,
    pub url: String,
    pub enabled: bool,
    pub auth_token: Option<String>,
}

/// Why a source is not valid, if it is not.
pub open spec fn source_error(s: AssetSource) -> Option<Seq<char>> {
    if blank(s.name@) {
        Some("Asset source name cannot be empty"@)
    } else if blank(s.url@) {
        Some("Asset source URL cannot be empty"@)
    } else if !(starts_with(s.url@, "http://"@) || starts_with(s.url@, "https://"@)) {
        Some("Asset source URL must start with http:// or https://"@)
    } else {
        None
    }
}

impl AssetSource {
    /// An enabled source without a token.
    pub fn new(name: String, url: String) -> (r: Self)
        ensures
            r.name == name,
            r.url == url,
            r.enabled,
            r.auth_token is None,
    {
        Self { name, url, enabled: true, auth_token: None }
    }

    /// Validates the asset source URL format
    pub fn validate(&self) -> (r: Result<(), String>)
        ensures
            match r {
                Ok(()) => source_error(*self) is None,
                Err(e) => source_error(*self) == Some(e@),
            },
    {
        if is_blank(self.name.as_str()) {
            return Err("Asset source name cannot be empty".to_string());
        }
        if is_blank(self.url.as_str()) {
            return Err("Asset source URL cannot be empty".to_string());
        }
        let url = chars_of(self.url.as_str());
        let http = chars_of("http://");
        let https = chars_of("https://");
        if !starts_with_chars(&url, &http) && !starts_with_chars(&url, &https) {
            return Err("Asset source URL must start with http:// or https://".to_string());
        }
        Ok(())
    }
}

/// User preferences for the asset browser
#[derive(Debug, Clone)]
pub struct UserPreferences {
    pub theme: String,
    pub layout: String,
    pub default_filters: Vec<String>,
    pub show_previews: bool,
    pub auto_update_check: bool,
    pub download_path: Option<String>,
}

/// The preferences are the defaults.
pub open spec fn default_preferences(p: UserPreferences) -> bool {
    &&& p.theme@ == "default"@
    &&& p.layout@ == "grid"@
    &&& p.default_filters@.len() == 0
    &&& p.show_previews
    &&& p.auto_update_check
    &&& p.download_path is None
}

impl Default for UserPreferences {
    fn default() -> (r: Self)
        ensures
            default_preferences(r),
    {
        Self {
            theme: "default".to_string(),
            layout: "grid".to_string(),
            default_filters: Vec::new(),
            show_previews: true,
            auto_update_check: true,
            download_path: None,
        }
    }
}

/// Main configuration structure
#[derive(Debug, Clone)]
pub struct Config {
    pub version: u32,
    pub asset_sources: Vec<AssetSource>,
    pub preferences: UserPreferences,
}

/// The version of the configuration that this code writes.
pub const CURRENT_CONFIG_VERSION: u32 = 1;

/// The configuration is the default one: version 1, the official Godot Asset
/// Library as its only (enabled) source, and default preferences.
pub open spec fn default_config(c: Config) -> bool {
    &&& c.version == 1
    &&& c.asset_sources@.len() == 1
    &&& c.asset_sources@[0].name@ == "Godot Asset Library"@
    &&& c.asset_sources@[0].url@ == "https://godotengine.org/asset-library/api"@
    &&& c.asset_sources@[0].enabled
    &&& c.asset_sources@[0].auth_token is None
    &&& default_preferences(c.preferences)
}

/// The message of a migration with no known path.
pub open spec fn migration_error(current: u32, to: u32) -> Seq<char> {
    "Unknown migration path from version "@ + decimal(current as nat) + " to "@ + decimal(to as nat)
}

impl Default for Config {
    fn default() -> (r: Self)
        ensures
            default_config(r),
    {
        let mut sources: Vec<AssetSource> = Vec::new();
        sources.push(
            AssetSource::new(
                "Godot Asset Library".to_string(),
                "https://godotengine.org/asset-library/api".to_string(),
            ),
        );
        Self { version: 1, asset_sources: sources, preferences: UserPreferences::default() }
    }
}

impl Config {
    /// Migrates configuration from an older version to the current version. The
    /// only known step goes from version 0 to version 1.
    pub fn migrate(self, from_version: u32, to_version: u32) -> (r: Result<Self, String>)
        ensures
            r is Ok <==> from_version >= to_version || (from_version == 0 && to_version == 1),
            from_version >= to_version ==> r == Ok::<Self, String>(self),
            from_version < to_version ==> (r matches Ok(c) ==> c.version == to_version && c.asset_sources
                == self.asset_sources && c.preferences == self.preferences),
            r matches Err(e) ==> e@ == migration_error(
                if from_version == 0 { 1 } else { from_version },
                to_version,
            ),
    {
        let mut this = self;
        if from_version >= to_version {
            return Ok(this);
        }
        let mut current_version = from_version;
        while current_version < to_version
            invariant
                from_version < to_version,
                current_version == from_version || (from_version == 0 && current_version == 1),
                this == self,
            decreases to_version - current_version,
        {
            if current_version == 0 {
                current_version = 1;
            } else {
                let mut m = "Unknown migration path from version ".to_string();
                m.append(u32_string(current_version).as_str());
                m.append(" to ");
                m.append(u32_string(to_version).as_str());
                return Err(m);
            }
        }
        this.version = to_version;
        Ok(this)
    }
}

/// Where the configuration is kept, in Godot's `user://` space.
pub open spec fn config_path_text() -> Seq<char> {
    "user://asset_browser_config.json"@
}

/// The file system path that a Godot path stands for: `user://` paths live under
/// `.godot/config` (an absolute rest replaces it, as joining paths does); other
/// paths are themselves.
pub open spec fn resolved_path(path: Seq<char>) -> Seq<char> {
    if starts_with(path, "user://"@) {
        let rest = path.skip(7);
        if rest.len() > 0 && rest[0] == '/' {
            rest
        } else {
            ".godot/config/"@ + rest
        }
    } else {
        path
    }
}

/// Why a new source cannot be added to `sources`, if it cannot.
pub open spec fn add_source_error(sources: Seq<AssetSource>, s: AssetSource) -> Option<Seq<char>> {
    if source_error(s) is Some {
        source_error(s)
    } else if exists|i: int| 0 <= i < sources.len() && #[trigger] sources[i].name@ == s.name@ {
        Some("Asset source with name '"@ + s.name@ + "' already exists"@)
    } else if exists|i: int| 0 <= i < sources.len() && #[trigger] sources[i].url@ == s.url@ {
        Some("Asset source with URL '"@ + s.url@ + "' already exists"@)
    } else {
        None
    }
}

/// Holds of a source with another name than `name`.
pub open spec fn other_name(name: Seq<char>) -> spec_fn(AssetSource) -> bool {
    |s: AssetSource| s.name@ != name
}

/// Holds of a source with the name `name`.
pub open spec fn named(name: Seq<char>) -> spec_fn(AssetSource) -> bool {
    |s: AssetSource| s.name@ == name
}

/// Holds of an enabled source.
pub open spec fn source_enabled() -> spec_fn(AssetSource) -> bool {
    |s: AssetSource| s.enabled
}

/// The sources that a list of references points at.
pub open spec fn source_refs(s: Seq<&AssetSource>) -> Seq<AssetSource> {
    s.map_values(|x: &AssetSource| *x)
}

/// "Asset source '{name}' not found"
pub open spec fn source_not_found(name: Seq<char>) -> Seq<char> {
    "Asset source '"@ + name + "' not found"@
}

/// Holds the configuration and the path it is kept at.
pub struct ConfigManager {
    config: Config,
    config_path: String,
}

impl ConfigManager {
    /// The configuration.
    pub closed spec fn config(self) -> Config {
        self.config
    }

    /// The (Godot) path of the configuration file.
    pub closed spec fn config_path(self) -> Seq<char> {
        self.config_path@
    }

    /// Creates a new ConfigManager instance
    pub fn new() -> (r: Self)
        ensures
            default_config(r.config()),
            r.config_path() == config_path_text(),
    {
        let config_path = Self::get_config_path();
        Self { config: Config::default(), config_path }
    }

    /// Gets the configuration file path in Godot's user directory
    fn get_config_path() -> (r: String)
        ensures
            r@ == config_path_text(),
    {
        "user://asset_browser_config.json".to_string()
    }

    /// Resolves Godot's user:// protocol to actual filesystem path
    pub fn resolve_godot_path(path: &str) -> (r: String)
        ensures
            r@ == resolved_path(path@),
    {
        let v = chars_of(path);
        let prefix = chars_of("user://");
        proof { reveal_strlit("user://"); }
        if starts_with_chars(&v, &prefix) {
            let rest = string_from_chars(&slice_chars(&v, 7, v.len()));
            assert(rest@ =~= path@.skip(7));
            if v.len() > 7 && v[7] == '/' {
                rest
            } else {
                let mut r = ".godot/config/".to_string();
                r.append(rest.as_str());
                r
            }
        } else {
            path.to_string()
        }
    }

    /// The file system path of the configuration file.
    pub fn resolved_config_path(&self) -> (r: String)
        ensures
            r@ == resolved_path(self.config_path()),
    {
        Self::resolve_godot_path(self.config_path.as_str())
    }

    /// The configuration, to be written out.
    pub fn get_config(&self) -> (r: &Config)
        ensures
            *r == self.config(),
    {
        &self.config
    }

    /// Takes over a configuration read from the file, or the default one when there
    /// is no file. An older configuration is migrated to the current version; the
    /// result tells whether it was, so that it is written back.
    pub fn load_config_from(&mut self, loaded: Option<Config>) -> (r: Result<bool, String>)
        ensures
            final(self).config_path() == old(self).config_path(),
            match loaded {
                None => r == Ok::<bool, String>(false) && default_config(final(self).config()),
                Some(c) => if c.version < CURRENT_CONFIG_VERSION {
                    r == Ok::<bool, String>(true) && final(self).config().version == CURRENT_CONFIG_VERSION
                        && final(self).config().asset_sources == c.asset_sources
                        && final(self).config().preferences == c.preferences
                } else {
                    r == Ok::<bool, String>(false) && final(self).config() == c
                },
            },
    {
        match loaded {
            None => {
                self.config = Config::default();
                Ok(false)
            },
            Some(c) => {
                let loaded_version = c.version;
                if loaded_version < CURRENT_CONFIG_VERSION {
                    match c.migrate(loaded_version, CURRENT_CONFIG_VERSION) {
                        Ok(m) => {
                            self.config = m;
                            Ok(true)
                        },
                        Err(e) => {
                            let mut msg = "Failed to migrate config: ".to_string();
                            msg.append(e.as_str());
                            Err(msg)
                        },
                    }
                } else {
                    self.config = c;
                    Ok(false)
                }
            },
        }
    }

    /// Adds a new asset source to the configuration
    pub fn add_asset_source(&mut self, name: String, url: String) -> (r: Result<(), String>)
        ensures
            final(self).config_path() == old(self).config_path(),
            final(self).config().version == old(self).config().version,
            final(self).config().preferences == old(self).config().preferences,
            r is Ok <==> add_source_error(
                old(self).config().asset_sources@,
                AssetSource { name, url, enabled: true, auth_token: None },
            ) is None,
            r is Ok ==> final(self).config().asset_sources@ == old(self).config().asset_sources@.push(
                AssetSource { name, url, enabled: true, auth_token: None },
            ),
            r matches Err(e) ==> final(self).config().asset_sources@ == old(self).config().asset_sources@ && Some(e@)
                == add_source_error(
                old(self).config().asset_sources@,
                AssetSource { name, url, enabled: true, auth_token: None },
            ),
    {
        let source = AssetSource::new(name, url);
        self.add_source(source)
    }

    /// Adds an asset source with authentication token
    pub fn add_asset_source_with_auth(&mut self, name: String, url: String, auth_token: String) -> (r: Result<(), String>)
        ensures
            final(self).config_path() == old(self).config_path(),
            final(self).config().version == old(self).config().version,
            final(self).config().preferences == old(self).config().preferences,
            r is Ok <==> add_source_error(
                old(self).config().asset_sources@,
                AssetSource { name, url, enabled: true, auth_token: Some(auth_token) },
            ) is None,
            r is Ok ==> final(self).config().asset_sources@ == old(self).config().asset_sources@.push(
                AssetSource { name, url, enabled: true, auth_token: Some(auth_token) },
            ),
            r matches Err(e) ==> final(self).config().asset_sources@ == old(self).config().asset_sources@ && Some(e@)
                == add_source_error(
                old(self).config().asset_sources@,
                AssetSource { name, url, enabled: true, auth_token: Some(auth_token) },
            ),
    {
        let mut source = AssetSource::new(name, url);
        source.auth_token = Some(auth_token);
        self.add_source(source)
    }

    /// Validates a source and adds it unless its name or URL is taken.
    fn add_source(&mut self, source: AssetSource) -> (r: Result<(), String>)
        ensures
            final(self).config_path() == old(self).config_path(),
            final(self).config().version == old(self).config().version,
            final(self).config().preferences == old(self).config().preferences,
            r is Ok <==> add_source_error(old(self).config().asset_sources@, source) is None,
            r is Ok ==> final(self).config().asset_sources@ == old(self).config().asset_sources@.push(source),
            r matches Err(e) ==> final(self).config().asset_sources@ == old(self).config().asset_sources@ && Some(e@)
                == add_source_error(old(self).config().asset_sources@, source),
    {
        match source.validate() {
            Ok(()) => {},
            Err(e) => {
                return Err(e);
            },
        }
        let n = self.config.asset_sources.len();
        let mut i: usize = 0;
        while i < n
            invariant
                n == self.config.asset_sources@.len(),
                source_error(source) is None,
                self.config.asset_sources@ == old(self).config.asset_sources@,
                i <= n,
                forall|j: int| 0 <= j < i ==> #[trigger] self.config.asset_sources@[j].name@ != source.name@,
            decreases n - i,
        {
            if str_equal(self.config.asset_sources[i].name.as_str(), source.name.as_str()) {
                assert(self.config.asset_sources@[i as int].name@ == source.name@);
                let mut m = "Asset source with name '".to_string();
                m.append(source.name.as_str());
                m.append("' already exists");
                return Err(m);
            }
            i = i + 1;
        }
        let mut i: usize = 0;
        while i < n
            invariant
                n == self.config.asset_sources@.len(),
                source_error(source) is None,
                self.config.asset_sources@ == old(self).config.asset_sources@,
                i <= n,
                forall|j: int| 0 <= j < n ==> #[trigger] self.config.asset_sources@[j].name@ != source.name@,
                forall|j: int| 0 <= j < i ==> #[trigger] self.config.asset_sources@[j].url@ != source.url@,
            decreases n - i,
        {
            if str_equal(self.config.asset_sources[i].url.as_str(), source.url.as_str()) {
                assert(self.config.asset_sources@[i as int].url@ == source.url@);
                let mut m = "Asset source with URL '".to_string();
                m.append(source.url.as_str());
                m.append("' already exists");
                return Err(m);
            }
            i = i + 1;
        }
        self.config.asset_sources.push(source);
        Ok(())
    }

    /// Removes every asset source with the name.
    pub fn remove_asset_source(&mut self, name: &str) -> (r: Result<(), String>)
        ensures
            final(self).config_path() == old(self).config_path(),
            final(self).config().version == old(self).config().version,
            final(self).config().preferences == old(self).config().preferences,
            r is Ok <==> exists|i: int| 0 <= i < old(self).config().asset_sources@.len()
                && #[trigger] old(self).config().asset_sources@[i].name@ == name@,
            final(self).config().asset_sources@ == old(self).config().asset_sources@.filter(other_name(name@)),
            r matches Err(e) ==> e@ == source_not_found(name@),
    {
        let ghost p = other_name(name@);
        let ghost s = self.config.asset_sources@;
        let mut old_sources: Vec<AssetSource> = Vec::new();
        std::mem::swap(&mut old_sources, &mut self.config.asset_sources);
        let initial_len = old_sources.len();
        let mut kept: Vec<AssetSource> = Vec::new();
        while old_sources.len() > 0
            invariant
                p == other_name(name@),
                old_sources@.len() <= s.len(),
                old_sources@ == s.subrange(s.len() - old_sources@.len(), s.len() as int),
                kept@ == s.take(s.len() - old_sources@.len()).filter(p),
            decreases old_sources.len(),
        {
            let ghost i: int = s.len() - old_sources@.len();
            let e = old_sources.remove(0);
            assert(e == s[i]);
            proof { lemma_filter_step(s, p, i); }
            if !str_equal(e.name.as_str(), name) {
                kept.push(e);
            }
            assert(old_sources@ =~= s.subrange(s.len() - old_sources@.len(), s.len() as int));
        }
        assert(s.take(s.len() as int) =~= s);
        proof {
            lemma_filter_all_or_shorter(s, p);
            if exists|i: int| 0 <= i < s.len() && #[trigger] s[i].name@ == name@ {
                let i = choose|i: int| 0 <= i < s.len() && #[trigger] s[i].name@ == name@;
                assert(!p(s[i]));
            }
        }
        let removed = kept.len() < initial_len;
        self.config.asset_sources = kept;
        if !removed {
            let mut m = "Asset source '".to_string();
            m.append(name);
            m.append("' not found");
            return Err(m);
        }
        Ok(())
    }

    /// Gets all configured asset sources
    pub fn get_asset_sources(&self) -> (r: &[AssetSource])
        ensures
            r@ == self.config().asset_sources@,
    {
        self.config.asset_sources.as_slice()
    }

    /// Gets only enabled asset sources, in order.
    pub fn get_enabled_asset_sources(&self) -> (r: Vec<&AssetSource>)
        ensures
            source_refs(r@) == self.config().asset_sources@.filter(source_enabled()),
    {
        let ghost p = source_enabled();
        let mut r: Vec<&AssetSource> = Vec::new();
        let mut i: usize = 0;
        while i < self.config.asset_sources.len()
            invariant
                i <= self.config.asset_sources@.len(),
                p == source_enabled(),
                source_refs(r@) == self.config.asset_sources@.take(i as int).filter(p),
            decreases self.config.asset_sources.len() - i,
        {
            let e = &self.config.asset_sources[i];
            proof { lemma_filter_step(self.config.asset_sources@, p, i as int); }
            if e.enabled {
                r.push(e);
            }
            assert(source_refs(r@) =~= self.config.asset_sources@.take(i + 1).filter(p));
            i = i + 1;
        }
        assert(self.config.asset_sources@.take(i as int) =~= self.config.asset_sources@);
        r
    }

    /// Enables or disables the first asset source with the name.
    pub fn set_asset_source_enabled(&mut self, name: &str, enabled: bool) -> (r: Result<(), String>)
        ensures
            final(self).config_path() == old(self).config_path(),
            final(self).config().version == old(self).config().version,
            final(self).config().preferences == old(self).config().preferences,
            r is Ok <==> first_index(old(self).config().asset_sources@, named(name@)) >= 0,
            r matches Err(e) ==> e@ == source_not_found(name@) && final(self).config().asset_sources@
                == old(self).config().asset_sources@,
            r is Ok ==> ({
                let i = first_index(old(self).config().asset_sources@, named(name@));
                let before = old(self).config().asset_sources@[i];
                final(self).config().asset_sources@ == old(self).config().asset_sources@.update(
                    i,
                    AssetSource { enabled, ..before },
                )
            }),
    {
        let ghost s = self.config.asset_sources@;
        proof { lemma_first_index_spec(s, named(name@)); }
        let n = self.config.asset_sources.len();
        let mut i: usize = 0;
        while i < n
            invariant
                n == s.len(),
                s == self.config.asset_sources@,
                s == old(self).config.asset_sources@,
                self.config_path == old(self).config_path,
                self.config.version == old(self).config.version,
                self.config.preferences == old(self).config.preferences,
                i <= n,
                forall|j: int| 0 <= j < i ==> #[trigger] s[j].name@ != name@,
            decreases n - i,
        {
            if str_equal(self.config.asset_sources[i].name.as_str(), name) {
                proof { crate::seqs::lemma_first_index_found(s, named(name@), i as int); }
                let mut v: Vec<AssetSource> = Vec::new();
                std::mem::swap(&mut v, &mut self.config.asset_sources);
                let mut src = v.remove(i);
                src.enabled = enabled;
                v.insert(i, src);
                self.config.asset_sources = v;
                assert(self.config.asset_sources@ =~= s.update(i as int, AssetSource { enabled, ..s[i as int] }));
                return Ok(());
            }
            i = i + 1;
        }
        proof { crate::seqs::lemma_first_index_absent(s, named(name@)); }
        let mut m = "Asset source '".to_string();
        m.append(name);
        m.append("' not found");
        Err(m)
    }

    /// Updates user preferences
    pub fn update_preferences(&mut self, preferences: UserPreferences)
        ensures
            final(self).config() == (Config { preferences, ..old(self).config() }),
            final(self).config_path() == old(self).config_path(),
    {
        self.config.preferences = preferences;
    }

    /// Gets current user preferences
    pub fn get_preferences(&self) -> (r: &UserPreferences)
        ensures
            *r == self.config().preferences,
    {
        &self.config.preferences
    }

    /// Sets the theme preference
    pub fn set_theme(&mut self, theme: String)
        ensures
            final(self).config() == (Config {
                preferences: UserPreferences { theme, ..old(self).config().preferences },
                ..old(self).config()
            }),
            final(self).config_path() == old(self).config_path(),
    {
        self.config.preferences.theme = theme;
    }

    /// Sets the layout preference
    pub fn set_layout(&mut self, layout: String)
        ensures
            final(self).config() == (Config {
                preferences: UserPreferences { layout, ..old(self).config().preferences },
                ..old(self).config()
            }),
            final(self).config_path() == old(self).config_path(),
    {
        self.config.preferences.layout = layout;
    }

    /// Sets the default filters
    pub fn set_default_filters(&mut self, filters: Vec<String>)
        ensures
            final(self).config() == (Config {
                preferences: UserPreferences { default_filters: filters, ..old(self).config().preferences },
                ..old(self).config()
            }),
            final(self).config_path() == old(self).config_path(),
    {
        self.config.preferences.default_filters = filters;
    }

    /// Gets the config version
    pub fn get_version(&self) -> (r: u32)
        ensures
            r == self.config().version,
    {
        self.config.version
    }
}

/// Removing a source that was just added gives back the sources as they were.
pub proof fn lemma_add_then_remove_source(sources: Seq<AssetSource>, s: AssetSource)
    requires
        add_source_error(sources, s) is None,
    ensures
        sources.push(s).filter(other_name(s.name@)) == sources,
{
    assert forall|i: int| 0 <= i < sources.len() implies #[trigger] other_name(s.name@)(sources[i]) by {
        if sources[i].name@ == s.name@ {
            assert(exists|j: int| 0 <= j < sources.len() && #[trigger] sources[j].name@ == s.name@);
        }
    }
    lemma_filter_all_or_shorter(sources, other_name(s.name@));
    sources.lemma_filter_push(s, other_name(s.name@));
}

} // verus!
