//! The Godot Asset Library API: request parameters, the client's cache and rate
//! limit, and the conversion of API records into assets.
//!
//! Sending requests and reading their JSON replies is done by the program around
//! the library; instants here are milliseconds on a monotonic clock.
use vstd::prelude::*;
use crate::asset::{Asset, AssetCategory};
use crate::keyed::KeyedList;
use crate::text::{
    append_chars, append_str, chars_of, decimal, decimal_chars, lowercase, str_equal,
    string_from_chars, to_lowercase_string, u32_string,
};

verus! {

/// Godot Asset Library API base URL
pub const GODOT_ASSET_LIBRARY_API: &'static str = "https://godotengine.org/asset-library/api";

/// Default cache TTL (time to live) in seconds
pub const DEFAULT_CACHE_TTL: u64 = 300;

/// Default rate limit: requests per minute
pub const DEFAULT_RATE_LIMIT: u32 = 60;

/// The user agent that requests name.
pub const USER_AGENT: &'static str = "GodotAssetBrowser/1.0";

/// Cache entry for API responses
struct CacheEntry {
    /// Cached JSON string
    data: String,
    /// When this entry was created
    created_at: u64,
    /// Time-to-live in milliseconds
    ttl: u64,
}

/// The entry has outlived its time to live at `now`.
pub open spec fn entry_expired(created_at: u64, ttl: u64, now: u64) -> bool {
    now > created_at && now - created_at > ttl
}

impl CacheEntry {
    /// Creates a new cache entry with the default TTL, created at `now`
    fn new_at(data: String, now: u64) -> (r: Self)
        ensures
            r.data == data,
            r.created_at == now,
            r.ttl == DEFAULT_CACHE_TTL * 1000,
    {
        Self { data, created_at: now, ttl: DEFAULT_CACHE_TTL * 1000 }
    }

    /// Checks if this cache entry has expired at `now`
    fn is_expired_at(&self, now: u64) -> (r: bool)
        ensures
            r == entry_expired(self.created_at, self.ttl, now),
    {
        now > self.created_at && now - self.created_at > self.ttl
    }
}

/// Rate limiter to prevent API abuse
struct RateLimiter {
    /// Request instants within the current window
    requests: Vec<u64>,
    /// Maximum requests per minute
    max_requests: u32,
    /// Time window for rate limiting, in milliseconds
    window: u64,
}

/// The time from `t` to `now`, or 0 when `t` is later.
pub open spec fn elapsed(t: u64, now: u64) -> int {
    if now >= t {
        now - t
    } else {
        0
    }
}

/// Holds of a request instant still inside the window at `now`.
pub open spec fn in_window(window: u64, now: u64) -> spec_fn(u64) -> bool {
    |t: u64| elapsed(t, now) < window
}

/// The rest of the oldest request's window at `now`, if there is a request.
pub open spec fn oldest_wait(requests: Seq<u64>, window: u64, now: u64) -> Option<u64> {
    if requests.len() == 0 {
        None
    } else if elapsed(requests[0], now) < window {
        Some((window - elapsed(requests[0], now)) as u64)
    } else {
        Some(0u64)
    }
}

/// "Rate limit exceeded: {max} requests per minute"
pub open spec fn rate_limit_message(max: u32) -> Seq<char> {
    "Rate limit exceeded: "@ + decimal(max as nat) + " requests per minute"@
}

impl RateLimiter {
    /// Creates a new rate limiter with a one-minute window
    fn new(max_requests_per_minute: u32) -> (r: Self)
        ensures
            r.requests@.len() == 0,
            r.max_requests == max_requests_per_minute,
            r.window == 60_000,
    {
        Self { requests: Vec::new(), max_requests: max_requests_per_minute, window: 60_000 }
    }

    /// Forgets the requests outside the window at `now`; then records a request
    /// at `now` if fewer than the maximum remain, and refuses it otherwise.
    fn check_and_record_at(&mut self, now: u64) -> (r: Result<(), String>)
        ensures
            final(self).max_requests == old(self).max_requests,
            final(self).window == old(self).window,
            ({
                let kept = old(self).requests@.filter(in_window(old(self).window, now));
                &&& r is Ok <==> kept.len() < old(self).max_requests
                &&& r is Ok ==> final(self).requests@ == kept.push(now)
                &&& r matches Err(e) ==> final(self).requests@ == kept && e@ == rate_limit_message(
                    old(self).max_requests,
                )
            }),
    {
        let ghost p = in_window(self.window, now);
        let ghost s = self.requests@;
        let mut kept: Vec<u64> = Vec::new();
        let mut i: usize = 0;
        while i < self.requests.len()
            invariant
                i <= s.len(),
                s == self.requests@,
                p == in_window(self.window, now),
                kept@ == s.take(i as int).filter(p),
            decreases self.requests.len() - i,
        {
            proof { crate::seqs::lemma_filter_step(s, p, i as int); }
            let t = self.requests[i];
            let age = if now >= t { now - t } else { 0 };
            if age < self.window {
                kept.push(t);
            }
            i = i + 1;
        }
        assert(s.take(i as int) =~= s);
        self.requests = kept;
        if self.requests.len() >= self.max_requests as usize {
            let mut m = "Rate limit exceeded: ".to_string();
            m.append(u32_string(self.max_requests).as_str());
            m.append(" requests per minute");
            return Err(m);
        }
        self.requests.push(now);
        Ok(())
    }

    /// The time to wait at `now` before the next request can be made, when the
    /// limit is reached: the rest of the oldest request's window.
    fn time_until_available_at(&self, now: u64) -> (r: Option<u64>)
        ensures
            self.requests@.len() < self.max_requests ==> r is None,
            self.requests@.len() >= self.max_requests ==> r == oldest_wait(self.requests@, self.window, now),
    {
        if self.requests.len() < self.max_requests as usize {
            return None;
        }
        if self.requests.len() == 0 {
            return None;
        }
        let oldest = self.requests[0];
        let age = if now >= oldest { now - oldest } else { 0 };
        if age < self.window {
            Some(self.window - age)
        } else {
            Some(0)
        }
    }
}

/// Asset listing request parameters
#[derive(Debug, Clone)]
pub struct AssetListParams {
    /// Search query string
    pub query: Option<String>,
    /// Category filter
    pub category: Option<String>,
    /// Godot version filter (e.g., "4.0", "3.5")
    pub godot_version: Option<String>,
    /// Support level filter (official, community, testing)
    pub support: Option<String>,
    /// Sort field (rating, cost, name, updated)
    pub sort: Option<String>,
    /// Sort order (asc, desc)
    pub sort_order: Option<String>,
    /// Page number (0-indexed)
    pub page: Option<u32>,
    /// Maximum results per page
    pub max_results: Option<u32>,
}

/// No parameter is set.
pub open spec fn no_params() -> AssetListParams {
    AssetListParams {
        query: None,
        category: None,
        godot_version: None,
        support: None,
        sort: None,
        sort_order: None,
        page: None,
        max_results: None,
    }
}

impl Default for AssetListParams {
    fn default() -> (r: Self)
        ensures
            r == no_params(),
    {
        Self {
            query: None,
            category: None,
            godot_version: None,
            support: None,
            sort: None,
            sort_order: None,
            page: None,
            max_results: None,
        }
    }
}

/// How URL encoding writes one character: a space, `&` and `=` are escaped.
pub open spec fn encode_char(c: char) -> Seq<char> {
    if c == ' ' {
        "%20"@
    } else if c == '&' {
        "%26"@
    } else if c == '=' {
        "%3D"@
    } else {
        seq![c]
    }
}

/// The URL encoding of a text, character by character.
pub open spec fn url_encoded(s: Seq<char>) -> Seq<char>
    decreases s.len(),
{
    if s.len() == 0 {
        Seq::empty()
    } else {
        url_encoded(s.drop_last()) + encode_char(s.last())
    }
}

/// The parameter `key` with the encoded value, when there is a value.
pub open spec fn text_param(key: Seq<char>, v: Option<String>) -> Seq<Seq<char>> {
    match v {
        Some(s) => seq![key + url_encoded(s@)],
        None => Seq::empty(),
    }
}

/// The parameter `key` with a number, when there is one.
pub open spec fn number_param(key: Seq<char>, v: Option<u32>) -> Seq<Seq<char>> {
    match v {
        Some(n) => seq![key + decimal(n as nat)],
        None => Seq::empty(),
    }
}

/// The sort direction: descending order reverses.
pub open spec fn reverse_param(order: Option<String>) -> Seq<Seq<char>> {
    match order {
        Some(o) => seq!["reverse="@ + if o@ == "desc"@ { "true"@ } else { "false"@ }],
        None => Seq::empty(),
    }
}

/// The request parameters, in order.
pub open spec fn query_params(p: AssetListParams) -> Seq<Seq<char>> {
    text_param("filter="@, p.query) + text_param("category="@, p.category) + text_param(
        "godot_version="@,
        p.godot_version,
    ) + text_param("support="@, p.support) + text_param("sort="@, p.sort) + reverse_param(p.sort_order)
        + number_param("page="@, p.page) + number_param("max_results="@, p.max_results)
}

/// Parameters joined by `&`.
pub open spec fn join_params(parts: Seq<Seq<char>>) -> Seq<char>
    decreases parts.len(),
{
    if parts.len() == 0 {
        Seq::empty()
    } else if parts.len() == 1 {
        parts[0]
    } else {
        join_params(parts.drop_last()) + seq!['&'] + parts.last()
    }
}

/// A query string: nothing when there are no parameters, else `?` and the
/// parameters joined by `&`.
pub open spec fn query_text(parts: Seq<Seq<char>>) -> Seq<char> {
    if parts.len() == 0 {
        Seq::empty()
    } else {
        seq!['?'] + join_params(parts)
    }
}

/// URL-encodes a parameter value: spaces, `&` and `=` are escaped.
fn encode(s: &str) -> (r: Vec<char>)
    ensures
        r@ == url_encoded(s@),
{
    let v = chars_of(s);
    let mut r: Vec<char> = Vec::new();
    let mut i: usize = 0;
    while i < v.len()
        invariant
            i <= v@.len(),
            v@ == s@,
            r@ == url_encoded(v@.take(i as int)),
        decreases v.len() - i,
    {
        let c = v[i];
        if c == ' ' {
            append_str(&mut r, "%20");
        } else if c == '&' {
            append_str(&mut r, "%26");
        } else if c == '=' {
            append_str(&mut r, "%3D");
        } else {
            r.push(c);
        }
        assert(v@.take(i + 1).drop_last() =~= v@.take(i as int));
        i = i + 1;
    }
    assert(v@.take(i as int) =~= v@);
    r
}

/// Adds a parameter to a query string.
fn push_param(out: &mut Vec<char>, Ghost(parts): Ghost<Seq<Seq<char>>>, part: &Vec<char>)
    requires
        old(out)@ == query_text(parts),
    ensures
        final(out)@ == query_text(parts.push(part@)),
{
    if out.len() == 0 {
        out.push('?');
    } else {
        out.push('&');
    }
    append_chars(out, part);
    proof {
        assert(parts.push(part@).drop_last() =~= parts);
        if parts.len() == 0 {
            assert(out@ =~= query_text(parts.push(part@)));
        } else {
            assert(out@ =~= query_text(parts.push(part@)));
        }
    }
}

/// The part `key` followed by the encoded value.
fn text_part(key: &str, value: &str) -> (r: Vec<char>)
    ensures
        r@ == key@ + url_encoded(value@),
{
    let mut r = chars_of(key);
    append_chars(&mut r, &encode(value));
    r
}

/// The part `key` followed by the number.
fn number_part(key: &str, n: u32) -> (r: Vec<char>)
    ensures
        r@ == key@ + decimal(n as nat),
{
    let mut r = chars_of(key);
    append_chars(&mut r, &decimal_chars(n));
    r
}

impl AssetListParams {
    /// Creates a new empty params builder
    pub fn new() -> (r: Self)
        ensures
            r == no_params(),
    {
        Self::default()
    }

    /// Sets the search query
    pub fn with_query(self, query: String) -> (r: Self)
        ensures
            r == (AssetListParams { query: Some(query), ..self }),
    {
        let mut p = self;
        p.query = Some(query);
        p
    }

    /// Sets the category filter
    pub fn with_category(self, category: String) -> (r: Self)
        ensures
            r == (AssetListParams { category: Some(category), ..self }),
    {
        let mut p = self;
        p.category = Some(category);
        p
    }

    /// Sets the Godot version filter
    pub fn with_godot_version(self, version: String) -> (r: Self)
        ensures
            r == (AssetListParams { godot_version: Some(version), ..self }),
    {
        let mut p = self;
        p.godot_version = Some(version);
        p
    }

    /// Sets the support level filter
    pub fn with_support(self, support: String) -> (r: Self)
        ensures
            r == (AssetListParams { support: Some(support), ..self }),
    {
        let mut p = self;
        p.support = Some(support);
        p
    }

    /// Sets the sort field and order
    pub fn with_sort(self, field: String, order: String) -> (r: Self)
        ensures
            r == (AssetListParams { sort: Some(field), sort_order: Some(order), ..self }),
    {
        let mut p = self;
        p.sort = Some(field);
        p.sort_order = Some(order);
        p
    }

    /// Sets the page number
    pub fn with_page(self, page: u32) -> (r: Self)
        ensures
            r == (AssetListParams { page: Some(page), ..self }),
    {
        let mut p = self;
        p.page = Some(page);
        p
    }

    /// Sets the maximum results per page
    pub fn with_max_results(self, max_results: u32) -> (r: Self)
        ensures
            r == (AssetListParams { max_results: Some(max_results), ..self }),
    {
        let mut p = self;
        p.max_results = Some(max_results);
        p
    }

    /// Builds the query string for the API request
    pub fn to_query_string(&self) -> (r: String)
        ensures
            r@ == query_text(query_params(*self)),
    {
        let mut out: Vec<char> = Vec::new();
        assert(out@ =~= query_text(Seq::<Seq<char>>::empty()));
        let ghost p0 = Seq::<Seq<char>>::empty();
        add_text_param(&mut out, Ghost(p0), "filter=", &self.query);
        let ghost p1 = p0 + text_param("filter="@, self.query);
        add_text_param(&mut out, Ghost(p1), "category=", &self.category);
        let ghost p2 = p1 + text_param("category="@, self.category);
        add_text_param(&mut out, Ghost(p2), "godot_version=", &self.godot_version);
        let ghost p3 = p2 + text_param("godot_version="@, self.godot_version);
        add_text_param(&mut out, Ghost(p3), "support=", &self.support);
        let ghost p4 = p3 + text_param("support="@, self.support);
        add_text_param(&mut out, Ghost(p4), "sort=", &self.sort);
        let ghost p5 = p4 + text_param("sort="@, self.sort);
        add_reverse_param(&mut out, Ghost(p5), &self.sort_order);
        let ghost p6 = p5 + reverse_param(self.sort_order);
        add_number_param(&mut out, Ghost(p6), "page=", self.page);
        let ghost p7 = p6 + number_param("page="@, self.page);
        add_number_param(&mut out, Ghost(p7), "max_results=", self.max_results);
        let ghost p8 = p7 + number_param("max_results="@, self.max_results);
        assert(p8 =~= query_params(*self));
        string_from_chars(&out)
    }
}

/// Adds the parameter `key` with the encoded value, when there is a value.
fn add_text_param(out: &mut Vec<char>, Ghost(parts): Ghost<Seq<Seq<char>>>, key: &str, value: &Option<String>)
    requires
        old(out)@ == query_text(parts),
    ensures
        final(out)@ == query_text(parts + text_param(key@, *value)),
{
    match value {
        Some(v) => {
            let part = text_part(key, v.as_str());
            push_param(out, Ghost(parts), &part);
            assert(parts + text_param(key@, *value) =~= parts.push(part@));
        },
        None => {
            assert(parts + text_param(key@, *value) =~= parts);
        },
    }
}

/// Adds the parameter `key` with the number, when there is one.
fn add_number_param(out: &mut Vec<char>, Ghost(parts): Ghost<Seq<Seq<char>>>, key: &str, value: Option<u32>)
    requires
        old(out)@ == query_text(parts),
    ensures
        final(out)@ == query_text(parts + number_param(key@, value)),
{
    match value {
        Some(n) => {
            let part = number_part(key, n);
            push_param(out, Ghost(parts), &part);
            assert(parts + number_param(key@, value) =~= parts.push(part@));
        },
        None => {
            assert(parts + number_param(key@, value) =~= parts);
        },
    }
}

/// Adds the sort direction, when there is a sort order.
fn add_reverse_param(out: &mut Vec<char>, Ghost(parts): Ghost<Seq<Seq<char>>>, order: &Option<String>)
    requires
        old(out)@ == query_text(parts),
    ensures
        final(out)@ == query_text(parts + reverse_param(*order)),
{
    match order {
        Some(o) => {
            let mut part = chars_of("reverse=");
            if str_equal(o.as_str(), "desc") {
                append_str(&mut part, "true");
            } else {
                append_str(&mut part, "false");
            }
            push_param(out, Ghost(parts), &part);
            assert(parts + reverse_param(*order) =~= parts.push(part@));
        },
        None => {
            assert(parts + reverse_param(*order) =~= parts);
        },
    }
}

/// Asset preview image
#[derive(Debug, Clone)]
pub struct AssetPreview {
    /// Preview ID
    pub preview_id: String,
    /// Preview type (image or video)
    pub preview_type: String,
    /// Link to the preview
    pub link: String,
    /// Thumbnail URL
    pub thumbnail: String,
}

/// Category information
#[derive(Debug, Clone)]
pub struct AssetCategoryInfo {
    /// Category ID
    pub id: String,
    /// Category name
    pub name: String,
    /// Category type
    pub category_type: String,
}

/// Configure response for getting available options
#[derive(Debug, Clone)]
pub struct ConfigureResponse {
    /// Available categories
    pub categories: Vec<AssetCategoryInfo>,
}

/// Detailed asset information, as far as the conversion into an asset reads it
/// (the rating, a float, stays with the JSON form of the record).
#[derive(Debug, Clone)]
pub struct GodotAssetDetail {
    /// Asset ID
    pub asset_id: String,
    /// Asset title/name
    pub title: String,
    /// Asset description
    pub description: String,
    /// Asset author
    pub author: String,
    /// Author ID
    pub author_id: String,
    /// Category
    pub category: String,
    /// Category ID
    pub category_id: String,
    /// Godot version
    pub godot_version: String,
    /// Cost/License
    pub cost: String,
    /// Support level
    pub support_level: String,
    /// Icon URL
    pub icon_url: String,
    /// Version string
    pub version: String,
    /// Version ID
    pub version_id: String,
    /// Download URL
    pub download_url: String,
    /// Download hash
    pub download_hash: String,
    /// Browse URL (repository/website)
    pub browse_url: String,
    /// Issues URL
    pub issues_url: String,
    /// Preview images
    pub previews: Vec<AssetPreview>,
    /// Download count
    pub download_count: u32,
    /// Modification date
    pub modify_date: String,
}

/// The category that a lower-case Godot category name stands for.
pub open spec fn category_for(name: Seq<char>) -> AssetCategory {
    if name == "2d tools"@ || name == "2d"@ {
        AssetCategory::TwoD
    } else if name == "3d tools"@ || name == "3d"@ {
        AssetCategory::ThreeD
    } else if name == "shaders"@ {
        AssetCategory::Shaders
    } else if name == "materials"@ {
        AssetCategory::Materials
    } else if name == "audio"@ {
        AssetCategory::Audio
    } else if name == "tools"@ {
        AssetCategory::Tools
    } else if name == "scripts"@ {
        AssetCategory::Scripts
    } else if name == "templates"@ || name == "projects"@ {
        AssetCategory::Templates
    } else if name == "demos"@ {
        AssetCategory::Demos
    } else {
        AssetCategory::Misc
    }
}

/// The category that a lower-case Godot category name stands for.
pub fn category_from_lowercase(name: &str) -> (r: AssetCategory)
    ensures
        r == category_for(name@),
{
    if str_equal(name, "2d tools") || str_equal(name, "2d") {
        AssetCategory::TwoD
    } else if str_equal(name, "3d tools") || str_equal(name, "3d") {
        AssetCategory::ThreeD
    } else if str_equal(name, "shaders") {
        AssetCategory::Shaders
    } else if str_equal(name, "materials") {
        AssetCategory::Materials
    } else if str_equal(name, "audio") {
        AssetCategory::Audio
    } else if str_equal(name, "tools") {
        AssetCategory::Tools
    } else if str_equal(name, "scripts") {
        AssetCategory::Scripts
    } else if str_equal(name, "templates") || str_equal(name, "projects") {
        AssetCategory::Templates
    } else if str_equal(name, "demos") {
        AssetCategory::Demos
    } else {
        AssetCategory::Misc
    }
}

/// The answer of a health check, from the answer of the configure request.
pub fn health_outcome(configure: Result<(), String>) -> (r: Result<bool, String>)
    ensures
        match configure {
            Ok(()) => r == Ok::<bool, String>(true),
            Err(e) => r matches Err(m) && m@ == "Health check failed: "@ + e@,
        },
{
    match configure {
        Ok(()) => Ok(true),
        Err(e) => {
            let mut m = "Health check failed: ".to_string();
            m.append(e.as_str());
            Err(m)
        },
    }
}

/// Godot Asset Library API client: where it sends requests, with what token, and
/// the cache and rate limit it keeps.
pub struct GodotAssetLibraryClient {
    /// Base API URL
    base_url: String,
    /// Optional authentication token
    auth_token: Option<String>,
    /// Response cache, by URL
    cache: KeyedList<CacheEntry>,
    /// Rate limiter
    rate_limiter: RateLimiter,
    /// Cache enabled flag
    cache_enabled: bool,
}

/// The cached response for a URL at `now`, if the cache is on and holds an entry
/// that has not expired.
pub open spec fn cache_hit(
    enabled: bool,
    cache: Map<Seq<char>, (Seq<char>, u64, u64)>,
    url: Seq<char>,
    now: u64,
) -> Option<Seq<char>> {
    if enabled && cache.contains_key(url) && !entry_expired(cache[url].1, cache[url].2, now) {
        Some(cache[url].0)
    } else {
        None
    }
}

impl GodotAssetLibraryClient {
    #[verifier::type_invariant]
    spec fn inv(self) -> bool {
        &&& self.cache.wf()
        &&& self.rate_limiter.window == 60_000
    }

    /// The base URL of the API.
    pub closed spec fn base_url(self) -> Seq<char> {
        self.base_url@
    }

    /// The token that requests carry, if any.
    pub closed spec fn auth_token(self) -> Option<Seq<char>> {
        match self.auth_token {
            Some(t) => Some(t@),
            None => None,
        }
    }

    /// Whether responses are cached.
    pub closed spec fn cache_enabled(self) -> bool {
        self.cache_enabled
    }

    /// The cached responses by URL: data, creation instant, time to live.
    pub closed spec fn cache(self) -> Map<Seq<char>, (Seq<char>, u64, u64)> {
        self.cache@.map_values(|e: CacheEntry| (e.data@, e.created_at, e.ttl))
    }

    /// The instants of the requests in the current window, oldest first.
    pub closed spec fn requests(self) -> Seq<u64> {
        self.rate_limiter.requests@
    }

    /// How many requests a minute are allowed.
    pub closed spec fn rate_limit(self) -> u32 {
        self.rate_limiter.max_requests
    }

    /// A client of the API at `base_url`: no token, empty cache (on), 60 requests
    /// a minute.
    pub open spec fn fresh(self, base_url: Seq<char>) -> bool {
        &&& self.base_url() == base_url
        &&& self.auth_token() is None
        &&& self.cache_enabled()
        &&& self.cache() == Map::<Seq<char>, (Seq<char>, u64, u64)>::empty()
        &&& self.requests().len() == 0
        &&& self.rate_limit() == DEFAULT_RATE_LIMIT
    }

    /// The base URL of the API.
    pub fn get_base_url(&self) -> (r: &str)
        ensures
            r@ == self.base_url(),
    {
        self.base_url.as_str()
    }

    /// The token that requests carry, if any.
    pub fn get_auth_token(&self) -> (r: Option<String>)
        ensures
            match r {
                Some(t) => self.auth_token() == Some(t@),
                None => self.auth_token() is None,
            },
    {
        match &self.auth_token {
            Some(t) => Some(t.clone()),
            None => None,
        }
    }

    /// Creates a new API client with the default Godot Asset Library URL
    pub fn new() -> (r: Self)
        ensures
            r.fresh(GODOT_ASSET_LIBRARY_API@),
    {
        Self::with_url(GODOT_ASSET_LIBRARY_API.to_string())
    }

    /// Creates a new API client with a custom base URL (for private repositories)
    pub fn with_url(base_url: String) -> (r: Self)
        ensures
            r.fresh(base_url@),
    {
        let r = Self {
            base_url,
            auth_token: None,
            cache: KeyedList::new(),
            rate_limiter: RateLimiter::new(DEFAULT_RATE_LIMIT),
            cache_enabled: true,
        };
        assert(r.cache() =~= Map::<Seq<char>, (Seq<char>, u64, u64)>::empty());
        r
    }

    /// Sets the authentication token
    pub fn with_auth(self, token: String) -> (r: Self)
        ensures
            r.auth_token() == Some(token@),
            r.base_url() == self.base_url(),
            r.cache_enabled() == self.cache_enabled(),
            r.cache() == self.cache(),
            r.requests() == self.requests(),
            r.rate_limit() == self.rate_limit(),
    {
        proof { use_type_invariant(&self); }
        let mut c = self;
        c.auth_token = Some(token);
        c
    }

    /// Enables or disables caching
    pub fn with_cache(self, enabled: bool) -> (r: Self)
        ensures
            r.cache_enabled() == enabled,
            r.auth_token() == self.auth_token(),
            r.base_url() == self.base_url(),
            r.cache() == self.cache(),
            r.requests() == self.requests(),
            r.rate_limit() == self.rate_limit(),
    {
        proof { use_type_invariant(&self); }
        let mut c = self;
        c.cache_enabled = enabled;
        c
    }

    /// Sets a custom rate limit (requests per minute); the window starts empty.
    pub fn with_rate_limit(self, requests_per_minute: u32) -> (r: Self)
        ensures
            r.rate_limit() == requests_per_minute,
            r.requests().len() == 0,
            r.cache_enabled() == self.cache_enabled(),
            r.auth_token() == self.auth_token(),
            r.base_url() == self.base_url(),
            r.cache() == self.cache(),
    {
        proof { use_type_invariant(&self); }
        let mut c = self;
        c.rate_limiter = RateLimiter::new(requests_per_minute);
        c
    }

    /// Clears the response cache
    pub fn clear_cache(&mut self)
        ensures
            final(self).cache() == Map::<Seq<char>, (Seq<char>, u64, u64)>::empty(),
            final(self).cache_enabled() == old(self).cache_enabled(),
            final(self).auth_token() == old(self).auth_token(),
            final(self).base_url() == old(self).base_url(),
            final(self).requests() == old(self).requests(),
            final(self).rate_limit() == old(self).rate_limit(),
    {
        proof { use_type_invariant(&*self); }
        self.cache = KeyedList::new();
        assert(self.cache() =~= Map::<Seq<char>, (Seq<char>, u64, u64)>::empty());
    }

    /// The URL that lists assets with the parameters.
    pub fn asset_list_url(&self, params: &AssetListParams) -> (r: String)
        ensures
            r@ == self.base_url() + "/asset"@ + query_text(query_params(*params)),
    {
        let mut u = self.base_url.clone();
        u.append("/asset");
        u.append(params.to_query_string().as_str());
        u
    }

    /// The URL of an asset's details.
    pub fn asset_detail_url(&self, asset_id: &str) -> (r: String)
        ensures
            r@ == self.base_url() + "/asset/"@ + asset_id@,
    {
        let mut u = self.base_url.clone();
        u.append("/asset/");
        u.append(asset_id);
        u
    }

    /// The URL of the configuration (categories and the like).
    pub fn configure_url(&self) -> (r: String)
        ensures
            r@ == self.base_url() + "/configure"@,
    {
        let mut u = self.base_url.clone();
        u.append("/configure");
        u
    }

    /// The `Authorization` header's value that requests carry, if there is a token.
    pub fn authorization_value(&self) -> (r: Option<String>)
        ensures
            match self.auth_token() {
                Some(t) => r matches Some(v) && v@ == "Bearer "@ + t,
                None => r is None,
            },
    {
        match &self.auth_token {
            Some(t) => {
                let mut v = "Bearer ".to_string();
                v.append(t.as_str());
                Some(v)
            },
            None => None,
        }
    }

    /// The cached response for a URL at `now`: when the cache is on and holds an
    /// entry for the URL that has not expired.
    pub fn cached_response_at(&self, url: &str, now: u64) -> (r: Option<&String>)
        ensures
            match r {
                Some(d) => cache_hit(self.cache_enabled(), self.cache(), url@, now) == Some(d@),
                None => cache_hit(self.cache_enabled(), self.cache(), url@, now) is None,
            },
    {
        proof { use_type_invariant(&*self); }
        if !self.cache_enabled {
            return None;
        }
        match self.cache.get(url) {
            Some(entry) => {
                if entry.is_expired_at(now) {
                    None
                } else {
                    Some(&entry.data)
                }
            },
            None => None,
        }
    }

    /// Lets a request through the rate limit at `now`, recording it, or refuses it
    /// with the time to wait in whole seconds when that is known.
    pub fn admit_request_at(&mut self, now: u64) -> (r: Result<(), String>)
        ensures
            final(self).cache() == old(self).cache(),
            final(self).cache_enabled() == old(self).cache_enabled(),
            final(self).auth_token() == old(self).auth_token(),
            final(self).base_url() == old(self).base_url(),
            final(self).rate_limit() == old(self).rate_limit(),
            ({
                let kept = old(self).requests().filter(in_window(60_000, now));
                &&& r is Ok <==> kept.len() < old(self).rate_limit()
                &&& r is Ok ==> final(self).requests() == kept.push(now)
                &&& r matches Err(e) ==> final(self).requests() == kept && e@ == match oldest_wait(kept, 60_000, now) {
                    Some(w) => rate_limit_message(old(self).rate_limit()) + " - retry in "@ + decimal((w / 1000) as nat)
                        + " seconds"@,
                    None => rate_limit_message(old(self).rate_limit()),
                }
            }),
    {
        proof { use_type_invariant(&*self); }
        let mut limiter = RateLimiter::new(0);
        std::mem::swap(&mut limiter, &mut self.rate_limiter);
        assert(limiter.window == 60_000);
        let checked = limiter.check_and_record_at(now);
        let result = match checked {
            Ok(()) => Ok(()),
            Err(e) => {
                match limiter.time_until_available_at(now) {
                    Some(wait) => {
                        let mut m = e;
                        m.append(" - retry in ");
                        m.append(u32_string_of_secs(wait).as_str());
                        m.append(" seconds");
                        Err(m)
                    },
                    None => Err(e),
                }
            },
        };
        self.rate_limiter = limiter;
        result
    }

    /// Keeps a response for a URL, created at `now`, when the cache is on.
    pub fn store_response_at(&mut self, url: String, data: String, now: u64)
        ensures
            final(self).cache() == if old(self).cache_enabled() {
                old(self).cache().insert(url@, (data@, now, (DEFAULT_CACHE_TTL * 1000) as u64))
            } else {
                old(self).cache()
            },
            final(self).cache_enabled() == old(self).cache_enabled(),
            final(self).auth_token() == old(self).auth_token(),
            final(self).base_url() == old(self).base_url(),
            final(self).requests() == old(self).requests(),
            final(self).rate_limit() == old(self).rate_limit(),
    {
        proof { use_type_invariant(&*self); }
        if self.cache_enabled {
            let ghost key = url@;
            let mut t = KeyedList::new();
            std::mem::swap(&mut t, &mut self.cache);
            t.insert(url, CacheEntry::new_at(data, now));
            self.cache = t;
            assert(self.cache() =~= old(self).cache().insert(key, (data@, now, (DEFAULT_CACHE_TTL * 1000) as u64)));
        }
    }

    /// Converts a Godot API asset to our internal Asset structure
    pub fn convert_to_asset(&self, godot_asset: &GodotAssetDetail) -> (r: Asset)
        ensures
            r.id == godot_asset.asset_id,
            r.name == godot_asset.title,
            r.description == godot_asset.description,
            r.author == godot_asset.author,
            r.version == godot_asset.version,
            r.category == category_for(lowercase(godot_asset.category@)),
            r.path@ == Seq::<char>::empty(),
            r.tags@ == seq![godot_asset.category, godot_asset.godot_version, godot_asset.support_level],
            r.preview_url == Some(godot_asset.icon_url),
            r.download_url == godot_asset.download_url,
            r.dependencies@.len() == 0,
            r.version_history@.len() == 0,
    {
        let category = self.map_category(godot_asset.category.as_str());
        let mut tags: Vec<String> = Vec::new();
        tags.push(godot_asset.category.clone());
        tags.push(godot_asset.godot_version.clone());
        tags.push(godot_asset.support_level.clone());
        let r = Asset {
            id: godot_asset.asset_id.clone(),
            name: godot_asset.title.clone(),
            description: godot_asset.description.clone(),
            author: godot_asset.author.clone(),
            version: godot_asset.version.clone(),
            category,
            path: String::new(),
            tags,
            preview_url: Some(godot_asset.icon_url.clone()),
            download_url: godot_asset.download_url.clone(),
            dependencies: Vec::new(),
            version_history: Vec::new(),
        };
        assert(r.tags@ =~= seq![godot_asset.category, godot_asset.godot_version, godot_asset.support_level]);
        r
    }

    /// Maps Godot Asset Library category to our internal category
    pub fn map_category(&self, category_name: &str) -> (r: AssetCategory)
        ensures
            r == category_for(lowercase(category_name@)),
    {
        let lower = to_lowercase_string(category_name);
        category_from_lowercase(lower.as_str())
    }
}

/// Whole seconds of a number of milliseconds, as text.
fn u32_string_of_secs(ms: u64) -> (r: String)
    requires
        ms <= 60_000,
    ensures
        r@ == decimal((ms / 1000) as nat),
{
    let secs = (ms / 1000) as u32;
    u32_string(secs)
}

impl Default for GodotAssetLibraryClient {
    fn default() -> (r: Self)
        ensures
            r.fresh(GODOT_ASSET_LIBRARY_API@),
    {
        Self::new()
    }
}

/// A response stored in the cache is what a read of the same URL gives back, as
/// long as its time to live has not run out.
pub proof fn lemma_cache_read_after_write(
    cache: Map<Seq<char>, (Seq<char>, u64, u64)>,
    url: Seq<char>,
    data: Seq<char>,
    stored_at: u64,
    ttl: u64,
    now: u64,
)
    requires
        !entry_expired(stored_at, ttl, now),
    ensures
        cache_hit(true, cache.insert(url, (data, stored_at, ttl)), url, now) == Some(data),
{
}

/// Requests younger than a minute stay counted: when the client has on record at
/// least as many requests made within the 60 000 ms up to `now` as its limit, the
/// requests it keeps at `now` reach the limit, so a request at `now` is refused
/// (`admit_request_at`).
pub proof fn lemma_recent_requests_refuse(c: GodotAssetLibraryClient, now: u64)
    requires
        c.requests().filter(|t: u64| t <= now && now - t < 60_000).len() >= c.rate_limit(),
    ensures
        !(c.requests().filter(in_window(60_000, now)).len() < c.rate_limit()),
{
    lemma_filter_len_mono(c.requests(), |t: u64| t <= now && now - t < 60_000, in_window(60_000, now));
}

/// Filtering by a weaker predicate keeps at least as many elements.
proof fn lemma_filter_len_mono(s: Seq<u64>, p: spec_fn(u64) -> bool, q: spec_fn(u64) -> bool)
    requires
        forall|t: u64| #[trigger] p(t) ==> q(t),
    ensures
        s.filter(p).len() <= s.filter(q).len(),
    decreases s.len(),
{
    if s.len() > 0 {
        let d = s.drop_last();
        lemma_filter_len_mono(d, p, q);
        assert(s =~= d.push(s.last()));
        d.lemma_filter_push(s.last(), p);
        d.lemma_filter_push(s.last(), q);
    }
}

} // verus!
