//! Credentials for asset sources, their store, and the HTTP headers they give.
use vstd::prelude::*;
use crate::keyed::{
    KeyedList, has_string, lemma_selected_keys, selected_key, strings_distinct,
};

pub mod secure_storage;

verus! {

/// Authentication credentials for different auth types. Expiry instants are
/// milliseconds since the Unix epoch.
#[derive(Debug, Clone)]
pub enum Credentials {
    /// No authentication
    NoAuth,
    /// Bearer token (API token)
    BearerToken { token: String, expires_at: Option<u64> },
    /// API key authentication
    ApiKey { key: String, header_name: Option<String> },
    /// Basic authentication
    Basic { username: String, password: String },
    /// OAuth 2.0 authentication
    OAuth2 { access_token: String, refresh_token: Option<String>, expires_at: Option<u64> },
}

/// How long before expiry OAuth2 credentials are due for a refresh (5 minutes).
pub const REFRESH_WINDOW_MS: u64 = 300_000;

/// The credentials have expired at `now`: a bearer token or OAuth2 access token
/// whose expiry lies before `now`.
pub open spec fn expired_at(c: Credentials, now: u64) -> bool {
    match c {
        Credentials::BearerToken { expires_at: Some(e), .. } => now > e,
        Credentials::OAuth2 { expires_at: Some(e), .. } => now > e,
        _ => false,
    }
}

/// The credentials need a refresh at `now`: OAuth2 credentials with a refresh
/// token whose expiry is less than five minutes away, or already past.
pub open spec fn refresh_due_at(c: Credentials, now: u64) -> bool {
    match c {
        Credentials::OAuth2 { refresh_token: Some(_), expires_at: Some(e), .. } => e < now || e - now
            < REFRESH_WINDOW_MS,
        _ => false,
    }
}

/// The stand-in encoding of `user:password` that the Basic header carries.
pub open spec fn basic_encoding(s: Seq<char>) -> Seq<char> {
    "base64("@ + s + ")"@
}

/// The HTTP header (name, value) that credentials give, if any.
pub open spec fn auth_header(c: Credentials) -> Option<(Seq<char>, Seq<char>)> {
    match c {
        Credentials::NoAuth => None,
        Credentials::BearerToken { token, .. } => Some(("Authorization"@, "Bearer "@ + token@)),
        Credentials::ApiKey { key, header_name } => Some(
            (
                match header_name {
                    Some(h) => h@,
                    None => "X-API-Key"@,
                },
                key@,
            ),
        ),
        Credentials::Basic { username, password } => Some(
            ("Authorization"@, "Basic "@ + basic_encoding(username@ + ":"@ + password@)),
        ),
        Credentials::OAuth2 { access_token, .. } => Some(("Authorization"@, "Bearer "@ + access_token@)),
    }
}

/// A header as strings matches a header as texts.
pub open spec fn header_matches(r: Option<(String, String)>, h: Option<(Seq<char>, Seq<char>)>) -> bool {
    match (r, h) {
        (Some(a), Some(b)) => a.0@ == b.0 && a.1@ == b.1,
        (None, None) => true,
        _ => false,
    }
}

/// Helper for the encoding of basic credentials (a stand-in that marks the text
/// to be encoded).
fn base64_encode(input: String) -> (r: String)
    ensures
        r@ == basic_encoding(input@),
{
    let mut r = "base64(".to_string();
    r.append(input.as_str());
    r.append(")");
    r
}

/// `names` lists, each once, exactly the sources whose credentials have expired at `now`.
pub open spec fn lists_expired(names: Seq<String>, creds: Map<Seq<char>, Credentials>, now: u64) -> bool {
    &&& strings_distinct(names)
    &&& forall|k: Seq<char>| #[trigger] has_string(names, k) <==> creds.contains_key(k) && expired_at(creds[k], now)
}

/// `names` lists, each once, exactly the sources whose credentials need a refresh at `now`.
pub open spec fn lists_refresh_due(names: Seq<String>, creds: Map<Seq<char>, Credentials>, now: u64) -> bool {
    &&& strings_distinct(names)
    &&& forall|k: Seq<char>| #[trigger] has_string(names, k) <==> creds.contains_key(k) && refresh_due_at(creds[k], now)
}

/// The credentials that have not expired at `now`.
pub open spec fn without_expired(creds: Map<Seq<char>, Credentials>, now: u64) -> Map<Seq<char>, Credentials> {
    creds.restrict(creds.dom().filter(|k: Seq<char>| !expired_at(creds[k], now)))
}

impl Credentials {
    /// Checks if credentials are expired
    pub fn is_expired(&self) -> (r: bool)
        ensures
            !(self is BearerToken || self is OAuth2) ==> !r,
            exists|now: u64| r == #[trigger] expired_at(*self, now),
    {
        let now = crate::clock::now_millis();
        self.is_expired_at(now)
    }

    /// Checks if credentials are expired at `now`
    pub fn is_expired_at(&self, now: u64) -> (r: bool)
        ensures
            r == expired_at(*self, now),
    {
        match self {
            Credentials::BearerToken { expires_at: Some(exp), .. } => now > *exp,
            Credentials::OAuth2 { expires_at: Some(exp), .. } => now > *exp,
            _ => false,
        }
    }

    /// Checks if credentials need refresh
    pub fn needs_refresh(&self) -> (r: bool)
        ensures
            !(self is OAuth2) ==> !r,
            exists|now: u64| r == #[trigger] refresh_due_at(*self, now),
    {
        let now = crate::clock::now_millis();
        self.needs_refresh_at(now)
    }

    /// Checks if credentials need refresh at `now`
    pub fn needs_refresh_at(&self, now: u64) -> (r: bool)
        ensures
            r == refresh_due_at(*self, now),
    {
        match self {
            Credentials::OAuth2 { refresh_token: Some(_), expires_at: Some(exp), .. } => {
                if *exp >= now {
                    *exp - now < REFRESH_WINDOW_MS
                } else {
                    true
                }
            },
            _ => false,
        }
    }

    /// Gets the HTTP authorization header value
    pub fn to_auth_header(&self) -> (r: Option<(String, String)>)
        ensures
            header_matches(r, auth_header(*self)),
    {
        match self {
            Credentials::NoAuth => None,
            Credentials::BearerToken { token, .. } => {
                let mut v = "Bearer ".to_string();
                v.append(token.as_str());
                Some(("Authorization".to_string(), v))
            },
            Credentials::ApiKey { key, header_name } => {
                let header = match header_name {
                    Some(h) => h.clone(),
                    None => "X-API-Key".to_string(),
                };
                Some((header, key.clone()))
            },
            Credentials::Basic { username, password } => {
                let mut pair = username.clone();
                pair.append(":");
                pair.append(password.as_str());
                let encoded = base64_encode(pair);
                let mut v = "Basic ".to_string();
                v.append(encoded.as_str());
                Some(("Authorization".to_string(), v))
            },
            Credentials::OAuth2 { access_token, .. } => {
                let mut v = "Bearer ".to_string();
                v.append(access_token.as_str());
                Some(("Authorization".to_string(), v))
            },
        }
    }
}

/// Authentication storage and management
pub struct AuthenticationStore {
    /// Map of source name to credentials
    credentials: KeyedList<Credentials>,
    /// Whether to encrypt stored credentials
    encrypt_at_rest: bool,
}

impl View for AuthenticationStore {
    type V = Map<Seq<char>, Credentials>;

    closed spec fn view(&self) -> Map<Seq<char>, Credentials> {
        self.credentials@
    }
}

impl AuthenticationStore {
    #[verifier::type_invariant]
    spec fn inv(self) -> bool {
        self.credentials.wf()
    }

    /// Whether credentials are to be encrypted at rest.
    pub closed spec fn encrypts_at_rest(self) -> bool {
        self.encrypt_at_rest
    }

    /// Creates a new authentication store
    pub fn new() -> (r: Self)
        ensures
            r@ == Map::<Seq<char>, Credentials>::empty(),
            r.encrypts_at_rest(),
            r@.dom().finite(),
    {
        Self { credentials: KeyedList::new(), encrypt_at_rest: true }
    }

    /// Stores credentials for a source
    pub fn store_credentials(&mut self, source_name: String, credentials: Credentials)
        ensures
            final(self)@ == old(self)@.insert(source_name@, credentials),
            final(self).encrypts_at_rest() == old(self).encrypts_at_rest(),
            final(self)@.dom().finite(),
            final(self)@.len() == old(self)@.len() + if old(self)@.contains_key(source_name@) { 0int } else { 1int },
    {
        proof { use_type_invariant(&*self); self.credentials.lemma_wf(); }
        let mut t = KeyedList::new();
        std::mem::swap(&mut t, &mut self.credentials);
        t.insert(source_name, credentials);
        self.credentials = t;
        proof { use_type_invariant(&*self); self.credentials.lemma_wf(); }
    }

    /// Retrieves credentials for a source
    pub fn get_credentials(&self, source_name: &str) -> (r: Option<&Credentials>)
        ensures
            match r {
                Some(c) => self@.contains_key(source_name@) && *c == self@[source_name@],
                None => !self@.contains_key(source_name@),
            },
    {
        proof { use_type_invariant(&*self); }
        self.credentials.get(source_name)
    }

    /// Removes credentials for a source
    pub fn remove_credentials(&mut self, source_name: &str) -> (r: Option<Credentials>)
        ensures
            final(self)@ == old(self)@.remove(source_name@),
            final(self).encrypts_at_rest() == old(self).encrypts_at_rest(),
            match r {
                Some(c) => old(self)@.contains_key(source_name@) && c == old(self)@[source_name@],
                None => !old(self)@.contains_key(source_name@),
            },
            final(self)@.dom().finite(),
            final(self)@.len() == old(self)@.len() - if r is Some { 1int } else { 0int },
    {
        proof { use_type_invariant(&*self); self.credentials.lemma_wf(); }
        let mut t = KeyedList::new();
        std::mem::swap(&mut t, &mut self.credentials);
        let out = t.remove(source_name);
        self.credentials = t;
        proof { use_type_invariant(&*self); self.credentials.lemma_wf(); }
        out
    }

    /// Checks if credentials exist for a source
    pub fn has_credentials(&self, source_name: &str) -> (r: bool)
        ensures
            r == self@.contains_key(source_name@),
    {
        proof { use_type_invariant(&*self); }
        self.credentials.contains_key(source_name)
    }

    /// Gets all sources with expired credentials
    pub fn get_expired_credentials(&self) -> (r: Vec<String>)
        ensures
            strings_distinct(r@),
            forall|k: Seq<char>| has_string(r@, k) ==> #[trigger] self@.contains_key(k),
            exists|now: u64| #[trigger] lists_expired(r@, self@, now),
    {
        let now = crate::clock::now_millis();
        let r = self.get_expired_credentials_at(now);
        assert(lists_expired(r@, self@, now));
        r
    }

    /// The sources whose credentials have expired at `now`, each once.
    pub fn get_expired_credentials_at(&self, now: u64) -> (r: Vec<String>)
        ensures
            strings_distinct(r@),
            forall|k: Seq<char>| #[trigger] has_string(r@, k) <==> self@.contains_key(k) && expired_at(self@[k], now),
    {
        proof { use_type_invariant(&*self); }
        let n = self.credentials.len();
        let ghost pred = |c: Credentials| expired_at(c, now);
        let mut mask: Vec<bool> = Vec::new();
        let mut i: usize = 0;
        while i < n
            invariant
                n == self.credentials.entries().len(),
                self.credentials.wf(),
                i <= n,
                mask@.len() == i,
                pred == (|c: Credentials| expired_at(c, now)),
                forall|j: int| 0 <= j < i ==> mask@[j] == pred(#[trigger] self.credentials.entries()[j].1),
            decreases n - i,
        {
            mask.push(self.credentials.value_at(i).is_expired_at(now));
            i = i + 1;
        }
        proof { lemma_selected_keys(self.credentials.entries(), mask@, pred); }
        let r = self.credentials.select_keys(&mask);
        assert forall|k: Seq<char>| #[trigger] has_string(r@, k) <==> self@.contains_key(k) && expired_at(self@[k], now) by {
            assert(has_string(r@, k) <==> selected_key(self.credentials.entries(), mask@, k));
        }
        r
    }

    /// Gets all sources needing credential refresh
    pub fn get_credentials_needing_refresh(&self) -> (r: Vec<String>)
        ensures
            strings_distinct(r@),
            forall|k: Seq<char>| has_string(r@, k) ==> #[trigger] self@.contains_key(k),
            exists|now: u64| #[trigger] lists_refresh_due(r@, self@, now),
    {
        let now = crate::clock::now_millis();
        let r = self.get_credentials_needing_refresh_at(now);
        assert(lists_refresh_due(r@, self@, now));
        r
    }

    /// The sources whose credentials need a refresh at `now`, each once.
    pub fn get_credentials_needing_refresh_at(&self, now: u64) -> (r: Vec<String>)
        ensures
            strings_distinct(r@),
            forall|k: Seq<char>| #[trigger] has_string(r@, k) <==> self@.contains_key(k) && refresh_due_at(self@[k], now),
    {
        proof { use_type_invariant(&*self); }
        let n = self.credentials.len();
        let ghost pred = |c: Credentials| refresh_due_at(c, now);
        let mut mask: Vec<bool> = Vec::new();
        let mut i: usize = 0;
        while i < n
            invariant
                n == self.credentials.entries().len(),
                self.credentials.wf(),
                i <= n,
                mask@.len() == i,
                pred == (|c: Credentials| refresh_due_at(c, now)),
                forall|j: int| 0 <= j < i ==> mask@[j] == pred(#[trigger] self.credentials.entries()[j].1),
            decreases n - i,
        {
            mask.push(self.credentials.value_at(i).needs_refresh_at(now));
            i = i + 1;
        }
        proof { lemma_selected_keys(self.credentials.entries(), mask@, pred); }
        let r = self.credentials.select_keys(&mask);
        assert forall|k: Seq<char>| #[trigger] has_string(r@, k) <==> self@.contains_key(k) && refresh_due_at(self@[k], now) by {
            assert(has_string(r@, k) <==> selected_key(self.credentials.entries(), mask@, k));
        }
        r
    }

    /// Updates credentials for a source
    pub fn update_credentials(&mut self, source_name: &str, credentials: Credentials) -> (r: Result<(), String>)
        ensures
            r is Ok <==> old(self)@.contains_key(source_name@),
            r is Ok ==> final(self)@ == old(self)@.insert(source_name@, credentials),
            r matches Err(e) ==> final(self)@ == old(self)@ && e@ == "No credentials found for source '"@ + source_name@ + "'"@,
            final(self).encrypts_at_rest() == old(self).encrypts_at_rest(),
    {
        proof { use_type_invariant(&*self); }
        if !self.credentials.contains_key(source_name) {
            return Err(no_credentials_message(source_name));
        }
        let mut t = KeyedList::new();
        std::mem::swap(&mut t, &mut self.credentials);
        t.insert(source_name.to_string(), credentials);
        self.credentials = t;
        Ok(())
    }

    /// Validates credentials by checking expiry
    pub fn validate_credentials(&self, source_name: &str) -> (r: Result<bool, String>)
        ensures
            r is Ok <==> self@.contains_key(source_name@),
            r matches Ok(valid) ==> exists|now: u64| valid == !#[trigger] expired_at(self@[source_name@], now),
            r matches Err(e) ==> e@ == "No credentials found for source '"@ + source_name@ + "'"@,
    {
        let now = crate::clock::now_millis();
        self.validate_credentials_at(source_name, now)
    }

    /// Validates credentials at `now`: `Ok(true)` when they have not expired.
    pub fn validate_credentials_at(&self, source_name: &str, now: u64) -> (r: Result<bool, String>)
        ensures
            match r {
                Ok(valid) => self@.contains_key(source_name@) && valid == !expired_at(self@[source_name@], now),
                Err(e) => !self@.contains_key(source_name@) && e@ == "No credentials found for source '"@
                    + source_name@ + "'"@,
            },
    {
        proof { use_type_invariant(&*self); }
        match self.credentials.get(source_name) {
            Some(creds) => Ok(!creds.is_expired_at(now)),
            None => Err(no_credentials_message(source_name)),
        }
    }

    /// Clears all expired credentials
    pub fn clear_expired(&mut self) -> (r: Vec<String>)
        ensures
            strings_distinct(r@),
            forall|k: Seq<char>| has_string(r@, k) ==> #[trigger] old(self)@.contains_key(k),
            exists|now: u64| #[trigger] lists_expired(r@, old(self)@, now) && final(self)@ == without_expired(old(self)@, now),
            final(self).encrypts_at_rest() == old(self).encrypts_at_rest(),
    {
        let now = crate::clock::now_millis();
        let r = self.clear_expired_at(now);
        assert(lists_expired(r@, old(self)@, now));
        r
    }

    /// Removes the credentials that have expired at `now`; returns their sources.
    pub fn clear_expired_at(&mut self, now: u64) -> (r: Vec<String>)
        ensures
            strings_distinct(r@),
            forall|k: Seq<char>| #[trigger] has_string(r@, k) <==> old(self)@.contains_key(k) && expired_at(old(self)@[k], now),
            final(self)@ == without_expired(old(self)@, now),
            final(self).encrypts_at_rest() == old(self).encrypts_at_rest(),
    {
        proof { use_type_invariant(&*self); }
        let expired = self.get_expired_credentials_at(now);
        let ghost start = self@;
        let mut i: usize = 0;
        while i < expired.len()
            invariant
                i <= expired@.len(),
                strings_distinct(expired@),
                forall|k: Seq<char>| #[trigger] has_string(expired@, k) <==> start.contains_key(k) && expired_at(start[k], now),
                forall|k: Seq<char>| #[trigger] self@.contains_key(k) <==> start.contains_key(k) && !has_string(expired@.take(i as int), k),
                forall|k: Seq<char>| #[trigger] self@.contains_key(k) ==> self@[k] == start[k],
                self.encrypts_at_rest() == old(self).encrypts_at_rest(),
            decreases expired.len() - i,
        {
            proof { use_type_invariant(&*self); }
            let ghost before = self@;
            let ghost prefix = expired@.take(i as int);
            let mut t = KeyedList::new();
            std::mem::swap(&mut t, &mut self.credentials);
            t.remove(expired[i].as_str());
            self.credentials = t;
            assert forall|k: Seq<char>| has_string(expired@.take(i + 1), k) <==> has_string(prefix, k) || k == expired@[i as int]@ by {
                if has_string(expired@.take(i + 1), k) {
                    let j = choose|j: int| 0 <= j < i + 1 && #[trigger] expired@.take(i + 1)[j]@ == k;
                    if j < i {
                        assert(prefix[j]@ == k);
                    }
                }
                if has_string(prefix, k) {
                    let j = choose|j: int| 0 <= j < i && #[trigger] prefix[j]@ == k;
                    assert(expired@.take(i + 1)[j]@ == k);
                }
                if k == expired@[i as int]@ {
                    assert(expired@.take(i + 1)[i as int]@ == k);
                }
            }
            i = i + 1;
        }
        assert(expired@.take(i as int) =~= expired@);
        assert(self@ =~= start.restrict(start.dom().filter(|k: Seq<char>| !expired_at(start[k], now))));
        expired
    }

    /// Gets count of stored credentials
    pub fn count(&self) -> (r: usize)
        ensures
            r == self@.len(),
            self@.dom().finite(),
    {
        proof { use_type_invariant(&*self); self.credentials.lemma_wf(); }
        self.credentials.len()
    }
}

/// The message of a missing source.
fn no_credentials_message(source_name: &str) -> (r: String)
    ensures
        r@ == "No credentials found for source '"@ + source_name@ + "'"@,
{
    let mut m = "No credentials found for source '".to_string();
    m.append(source_name);
    m.append("'");
    m
}

impl Default for AuthenticationStore {
    fn default() -> (r: Self)
        ensures
            r@ == Map::<Seq<char>, Credentials>::empty(),
    {
        Self::new()
    }
}

/// Authentication manager that integrates with the config system
pub struct AuthenticationManager {
    store: AuthenticationStore,
}

impl View for AuthenticationManager {
    type V = Map<Seq<char>, Credentials>;

    closed spec fn view(&self) -> Map<Seq<char>, Credentials> {
        self.store@
    }
}

/// The expiry instant of credentials that last `expires_in` from `now` (capped at
/// the end of representable time).
pub open spec fn expiry_after(now: u64, expires_in: Option<u64>) -> Option<u64> {
    match expires_in {
        Some(d) => Some(if now + d > u64::MAX { u64::MAX } else { (now + d) as u64 }),
        None => None,
    }
}

impl AuthenticationManager {
    /// Whether its store encrypts credentials at rest.
    pub closed spec fn encrypts_at_rest(self) -> bool {
        self.store.encrypts_at_rest()
    }

    /// Creates a new authentication manager
    pub fn new() -> (r: Self)
        ensures
            r@ == Map::<Seq<char>, Credentials>::empty(),
            r.encrypts_at_rest(),
    {
        Self { store: AuthenticationStore::new() }
    }

    /// Adds bearer token authentication for a source; `expires_in` is in milliseconds.
    pub fn add_bearer_token(&mut self, source_name: String, token: String, expires_in: Option<u64>)
        ensures
            final(self)@.contains_key(source_name@),
            final(self)@[source_name@] matches Credentials::BearerToken { token: t, expires_at } && t == token
                && (expires_in is None <==> expires_at is None),
            final(self)@.remove(source_name@) == old(self)@.remove(source_name@),
            exists|now: u64| final(self)@ == old(self)@.insert(
                source_name@,
                Credentials::BearerToken { token, expires_at: #[trigger] expiry_after(now, expires_in) },
            ),
    {
        let now = crate::clock::now_millis();
        self.add_bearer_token_at(source_name, token, expires_in, now);
        assert(final(self)@.remove(source_name@) =~= old(self)@.remove(source_name@));
    }

    /// Adds bearer token authentication for a source, expiring `expires_in`
    /// milliseconds after `now`.
    pub fn add_bearer_token_at(&mut self, source_name: String, token: String, expires_in: Option<u64>, now: u64)
        ensures
            final(self)@ == old(self)@.insert(
                source_name@,
                Credentials::BearerToken { token, expires_at: expiry_after(now, expires_in) },
            ),
    {
        let expires_at = match expires_in {
            Some(d) => Some(now.saturating_add(d)),
            None => None,
        };
        let credentials = Credentials::BearerToken { token, expires_at };
        self.store.store_credentials(source_name, credentials);
    }

    /// Adds API key authentication for a source
    pub fn add_api_key(&mut self, source_name: String, key: String, header_name: Option<String>)
        ensures
            final(self)@ == old(self)@.insert(source_name@, Credentials::ApiKey { key, header_name }),
    {
        let credentials = Credentials::ApiKey { key, header_name };
        self.store.store_credentials(source_name, credentials);
    }

    /// Adds basic authentication for a source
    pub fn add_basic_auth(&mut self, source_name: String, username: String, password: String)
        ensures
            final(self)@ == old(self)@.insert(source_name@, Credentials::Basic { username, password }),
    {
        let credentials = Credentials::Basic { username, password };
        self.store.store_credentials(source_name, credentials);
    }

    /// Adds OAuth2 authentication for a source; `expires_in` is in milliseconds.
    pub fn add_oauth2(
        &mut self,
        source_name: String,
        access_token: String,
        refresh_token: Option<String>,
        expires_in: Option<u64>,
    )
        ensures
            final(self)@.contains_key(source_name@),
            final(self)@[source_name@] matches Credentials::OAuth2 { access_token: a, refresh_token: rt, expires_at }
                && a == access_token && rt == refresh_token && (expires_in is None <==> expires_at is None),
            final(self)@.remove(source_name@) == old(self)@.remove(source_name@),
            exists|now: u64| final(self)@ == old(self)@.insert(
                source_name@,
                Credentials::OAuth2 { access_token, refresh_token, expires_at: #[trigger] expiry_after(now, expires_in) },
            ),
    {
        let now = crate::clock::now_millis();
        self.add_oauth2_at(source_name, access_token, refresh_token, expires_in, now);
        assert(final(self)@.remove(source_name@) =~= old(self)@.remove(source_name@));
    }

    /// Adds OAuth2 authentication for a source, expiring `expires_in` milliseconds
    /// after `now`.
    pub fn add_oauth2_at(
        &mut self,
        source_name: String,
        access_token: String,
        refresh_token: Option<String>,
        expires_in: Option<u64>,
        now: u64,
    )
        ensures
            final(self)@ == old(self)@.insert(
                source_name@,
                Credentials::OAuth2 { access_token, refresh_token, expires_at: expiry_after(now, expires_in) },
            ),
    {
        let expires_at = match expires_in {
            Some(d) => Some(now.saturating_add(d)),
            None => None,
        };
        let credentials = Credentials::OAuth2 { access_token, refresh_token, expires_at };
        self.store.store_credentials(source_name, credentials);
    }

    /// Gets authentication headers for a source
    pub fn get_auth_header(&self, source_name: &str) -> (r: Option<(String, String)>)
        ensures
            header_matches(
                r,
                if self@.contains_key(source_name@) {
                    auth_header(self@[source_name@])
                } else {
                    None
                },
            ),
    {
        match self.store.get_credentials(source_name) {
            Some(creds) => creds.to_auth_header(),
            None => None,
        }
    }

    /// Removes authentication for a source
    pub fn remove_auth(&mut self, source_name: &str) -> (r: bool)
        ensures
            r == old(self)@.contains_key(source_name@),
            final(self)@ == old(self)@.remove(source_name@),
    {
        match self.store.remove_credentials(source_name) {
            Some(_) => true,
            None => false,
        }
    }

    /// Validates that authentication is valid for a source
    pub fn validate(&self, source_name: &str) -> (r: Result<bool, String>)
        ensures
            r is Ok <==> self@.contains_key(source_name@),
            r matches Ok(valid) ==> exists|now: u64| valid == !#[trigger] expired_at(self@[source_name@], now),
            r matches Err(e) ==> e@ == "No credentials found for source '"@ + source_name@ + "'"@,
    {
        self.store.validate_credentials(source_name)
    }

    /// Gets sources that need credential refresh
    pub fn get_sources_needing_refresh(&self) -> (r: Vec<String>)
        ensures
            strings_distinct(r@),
            forall|k: Seq<char>| has_string(r@, k) ==> #[trigger] self@.contains_key(k),
            exists|now: u64| #[trigger] lists_refresh_due(r@, self@, now),
    {
        let r = self.store.get_credentials_needing_refresh();
        assert(self@ == self.store@);
        r
    }

    /// Cleans up expired credentials
    pub fn cleanup_expired(&mut self) -> (r: Vec<String>)
        ensures
            strings_distinct(r@),
            forall|k: Seq<char>| has_string(r@, k) ==> #[trigger] old(self)@.contains_key(k),
            exists|now: u64| #[trigger] lists_expired(r@, old(self)@, now) && final(self)@ == without_expired(old(self)@, now),
            final(self).encrypts_at_rest() == old(self).encrypts_at_rest(),
    {
        let ghost before = self.store@;
        assert(old(self)@ == before);
        let r = self.store.clear_expired();
        assert(self@ == self.store@);
        r
    }

    /// Checks if a source has authentication configured
    pub fn has_auth(&self, source_name: &str) -> (r: bool)
        ensures
            r == self@.contains_key(source_name@),
    {
        self.store.has_credentials(source_name)
    }

    /// Gets the internal store (for serialization)
    pub fn get_store(&self) -> (r: &AuthenticationStore)
        ensures
            r@ == self@,
            r.encrypts_at_rest() == self.encrypts_at_rest(),
    {
        &self.store
    }

    /// Sets the internal store (for deserialization)
    pub fn set_store(&mut self, store: AuthenticationStore)
        ensures
            final(self)@ == store@,
            final(self).encrypts_at_rest() == store.encrypts_at_rest(),
    {
        self.store = store;
    }
}

impl Default for AuthenticationManager {
    fn default() -> (r: Self)
        ensures
            r@ == Map::<Seq<char>, Credentials>::empty(),
    {
        Self::new()
    }
}

// ===== Laws of the store =====

/// What was stored for a source is what is retrieved for it, and storing for one
/// source leaves every other source as it was.
pub proof fn lemma_store_then_get(
    before: Map<Seq<char>, Credentials>,
    name: Seq<char>,
    creds: Credentials,
    other: Seq<char>,
)
    ensures
        before.insert(name, creds).contains_key(name),
        before.insert(name, creds)[name] == creds,
        other != name ==> (before.insert(name, creds).contains_key(other) == before.contains_key(other)
            && (before.contains_key(other) ==> before.insert(name, creds)[other] == before[other])),
{
}

/// Removing a source's credentials leaves none for it.
pub proof fn lemma_remove_then_absent(before: Map<Seq<char>, Credentials>, name: Seq<char>)
    ensures
        !before.remove(name).contains_key(name),
{
}

/// Credentials that are not expired now were not expired at any earlier instant.
pub proof fn lemma_expiry_monotone(c: Credentials, earlier: u64, later: u64)
    requires
        earlier <= later,
        expired_at(c, earlier),
    ensures
        expired_at(c, later),
{
}

/// When credentials are expired: bearer tokens and OAuth2 credentials with an
/// expiry instant are expired exactly at the instants after it; credentials of any
/// other kind, or without an expiry, never are.
pub proof fn lemma_expiry_rule(c: Credentials, now: u64)
    ensures
        c matches Credentials::OAuth2 { expires_at: Some(e), .. } ==> (expired_at(c, now) <==> now > e),
        c matches Credentials::BearerToken { expires_at: Some(e), .. } ==> (expired_at(c, now) <==> now > e),
        c matches Credentials::OAuth2 { expires_at: None, .. } ==> !expired_at(c, now),
        c matches Credentials::BearerToken { expires_at: None, .. } ==> !expired_at(c, now),
        !(c is OAuth2 || c is BearerToken) ==> !expired_at(c, now),
{
}

} // verus!
