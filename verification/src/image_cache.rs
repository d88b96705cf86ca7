//! The cache of preview images: which URLs are cached in which files, how much
//! space they take, and which to evict to make room.
//!
//! Downloading images and reading, writing or deleting the files is done by the
//! program around the library, which asks the cache what to do. Instants are
//! milliseconds since the Unix epoch.
use vstd::prelude::*;
use crate::keyed::KeyedList;
use crate::paths::path_exists;
use crate::seqs::{lemma_insert_sorted_at, sort_by_key};
use crate::text::{append_chars, chars_of, split_chars, split_spec, string_from_chars};

verus! {

/// Maximum image dimension for thumbnails (width or height)
pub const MAX_THUMBNAIL_SIZE: u32 = 256;

/// The default limit of the cache: 100 MiB.
pub const DEFAULT_MAX_CACHE_SIZE: u64 = 104_857_600;

/// Cache entry for preview images
#[derive(Debug, Clone)]
pub struct CachedImage {
    /// Path to the cached image file
    pub file_path: String,
    /// URL the image was fetched from
    pub url: String,
    /// Size of the cached file in bytes
    pub file_size: u64,
    /// Instant when cached
    pub cached_at: u64,
}

/// Orders cached images from the oldest.
pub open spec fn age_key() -> spec_fn(CachedImage) -> int {
    |c: CachedImage| c.cached_at as int
}

/// `a - b`, or 0 when `b` is larger.
pub open spec fn sat_sub(a: u64, b: u64) -> u64 {
    if a >= b {
        (a - b) as u64
    } else {
        0
    }
}

/// Making room for `needed` more bytes in a cache that counts `current` bytes:
/// the oldest entries go, one at a time, until the cache fits its limit or none
/// is left. Gives how many go and the size counted after.
pub open spec fn eviction(oldest_first: Seq<CachedImage>, current: u64, needed: u64, max: u64) -> (nat, u64)
    decreases oldest_first.len(),
{
    if current + needed <= max || oldest_first.len() == 0 {
        (0, current)
    } else {
        let rest = eviction(oldest_first.drop_first(), sat_sub(current, oldest_first[0].file_size), needed, max);
        ((rest.0 + 1) as nat, rest.1)
    }
}

/// Holds of a character that takes one byte in UTF-8.
pub open spec fn utf8_width(c: char) -> int {
    let u = c as u32;
    if u < 0x80 {
        1
    } else if u < 0x800 {
        2
    } else if u < 0x10000 {
        3
    } else {
        4
    }
}

/// The length of a text in UTF-8 bytes.
pub open spec fn utf8_len(s: Seq<char>) -> int
    decreases s.len(),
{
    if s.len() == 0 {
        0
    } else {
        utf8_len(s.drop_last()) + utf8_width(s.last())
    }
}

/// The extension a cached file gets: the part of the URL's last path segment
/// (before any query) after its last dot, when that is at most four bytes long;
/// else "jpg".
pub open spec fn cache_extension(url: Seq<char>) -> Seq<char> {
    let path = split_spec(url, '?')[0];
    let segment = split_spec(path, '/').last();
    let ext = split_spec(segment, '.').last();
    if utf8_len(ext) <= 4 {
        ext
    } else {
        "jpg"@
    }
}

/// Every character takes at least one byte.
proof fn lemma_utf8_len_at_least(s: Seq<char>)
    ensures
        utf8_len(s) >= s.len(),
    decreases s.len(),
{
    if s.len() > 0 {
        lemma_utf8_len_at_least(s.drop_last());
    }
}

/// The lower-case hexadecimal spelling of `n`, without leading zeros.
pub open spec fn hex_text(n: nat) -> Seq<char>
    decreases n,
{
    if n < 16 {
        seq![hex_digit(n)]
    } else {
        hex_text(n / 16).push(hex_digit(n % 16))
    }
}

/// The hexadecimal digit for `d`.
pub open spec fn hex_digit(d: nat) -> char {
    if d < 10 {
        ((d + 48) as u8) as char
    } else {
        ((d + 87) as u8) as char
    }
}

/// The hash of a URL, as `DefaultHasher` computes it.
pub uninterp spec fn url_hash(url: Seq<char>) -> u64;

/// `BuildHasher::hash_one` with `BuildHasherDefault<DefaultHasher>`: the hash of
/// the URL as a `DefaultHasher` made by `new` computes it (the same for the same
/// text in every run of this program); it is named, not stated.
#[verifier::external_body]
fn hash_url(url: &str) -> (r: u64)
    ensures
        r == url_hash(url@),
{
    std::hash::BuildHasher::hash_one(
        &std::hash::BuildHasherDefault::<std::collections::hash_map::DefaultHasher>::default(),
        url,
    )
}

/// The hexadecimal digit for `d`.
fn hex_digit_char(d: u64) -> (c: char)
    requires
        d < 16,
    ensures
        c == hex_digit(d as nat),
{
    if d < 10 {
        ((d + 48) as u8) as char
    } else {
        ((d + 87) as u8) as char
    }
}

/// The lower-case hexadecimal spelling of `n`, as `format!("{:x}", n)` writes it.
fn hex_chars(n: u64) -> (v: Vec<char>)
    ensures
        v@ == hex_text(n as nat),
    decreases n,
{
    if n < 16 {
        let mut v = Vec::new();
        v.push(hex_digit_char(n));
        assert(v@ =~= seq![hex_digit(n as nat)]);
        v
    } else {
        let mut v = hex_chars(n / 16);
        v.push(hex_digit_char(n % 16));
        v
    }
}

/// The length of the characters in UTF-8 bytes.
fn utf8_length(v: &Vec<char>) -> (r: u64)
    requires
        v@.len() <= 0x1000_0000,
    ensures
        r == utf8_len(v@),
{
    let mut n: u64 = 0;
    let mut i: usize = 0;
    while i < v.len()
        invariant
            i <= v@.len(),
            v@.len() <= 0x1000_0000,
            n == utf8_len(v@.take(i as int)),
            n <= 4 * i,
        decreases v.len() - i,
    {
        let u = v[i] as u32;
        let w: u64 = if u < 0x80 {
            1
        } else if u < 0x800 {
            2
        } else if u < 0x10000 {
            3
        } else {
            4
        };
        assert(v@.take(i + 1).drop_last() =~= v@.take(i as int));
        n = n + w;
        i = i + 1;
    }
    assert(v@.take(i as int) =~= v@);
    n
}

/// Image cache manager for preview images
pub struct ImageCache {
    /// Directory where cached images are stored
    cache_dir: String,
    /// Map of URLs to cached image entries
    cache_map: KeyedList<CachedImage>,
    /// Maximum cache size in bytes
    max_cache_size: u64,
    /// Current cache size in bytes
    current_cache_size: u64,
}

/// Cache statistics
#[derive(Debug, Clone)]
pub struct CacheStats {
    /// Total number of cached entries
    pub total_entries: usize,
    /// Total size of cache in bytes
    pub total_size_bytes: u64,
    /// Maximum allowed cache size in bytes
    pub max_size_bytes: u64,
}

impl ImageCache {
    #[verifier::type_invariant]
    spec fn inv(self) -> bool {
        &&& self.cache_map.wf()
        &&& forall|u: Seq<char>| #[trigger] self.cache_map@.contains_key(u) ==> self.cache_map@[u].url@ == u
    }

    /// The cached images in the order they were first cached.
    pub closed spec fn entry_list(self) -> Seq<CachedImage> {
        self.cache_map.entries().map_values(|e: (String, CachedImage)| e.1)
    }

    /// The cached images by URL.
    pub closed spec fn entries(self) -> Map<Seq<char>, CachedImage> {
        self.cache_map@
    }

    /// The directory of the cached files.
    pub closed spec fn cache_dir(self) -> Seq<char> {
        self.cache_dir@
    }

    /// The most bytes the cache is to hold.
    pub closed spec fn max_cache_size(self) -> u64 {
        self.max_cache_size
    }

    /// The bytes the cache counts as used.
    pub closed spec fn cache_size(self) -> u64 {
        self.current_cache_size
    }

    /// An empty cache in the directory (which the caller has created), with the
    /// default limit of 100 MiB.
    pub fn new(cache_dir: String) -> (r: Self)
        ensures
            r.cache_dir() == cache_dir@,
            r.entries() == Map::<Seq<char>, CachedImage>::empty(),
            r.max_cache_size() == DEFAULT_MAX_CACHE_SIZE,
            r.cache_size() == 0,
    {
        let r = Self { cache_dir, cache_map: KeyedList::new(), max_cache_size: DEFAULT_MAX_CACHE_SIZE, current_cache_size: 0 };
        assert(r.entry_list() =~= Seq::<CachedImage>::empty());
        r
    }

    /// The most bytes the cache is to hold.
    pub fn get_max_cache_size(&self) -> (r: u64)
        ensures
            r == self.max_cache_size(),
    {
        self.max_cache_size
    }

    /// Sets the maximum cache size
    pub fn with_max_size(self, max_size_bytes: u64) -> (r: Self)
        ensures
            r.max_cache_size() == max_size_bytes,
            r.cache_dir() == self.cache_dir(),
            r.entries() == self.entries(),
            r.cache_size() == self.cache_size(),
    {
        proof { use_type_invariant(&self); }
        let mut c = self;
        c.max_cache_size = max_size_bytes;
        c
    }

    /// The file that caches a URL's image, if the cache has an entry for it (the
    /// file may since have gone).
    pub fn cached_file(&self, url: &str) -> (r: Option<&String>)
        ensures
            match r {
                Some(p) => self.entries().contains_key(url@) && *p == self.entries()[url@].file_path,
                None => !self.entries().contains_key(url@),
            },
    {
        proof { use_type_invariant(&*self); }
        match self.cache_map.get(url) {
            Some(entry) => Some(&entry.file_path),
            None => None,
        }
    }

    /// The path of the file that caches a URL's image: in the cache directory,
    /// named by the URL's hash.
    pub fn cache_path_for(&self, url: &str) -> (r: String)
        ensures
            r@ == self.cache_dir() + seq!['/'] + hex_text(url_hash(url@) as nat) + seq!['.'] + cache_extension(url@),
    {
        let mut v = chars_of(self.cache_dir.as_str());
        v.push('/');
        append_chars(&mut v, &chars_of(self.generate_cache_filename(url).as_str()));
        string_from_chars(&v)
    }

    /// Generates a cache filename from a URL: its hash in hexadecimal and its
    /// extension.
    pub fn generate_cache_filename(&self, url: &str) -> (r: String)
        ensures
            r@ == hex_text(url_hash(url@) as nat) + seq!['.'] + cache_extension(url@),
    {
        let hash = hash_url(url);
        let chars = chars_of(url);
        let pieces = split_chars(&chars, '?');
        proof { crate::text::lemma_split_nonempty(chars@, '?'); }
        let path = &pieces[0];
        let segments = split_chars(path, '/');
        proof { crate::text::lemma_split_nonempty(path@, '/'); }
        let segment = &segments[segments.len() - 1];
        let parts = split_chars(segment, '.');
        proof { crate::text::lemma_split_nonempty(segment@, '.'); }
        let ext = &parts[parts.len() - 1];
        let mut out = hex_chars(hash);
        out.push('.');
        if ext.len() <= 4 {
            let bytes = utf8_length(ext);
            if bytes <= 4 {
                append_chars(&mut out, ext);
            } else {
                append_chars(&mut out, &chars_of("jpg"));
            }
        } else {
            proof { lemma_utf8_len_at_least(ext@); }
            append_chars(&mut out, &chars_of("jpg"));
        }
        string_from_chars(&out)
    }

    /// Checks if an image is cached: the cache has an entry for the URL and its
    /// file exists (as the file system answers).
    pub fn is_cached(&self, url: &str) -> (r: bool)
        ensures
            r ==> self.entries().contains_key(url@),
    {
        proof { use_type_invariant(&*self); }
        match self.cache_map.get(url) {
            Some(entry) => path_exists(entry.file_path.as_str()),
            None => false,
        }
    }

    /// Gets the current cache size in bytes
    pub fn get_cache_size(&self) -> (r: u64)
        ensures
            r == self.cache_size(),
    {
        self.current_cache_size
    }

    /// Records an image written to `file_path` for a URL at `now`: the entry for
    /// the URL is replaced, and the size counted on top.
    pub fn add_entry_at(&mut self, url: String, file_path: String, file_size: u64, now: u64)
        requires
            old(self).cache_size() + file_size <= u64::MAX,
        ensures
            final(self).entries() == old(self).entries().insert(
                url@,
                CachedImage { file_path, url, file_size, cached_at: now },
            ),
            final(self).cache_size() == old(self).cache_size() + file_size,
            final(self).max_cache_size() == old(self).max_cache_size(),
            final(self).cache_dir() == old(self).cache_dir(),
    {
        proof { use_type_invariant(&*self); }
        let key = url.clone();
        let entry = CachedImage { file_path, url, file_size, cached_at: now };
        let mut t = KeyedList::new();
        std::mem::swap(&mut t, &mut self.cache_map);
        t.insert(key, entry);
        self.current_cache_size = self.current_cache_size + file_size;
        self.cache_map = t;
    }

    /// Makes room for `needed` more bytes: evicts the oldest entries (ties in the
    /// order they were cached) until the cache fits its limit, or all of them.
    /// Returns the files of the evicted entries, to be deleted.
    pub fn make_room(&mut self, needed: u64) -> (r: Vec<String>)
        requires
            old(self).cache_size() + needed <= u64::MAX,
        ensures
            ({
                let sorted = sort_by_key(old(self).entry_list(), age_key());
                let (k, size) = eviction(sorted, old(self).cache_size(), needed, old(self).max_cache_size());
                &&& k <= sorted.len()
                &&& r@.len() == k
                &&& forall|i: int| 0 <= i < k ==> (#[trigger] r@[i]) == sorted[i].file_path
                &&& final(self).cache_size() == size
                &&& forall|u: Seq<char>| #[trigger] final(self).entries().contains_key(u) <==> old(self).entries().contains_key(u)
                    && !evicted_url(sorted, k as int, u)
                &&& forall|u: Seq<char>| #[trigger] final(self).entries().contains_key(u) ==> final(self).entries()[u]
                    == old(self).entries()[u]
            }),
            final(self).max_cache_size() == old(self).max_cache_size(),
            final(self).cache_dir() == old(self).cache_dir(),
    {
        proof { use_type_invariant(&*self); }
        let sorted = self.oldest_first();
        let ghost sv = image_refs(sorted@);
        let current = self.current_cache_size;
        let max = self.max_cache_size;
        let mut files: Vec<String> = Vec::new();
        let mut urls: Vec<String> = Vec::new();
        let mut cur = current;
        let mut k: usize = 0;
        let mut done = false;
        assert(sv.skip(0) =~= sv);
        while k < sorted.len() && !done
            invariant
                sv == image_refs(sorted@),
                current + needed <= u64::MAX,
                k <= sv.len(),
                cur <= current,
                files@.len() == k,
                urls@.len() == k,
                forall|i: int| 0 <= i < k ==> (#[trigger] files@[i]) == sv[i].file_path,
                forall|i: int| 0 <= i < k ==> (#[trigger] urls@[i]) == sv[i].url,
                eviction(sv, current, needed, max) == if done {
                    (k as nat, cur)
                } else {
                    let rest = eviction(sv.skip(k as int), cur, needed, max);
                    ((rest.0 + k) as nat, rest.1)
                },
            decreases sv.len() - k, if done { 0int } else { 1int },
        {
            if cur + needed <= max {
                done = true;
            } else {
                let entry = sorted[k];
                assert(sv[k as int] == *entry);
                assert(sv.skip(k as int)[0] == *entry);
                assert(sv.skip(k as int).drop_first() =~= sv.skip(k + 1));
                files.push(entry.file_path.clone());
                urls.push(entry.url.clone());
                cur = if cur >= entry.file_size { cur - entry.file_size } else { 0 };
                k = k + 1;
            }
        }
        proof {
            if !done {
                assert(sv.skip(k as int) =~= Seq::<CachedImage>::empty());
            }
        }
        let ghost start = self.entries();
        let mut t = KeyedList::new();
        std::mem::swap(&mut t, &mut self.cache_map);
        let mut i: usize = 0;
        while i < urls.len()
            invariant
                i <= urls@.len(),
                t.wf(),
                forall|u: Seq<char>| #[trigger] t@.contains_key(u) <==> start.contains_key(u) && !(exists|j: int| 0 <= j < i
                    && #[trigger] urls@[j]@ == u),
                forall|u: Seq<char>| #[trigger] t@.contains_key(u) ==> t@[u] == start[u],
            decreases urls.len() - i,
        {
            let ghost before = t@;
            t.remove(urls[i].as_str());
            assert forall|u: Seq<char>| #[trigger] t@.contains_key(u) <==> start.contains_key(u) && !(exists|j: int| 0 <= j < i + 1
                && #[trigger] urls@[j]@ == u) by {
                if exists|j: int| 0 <= j < i + 1 && #[trigger] urls@[j]@ == u {
                    let j = choose|j: int| 0 <= j < i + 1 && #[trigger] urls@[j]@ == u;
                    if j < i {
                        assert(!before.contains_key(u));
                    }
                }
            }
            i = i + 1;
        }
        proof {
            assert forall|u: Seq<char>| (exists|j: int| 0 <= j < k && #[trigger] urls@[j]@ == u) <==> evicted_url(sv, k as int, u) by {
                if exists|j: int| 0 <= j < k && #[trigger] urls@[j]@ == u {
                    let j = choose|j: int| 0 <= j < k && #[trigger] urls@[j]@ == u;
                    assert(urls@[j] == sv[j].url);
                }
                if evicted_url(sv, k as int, u) {
                    let j = choose|j: int| 0 <= j < k && #[trigger] sv[j].url@ == u;
                    assert(urls@[j] == sv[j].url);
                }
            }
        }
        self.current_cache_size = cur;
        self.cache_map = t;
        files
    }

    /// The cached images, oldest first (ties in the order they were cached).
    fn oldest_first(&self) -> (r: Vec<&CachedImage>)
        ensures
            image_refs(r@) == sort_by_key(self.entry_list(), age_key()),
    {
        proof { use_type_invariant(&*self); }
        let ghost all = self.entry_list();
        let ghost key = age_key();
        let entries = self.cache_map.as_slice();
        let mut out: Vec<&CachedImage> = Vec::new();
        let mut k: usize = 0;
        while k < entries.len()
            invariant
                k <= entries@.len(),
                entries@ == self.cache_map.entries(),
                all == self.entry_list(),
                all.len() == entries@.len(),
                key == age_key(),
                image_refs(out@) == sort_by_key(all.take(k as int), key),
            decreases entries.len() - k,
        {
            let x = &entries[k].1;
            assert(all[k as int] == *x);
            let mut j: usize = 0;
            while j < out.len() && out[j].cached_at <= x.cached_at
                invariant
                    j <= out@.len(),
                    key == age_key(),
                    forall|m: int| 0 <= m < j ==> key(#[trigger] image_refs(out@)[m]) <= key(*x),
                decreases out.len() - j,
            {
                j = j + 1;
            }
            let ghost before = image_refs(out@);
            proof { lemma_insert_sorted_at(before, *x, key, j as int); }
            out.insert(j, x);
            assert(image_refs(out@) =~= before.insert(j as int, *x));
            assert(all.take(k + 1).drop_last() =~= all.take(k as int));
            k = k + 1;
        }
        assert(all.take(k as int) =~= all);
        out
    }

    /// Clears all entries; returns the files they cached, to be deleted.
    pub fn clear_entries(&mut self) -> (r: Vec<String>)
        ensures
            r@ == entry_files(old(self).entry_list()),
            final(self).entries() == Map::<Seq<char>, CachedImage>::empty(),
            final(self).cache_size() == 0,
            final(self).max_cache_size() == old(self).max_cache_size(),
            final(self).cache_dir() == old(self).cache_dir(),
    {
        let r = self.cached_files();
        self.cache_map = KeyedList::new();
        self.current_cache_size = 0;
        assert(self.entry_list() =~= Seq::<CachedImage>::empty());
        r
    }

    /// The files of the entries, in the order they were cached.
    pub fn cached_files(&self) -> (r: Vec<String>)
        ensures
            r@ == entry_files(self.entry_list()),
    {
        proof { use_type_invariant(&*self); }
        let entries = self.cache_map.as_slice();
        let mut r: Vec<String> = Vec::new();
        let mut i: usize = 0;
        while i < entries.len()
            invariant
                i <= entries@.len(),
                entries@ == self.cache_map.entries(),
                r@ == entry_files(self.entry_list().take(i as int)),
            decreases entries.len() - i,
        {
            r.push(entries[i].1.file_path.clone());
            i = i + 1;
            assert(entry_files(self.entry_list().take(i as int)) =~= entry_files(self.entry_list().take((i - 1) as int)).push(
                entries@[i - 1].1.file_path,
            ));
        }
        assert(self.entry_list().take(i as int) =~= self.entry_list());
        r
    }

    /// Gets cache statistics
    pub fn get_stats(&self) -> (r: CacheStats)
        ensures
            r.total_entries == self.entries().len(),
            r.total_size_bytes == self.cache_size(),
            r.max_size_bytes == self.max_cache_size(),
    {
        proof { use_type_invariant(&*self); }
        CacheStats {
            total_entries: self.cache_map.len(),
            total_size_bytes: self.current_cache_size,
            max_size_bytes: self.max_cache_size,
        }
    }
}

/// The files of the entries.
pub open spec fn entry_files(s: Seq<CachedImage>) -> Seq<String> {
    s.map_values(|c: CachedImage| c.file_path)
}

/// The images that a list of references points at.
pub open spec fn image_refs(s: Seq<&CachedImage>) -> Seq<CachedImage> {
    s.map_values(|x: &CachedImage| *x)
}

/// `u` is the URL of one of the first `k` entries.
pub open spec fn evicted_url(sorted: Seq<CachedImage>, k: int, u: Seq<char>) -> bool {
    exists|j: int| 0 <= j < k && #[trigger] sorted[j].url@ == u
}

/// Making room either makes the new bytes fit under the limit or evicts every
/// entry, and it evicts no more entries than there are.
pub proof fn lemma_eviction_fits(oldest_first: Seq<CachedImage>, current: u64, needed: u64, max: u64)
    ensures
        ({
            let (k, size) = eviction(oldest_first, current, needed, max);
            &&& k <= oldest_first.len()
            &&& size + needed <= max || k == oldest_first.len()
        }),
    decreases oldest_first.len(),
{
    if !(current + needed <= max || oldest_first.len() == 0) {
        lemma_eviction_fits(
            oldest_first.drop_first(),
            sat_sub(current, oldest_first[0].file_size),
            needed,
            max,
        );
    }
}

} // verus!
