//! Favorites, ratings, history and collections of the user.
//!
//! The state lives in memory here; writing it to disk after a change, and reading
//! it back, is done by the program around the library. Timestamps are seconds
//! since the Unix epoch.
use vstd::prelude::*;
use crate::keyed::{
    KeyedList, contains_string, entries_map, has_string, lemma_without_string_len, strings_distinct,
    ref_texts, without_string, without_text,
};
use crate::text::str_equal;

verus! {

/// A history entry for asset installation/update/removal
#[derive(Debug, Clone)]
pub struct HistoryEntry {
    /// Asset ID
    pub asset_id: String,
    /// Action performed (Install, Update, Uninstall)
    pub action: HistoryAction,
    /// Timestamp (Unix epoch seconds)
    pub timestamp: u64,
    /// Asset version at the time
    pub version: String,
    /// Optional notes
    pub notes: Option<String>,
}

/// Actions that can be recorded in history
#[derive(Debug, Clone, Copy, PartialEq, Eq, Structural)]
pub enum HistoryAction {
    Install,
    Update,
    Uninstall,
    Download,
}

/// The name of an action.
pub open spec fn action_name(a: HistoryAction) -> Seq<char> {
    match a {
        HistoryAction::Install => "Install"@,
        HistoryAction::Update => "Update"@,
        HistoryAction::Uninstall => "Uninstall"@,
        HistoryAction::Download => "Download"@,
    }
}

impl HistoryAction {
    /// The name of the action.
    pub fn as_str(&self) -> (r: &str)
        ensures
            r@ == action_name(*self),
    {
        match self {
            HistoryAction::Install => "Install",
            HistoryAction::Update => "Update",
            HistoryAction::Uninstall => "Uninstall",
            HistoryAction::Download => "Download",
        }
    }
}

/// A collection/bundle of assets
#[derive(Debug, Clone)]
pub struct AssetCollection {
    /// Collection name
    pub name: String,
    /// Description
    pub description: String,
    /// Asset IDs in this collection
    pub assets: Vec<String>,
    /// When this collection was created
    pub created_at: u64,
    /// When this collection was last modified
    pub modified_at: u64,
}

/// User preferences and features for asset management
pub struct UserFeatures {
    /// Favorite/bookmarked asset IDs
    favorites: KeyedList<()>,
    /// Asset ratings (asset_id -> rating 1-5)
    ratings: KeyedList<u8>,
    /// Installation history with timestamps
    history: Vec<HistoryEntry>,
    /// User-created collections/bundles
    collections: KeyedList<AssetCollection>,
    /// Path to store user features data
    data_file: String,
}

/// User statistics. The average rating is `rating_sum / total_ratings` (0 when
/// nothing is rated).
#[derive(Debug, Clone)]
pub struct UserStatistics {
    pub total_favorites: usize,
    pub total_ratings: usize,
    pub total_history_entries: usize,
    pub total_collections: usize,
    pub rating_sum: u128,
}

/// The entries of a list of references.
pub open spec fn derefs(s: Seq<&HistoryEntry>) -> Seq<HistoryEntry> {
    s.map_values(|e: &HistoryEntry| *e)
}

/// "Collection '{id}' not found"
pub open spec fn collection_not_found(id: Seq<char>) -> Seq<char> {
    "Collection '"@ + id + "' not found"@
}

/// "Collection '{id}' already exists"
pub open spec fn collection_exists(id: Seq<char>) -> Seq<char> {
    "Collection '"@ + id + "' already exists"@
}

/// "Asset '{id}' already in collection"
pub open spec fn asset_already_in(id: Seq<char>) -> Seq<char> {
    "Asset '"@ + id + "' already in collection"@
}

/// "Asset '{id}' not in collection"
pub open spec fn asset_not_in(id: Seq<char>) -> Seq<char> {
    "Asset '"@ + id + "' not in collection"@
}

/// The given text, or `current` when none is given.
pub open spec fn or_keep(given: Option<String>, current: String) -> String {
    match given {
        Some(t) => t,
        None => current,
    }
}

/// The sum of the ratings.
pub open spec fn rating_total(s: Seq<(String, u8)>) -> int
    decreases s.len(),
{
    if s.len() == 0 {
        0
    } else {
        rating_total(s.drop_last()) + s.last().1
    }
}

/// `c` is a new, empty collection with that name and description, stamped `t`.
pub open spec fn fresh_collection(c: AssetCollection, name: String, description: String, t: u64) -> bool {
    &&& c.name == name
    &&& c.description == description
    &&& c.assets@.len() == 0
    &&& c.created_at == t
    &&& c.modified_at == t
}

/// `c` is `before` with other assets, name or description, modified at `t`.
pub open spec fn changed_collection(
    c: AssetCollection,
    before: AssetCollection,
    name: String,
    description: String,
    assets: Seq<String>,
    t: u64,
) -> bool {
    &&& c.name == name
    &&& c.description == description
    &&& c.assets@ == assets
    &&& c.created_at == before.created_at
    &&& c.modified_at == t
}

impl UserFeatures {
    #[verifier::type_invariant]
    spec fn inv(self) -> bool {
        &&& self.favorites.wf()
        &&& self.ratings.wf()
        &&& self.collections.wf()
    }

    /// The favorite asset IDs.
    pub closed spec fn favorites(self) -> Set<Seq<char>> {
        self.favorites@.dom()
    }

    /// The ratings by asset ID.
    pub closed spec fn ratings(self) -> Map<Seq<char>, u8> {
        self.ratings@
    }

    /// The ratings in the order they were first given.
    pub closed spec fn rating_entries(self) -> Seq<(String, u8)> {
        self.ratings.entries()
    }

    /// The history, oldest first.
    pub closed spec fn history(self) -> Seq<HistoryEntry> {
        self.history@
    }

    /// The collections by ID.
    pub closed spec fn collections(self) -> Map<Seq<char>, AssetCollection> {
        self.collections@
    }

    /// Where the data is kept.
    pub closed spec fn data_file(self) -> Seq<char> {
        self.data_file@
    }

    /// Creates a new UserFeatures instance
    pub fn new(data_file: String) -> (r: Self)
        ensures
            r.favorites() == Set::<Seq<char>>::empty(),
            r.ratings() == Map::<Seq<char>, u8>::empty(),
            r.history() == Seq::<HistoryEntry>::empty(),
            r.collections() == Map::<Seq<char>, AssetCollection>::empty(),
            r.data_file() == data_file@,
    {
        let r = Self {
            favorites: KeyedList::new(),
            ratings: KeyedList::new(),
            history: Vec::new(),
            collections: KeyedList::new(),
            data_file,
        };
        assert(r.favorites() =~= Set::<Seq<char>>::empty());
        r
    }

    /// The path of the data file.
    pub fn data_file_path(&self) -> (r: &str)
        ensures
            r@ == self.data_file(),
    {
        proof { use_type_invariant(&*self); }
        self.data_file.as_str()
    }

    // ===== Favorites Management =====

    /// Add an asset to favorites; true when it was not one yet.
    pub fn add_favorite(&mut self, asset_id: String) -> (r: bool)
        ensures
            r == !old(self).favorites().contains(asset_id@),
            final(self).favorites() == old(self).favorites().insert(asset_id@),
            final(self).ratings() == old(self).ratings(),
            final(self).rating_entries() == old(self).rating_entries(),
            final(self).history() == old(self).history(),
            final(self).collections() == old(self).collections(),
            final(self).data_file() == old(self).data_file(),
    {
        proof { use_type_invariant(&*self); }
        let present = self.favorites.contains_key(asset_id.as_str());
        if !present {
            let mut t = KeyedList::new();
            std::mem::swap(&mut t, &mut self.favorites);
            t.insert(asset_id, ());
            self.favorites = t;
        }
        assert(self.favorites() =~= old(self).favorites().insert(asset_id@));
        !present
    }

    /// Remove an asset from favorites; true when it was one.
    pub fn remove_favorite(&mut self, asset_id: &str) -> (r: bool)
        ensures
            r == old(self).favorites().contains(asset_id@),
            final(self).favorites() == old(self).favorites().remove(asset_id@),
            final(self).ratings() == old(self).ratings(),
            final(self).rating_entries() == old(self).rating_entries(),
            final(self).history() == old(self).history(),
            final(self).collections() == old(self).collections(),
            final(self).data_file() == old(self).data_file(),
    {
        proof { use_type_invariant(&*self); }
        let mut t = KeyedList::new();
        std::mem::swap(&mut t, &mut self.favorites);
        let removed = t.remove(asset_id);
        self.favorites = t;
        assert(self.favorites() =~= old(self).favorites().remove(asset_id@));
        match removed {
            Some(_) => true,
            None => false,
        }
    }

    /// Check if an asset is favorited
    pub fn is_favorite(&self, asset_id: &str) -> (r: bool)
        ensures
            r == self.favorites().contains(asset_id@),
    {
        proof { use_type_invariant(&*self); }
        self.favorites.contains_key(asset_id)
    }

    /// Get all favorite asset IDs, each once.
    pub fn get_favorites(&self) -> (r: Vec<String>)
        ensures
            strings_distinct(r@),
            forall|k: Seq<char>| #[trigger] has_string(r@, k) <==> self.favorites().contains(k),
    {
        proof { use_type_invariant(&*self); }
        self.favorites.keys()
    }

    /// Toggle favorite status; returns whether the asset is a favorite now.
    pub fn toggle_favorite(&mut self, asset_id: String) -> (r: bool)
        ensures
            r == !old(self).favorites().contains(asset_id@),
            final(self).favorites() == if r {
                old(self).favorites().insert(asset_id@)
            } else {
                old(self).favorites().remove(asset_id@)
            },
            final(self).ratings() == old(self).ratings(),
            final(self).rating_entries() == old(self).rating_entries(),
            final(self).history() == old(self).history(),
            final(self).collections() == old(self).collections(),
            final(self).data_file() == old(self).data_file(),
    {
        proof { use_type_invariant(&*self); }
        if self.is_favorite(asset_id.as_str()) {
            self.remove_favorite(asset_id.as_str());
            false
        } else {
            self.add_favorite(asset_id);
            true
        }
    }

    // ===== Ratings Management =====

    /// Set a rating for an asset (1-5 stars)
    pub fn set_rating(&mut self, asset_id: String, rating: u8) -> (r: Result<(), String>)
        ensures
            r is Ok <==> 1 <= rating <= 5,
            r is Ok ==> final(self).ratings() == old(self).ratings().insert(asset_id@, rating),
            r matches Err(e) ==> e@ == "Rating must be between 1 and 5"@ && final(self).ratings() == old(self).ratings(),
            final(self).favorites() == old(self).favorites(),
            final(self).history() == old(self).history(),
            final(self).collections() == old(self).collections(),
            final(self).data_file() == old(self).data_file(),
    {
        proof { use_type_invariant(&*self); }
        if rating < 1 || rating > 5 {
            return Err("Rating must be between 1 and 5".to_string());
        }
        let mut t = KeyedList::new();
        std::mem::swap(&mut t, &mut self.ratings);
        t.insert(asset_id, rating);
        self.ratings = t;
        Ok(())
    }

    /// Get the rating for an asset
    pub fn get_rating(&self, asset_id: &str) -> (r: Option<u8>)
        ensures
            r == if self.ratings().contains_key(asset_id@) {
                Some(self.ratings()[asset_id@])
            } else {
                None::<u8>
            },
    {
        proof { use_type_invariant(&*self); }
        match self.ratings.get(asset_id) {
            Some(v) => Some(*v),
            None => None,
        }
    }

    /// Remove a rating; true when there was one.
    pub fn remove_rating(&mut self, asset_id: &str) -> (r: bool)
        ensures
            r == old(self).ratings().contains_key(asset_id@),
            final(self).ratings() == old(self).ratings().remove(asset_id@),
            final(self).favorites() == old(self).favorites(),
            final(self).history() == old(self).history(),
            final(self).collections() == old(self).collections(),
            final(self).data_file() == old(self).data_file(),
    {
        proof { use_type_invariant(&*self); }
        let mut t = KeyedList::new();
        std::mem::swap(&mut t, &mut self.ratings);
        let removed = t.remove(asset_id);
        self.ratings = t;
        match removed {
            Some(_) => true,
            None => false,
        }
    }

    /// Get all rated assets with their ratings, each asset once.
    pub fn get_rated_assets(&self) -> (r: Vec<(String, u8)>)
        ensures
            r@.len() == self.ratings().len(),
            forall|i: int, j: int| 0 <= i < r@.len() && 0 <= j < r@.len() && i != j ==> #[trigger] r@[i].0@ != #[trigger] r@[j].0@,
            forall|i: int| 0 <= i < r@.len() ==> self.ratings().contains_key(#[trigger] r@[i].0@) && self.ratings()[r@[i].0@] == r@[i].1,
            forall|k: Seq<char>| #[trigger] self.ratings().contains_key(k) ==> exists|i: int| 0 <= i < r@.len() && r@[i].0@ == k,
    {
        proof { use_type_invariant(&*self); }
        let n = self.ratings.len();
        let mut r: Vec<(String, u8)> = Vec::new();
        let mut i: usize = 0;
        while i < n
            invariant
                n == self.ratings.entries().len(),
                self.ratings.wf(),
                n == self.ratings().len(),
                i <= n,
                r@.len() == i,
                forall|j: int| 0 <= j < i ==> #[trigger] r@[j] == self.ratings.entries()[j],
            decreases n - i,
        {
            let k = self.ratings.key_at(i).clone();
            let v = *self.ratings.value_at(i);
            r.push((k, v));
            i = i + 1;
        }
        proof {
            let e = self.ratings.entries();
            crate::keyed::lemma_entries_map(e);
            assert forall|k: Seq<char>| #[trigger] self.ratings().contains_key(k) implies exists|i: int| 0 <= i < r@.len() && r@[i].0@ == k by {
                let m = choose|m: int| 0 <= m < e.len() && e[m].0@ == k;
                assert(r@[m] == e[m]);
            }
            assert forall|i: int| 0 <= i < r@.len() implies self.ratings().contains_key(#[trigger] r@[i].0@) && self.ratings()[r@[i].0@] == r@[i].1 by {
                assert(r@[i] == e[i]);
            }
            assert forall|i: int, j: int| 0 <= i < r@.len() && 0 <= j < r@.len() && i != j implies #[trigger] r@[i].0@ != #[trigger] r@[j].0@ by {
                assert(r@[i] == e[i] && r@[j] == e[j]);
            }
        }
        r
    }

    // ===== History Management =====

    /// Add an entry to the history, stamped with the clock.
    pub fn add_history(&mut self, asset_id: String, action: HistoryAction, version: String)
        ensures
            final(self).history().len() == old(self).history().len() + 1,
            final(self).history().drop_last() == old(self).history(),
            final(self).history().last().asset_id == asset_id,
            final(self).history().last().action == action,
            final(self).history().last().version == version,
            final(self).history().last().notes is None,
            final(self).favorites() == old(self).favorites(),
            final(self).ratings() == old(self).ratings(),
            final(self).rating_entries() == old(self).rating_entries(),
            final(self).collections() == old(self).collections(),
            final(self).data_file() == old(self).data_file(),
    {
        proof { use_type_invariant(&*self); }
        self.add_history_with_notes(asset_id, action, version, None);
    }

    /// Add an entry to the history with notes, stamped with the clock.
    pub fn add_history_with_notes(
        &mut self,
        asset_id: String,
        action: HistoryAction,
        version: String,
        notes: Option<String>,
    )
        ensures
            final(self).history().len() == old(self).history().len() + 1,
            final(self).history().drop_last() == old(self).history(),
            final(self).history().last().asset_id == asset_id,
            final(self).history().last().action == action,
            final(self).history().last().version == version,
            final(self).history().last().notes == notes,
            final(self).favorites() == old(self).favorites(),
            final(self).ratings() == old(self).ratings(),
            final(self).rating_entries() == old(self).rating_entries(),
            final(self).collections() == old(self).collections(),
            final(self).data_file() == old(self).data_file(),
    {
        proof { use_type_invariant(&*self); }
        let now = crate::clock::now_millis() / 1000;
        self.add_history_entry_at(asset_id, action, version, notes, now);
    }

    /// Add an entry to the history with notes, stamped `timestamp`.
    pub fn add_history_entry_at(
        &mut self,
        asset_id: String,
        action: HistoryAction,
        version: String,
        notes: Option<String>,
        timestamp: u64,
    )
        ensures
            final(self).history() == old(self).history().push(
                HistoryEntry { asset_id, action, timestamp, version, notes },
            ),
            final(self).favorites() == old(self).favorites(),
            final(self).ratings() == old(self).ratings(),
            final(self).rating_entries() == old(self).rating_entries(),
            final(self).collections() == old(self).collections(),
            final(self).data_file() == old(self).data_file(),
    {
        proof { use_type_invariant(&*self); }
        let entry = HistoryEntry { asset_id, action, timestamp, version, notes };
        let mut t = Vec::new();
        std::mem::swap(&mut t, &mut self.history);
        t.push(entry);
        self.history = t;
    }

    /// Get all history entries
    pub fn get_history(&self) -> (r: &[HistoryEntry])
        ensures
            r@ == self.history(),
    {
        proof { use_type_invariant(&*self); }
        self.history.as_slice()
    }

    /// Get history entries for a specific asset, oldest first.
    pub fn get_asset_history(&self, asset_id: &str) -> (r: Vec<&HistoryEntry>)
        ensures
            derefs(r@) == self.history().filter(|e: HistoryEntry| e.asset_id@ == asset_id@),
    {
        proof { use_type_invariant(&*self); }
        let ghost p = |e: HistoryEntry| e.asset_id@ == asset_id@;
        let mut r: Vec<&HistoryEntry> = Vec::new();
        let mut i: usize = 0;
        while i < self.history.len()
            invariant
                i <= self.history@.len(),
                p == (|e: HistoryEntry| e.asset_id@ == asset_id@),
                derefs(r@) == self.history@.take(i as int).filter(p),
            decreases self.history.len() - i,
        {
            let e = &self.history[i];
            proof { crate::seqs::lemma_filter_step(self.history@, p, i as int); }
            if str_equal(e.asset_id.as_str(), asset_id) {
                r.push(e);
            }
            assert(derefs(r@) =~= self.history@.take(i + 1).filter(p));
            i = i + 1;
        }
        assert(self.history@.take(i as int) =~= self.history@);
        r
    }

    /// Get history entries by action type, oldest first.
    pub fn get_history_by_action(&self, action: HistoryAction) -> (r: Vec<&HistoryEntry>)
        ensures
            derefs(r@) == self.history().filter(|e: HistoryEntry| e.action == action),
    {
        proof { use_type_invariant(&*self); }
        let ghost p = |e: HistoryEntry| e.action == action;
        let mut r: Vec<&HistoryEntry> = Vec::new();
        let mut i: usize = 0;
        while i < self.history.len()
            invariant
                i <= self.history@.len(),
                p == (|e: HistoryEntry| e.action == action),
                derefs(r@) == self.history@.take(i as int).filter(p),
            decreases self.history.len() - i,
        {
            let e = &self.history[i];
            proof { crate::seqs::lemma_filter_step(self.history@, p, i as int); }
            if e.action == action {
                r.push(e);
            }
            assert(derefs(r@) =~= self.history@.take(i + 1).filter(p));
            i = i + 1;
        }
        assert(self.history@.take(i as int) =~= self.history@);
        r
    }

    /// Get recent history entries (the last `count`, or all when there are fewer),
    /// oldest first.
    pub fn get_recent_history(&self, count: usize) -> (r: Vec<&HistoryEntry>)
        ensures
            derefs(r@) == if count >= self.history().len() {
                self.history()
            } else {
                self.history().subrange(self.history().len() - count, self.history().len() as int)
            },
    {
        proof { use_type_invariant(&*self); }
        let len = self.history.len();
        let start: usize = if count >= len { 0 } else { len - count };
        let mut r: Vec<&HistoryEntry> = Vec::new();
        let mut i: usize = start;
        while i < len
            invariant
                start <= i <= len,
                len == self.history@.len(),
                derefs(r@) == self.history@.subrange(start as int, i as int),
            decreases len - i,
        {
            let ghost before = r@;
            let e = &self.history[i];
            r.push(e);
            assert(derefs(r@) =~= derefs(before).push(*e));
            assert(derefs(r@) =~= self.history@.subrange(start as int, i + 1));
            i = i + 1;
        }
        assert(self.history@.subrange(0, len as int) =~= self.history@);
        r
    }

    /// Clear all history
    pub fn clear_history(&mut self)
        ensures
            final(self).history() == Seq::<HistoryEntry>::empty(),
            final(self).favorites() == old(self).favorites(),
            final(self).ratings() == old(self).ratings(),
            final(self).rating_entries() == old(self).rating_entries(),
            final(self).collections() == old(self).collections(),
            final(self).data_file() == old(self).data_file(),
    {
        proof { use_type_invariant(&*self); }
        let mut t = Vec::new();
        std::mem::swap(&mut t, &mut self.history);
        t.clear();
        self.history = t;
    }

    /// Clear history for a specific asset
    pub fn clear_asset_history(&mut self, asset_id: &str)
        ensures
            final(self).history() == old(self).history().filter(|e: HistoryEntry| e.asset_id@ != asset_id@),
            final(self).favorites() == old(self).favorites(),
            final(self).ratings() == old(self).ratings(),
            final(self).rating_entries() == old(self).rating_entries(),
            final(self).collections() == old(self).collections(),
            final(self).data_file() == old(self).data_file(),
    {
        proof { use_type_invariant(&*self); }
        let ghost p = |e: HistoryEntry| e.asset_id@ != asset_id@;
        let mut old_history: Vec<HistoryEntry> = Vec::new();
        std::mem::swap(&mut old_history, &mut self.history);
        let ghost h = old_history@;
        let mut kept: Vec<HistoryEntry> = Vec::new();
        while old_history.len() > 0
            invariant
                p == (|e: HistoryEntry| e.asset_id@ != asset_id@),
                h == old(self).history@,
                old_history@.len() <= h.len(),
                old_history@ == h.subrange(h.len() - old_history@.len(), h.len() as int),
                kept@ == h.take(h.len() - old_history@.len()).filter(p),
            decreases old_history.len(),
        {
            let ghost i: int = h.len() - old_history@.len();
            let e = old_history.remove(0);
            assert(e == h[i]);
            proof { crate::seqs::lemma_filter_step(h, p, i); }
            if !str_equal(e.asset_id.as_str(), asset_id) {
                kept.push(e);
            }
            assert(old_history@ =~= h.subrange(h.len() - old_history@.len(), h.len() as int));
            assert(kept@ =~= h.take(i + 1).filter(p));
        }
        assert(h.take(h.len() as int) =~= h);
        self.history = kept;
    }

    // ===== Collections Management =====

    /// Everything but the collections is as in `other`.
    pub open spec fn keeps_all_but_collections(self, other: Self) -> bool {
        &&& self.favorites() == other.favorites()
        &&& self.ratings() == other.ratings()
        &&& self.rating_entries() == other.rating_entries()
        &&& self.history() == other.history()
        &&& self.data_file() == other.data_file()
    }

    /// Create a new collection, stamped with the clock.
    pub fn create_collection(&mut self, id: String, name: String, description: String) -> (r: Result<(), String>)
        ensures
            r is Ok <==> !old(self).collections().contains_key(id@),
            r matches Err(e) ==> e@ == collection_exists(id@) && final(self).collections() == old(self).collections(),
            r is Ok ==> final(self).collections().contains_key(id@) && final(self).collections().remove(id@)
                == old(self).collections() && exists|t: u64| #[trigger]
                fresh_collection(final(self).collections()[id@], name, description, t),
            final(self).keeps_all_but_collections(*old(self)),
    {
        proof { use_type_invariant(&*self); }
        let now = crate::clock::now_millis() / 1000;
        self.create_collection_at(id, name, description, now)
    }

    /// Create a new collection stamped `now`.
    pub fn create_collection_at(&mut self, id: String, name: String, description: String, now: u64) -> (r: Result<(), String>)
        ensures
            r is Ok <==> !old(self).collections().contains_key(id@),
            r matches Err(e) ==> e@ == collection_exists(id@) && final(self).collections() == old(self).collections(),
            r is Ok ==> final(self).collections().contains_key(id@) && final(self).collections().remove(id@)
                == old(self).collections() && fresh_collection(final(self).collections()[id@], name, description, now),
            final(self).keeps_all_but_collections(*old(self)),
    {
        proof { use_type_invariant(&*self); }
        if self.collections.contains_key(id.as_str()) {
            return Err(quoted("Collection '", id.as_str(), "' already exists"));
        }
        let c = AssetCollection { name, description, assets: Vec::new(), created_at: now, modified_at: now };
        let ghost key = id@;
        let mut t = KeyedList::new();
        std::mem::swap(&mut t, &mut self.collections);
        t.insert(id, c);
        self.collections = t;
        assert(self.collections().remove(key) =~= old(self).collections());
        Ok(())
    }

    /// Delete a collection
    pub fn delete_collection(&mut self, collection_id: &str) -> (r: Result<(), String>)
        ensures
            r is Ok <==> old(self).collections().contains_key(collection_id@),
            r matches Err(e) ==> e@ == collection_not_found(collection_id@),
            final(self).collections() == old(self).collections().remove(collection_id@),
            final(self).keeps_all_but_collections(*old(self)),
    {
        proof { use_type_invariant(&*self); }
        let mut t = KeyedList::new();
        std::mem::swap(&mut t, &mut self.collections);
        let removed = t.remove(collection_id);
        self.collections = t;
        match removed {
            Some(_) => Ok(()),
            None => Err(quoted("Collection '", collection_id, "' not found")),
        }
    }

    /// Add an asset to a collection, stamped with the clock.
    pub fn add_to_collection(&mut self, collection_id: &str, asset_id: String) -> (r: Result<(), String>)
        ensures
            r is Ok <==> old(self).collections().contains_key(collection_id@) && !has_string(
                old(self).collections()[collection_id@].assets@,
                asset_id@,
            ),
            r matches Err(e) ==> final(self).collections() == old(self).collections() && e@ == if old(
                self,
            ).collections().contains_key(collection_id@) {
                asset_already_in(asset_id@)
            } else {
                collection_not_found(collection_id@)
            },
            r is Ok ==> final(self).collections().contains_key(collection_id@) && final(self).collections().remove(
                collection_id@,
            ) == old(self).collections().remove(collection_id@) && exists|t: u64| #[trigger]
                changed_collection(
                    final(self).collections()[collection_id@],
                    old(self).collections()[collection_id@],
                    old(self).collections()[collection_id@].name,
                    old(self).collections()[collection_id@].description,
                    old(self).collections()[collection_id@].assets@.push(asset_id),
                    t,
                ),
            final(self).keeps_all_but_collections(*old(self)),
    {
        proof { use_type_invariant(&*self); }
        let now = crate::clock::now_millis() / 1000;
        self.add_to_collection_at(collection_id, asset_id, now)
    }

    /// Add an asset to a collection, modified at `now`.
    pub fn add_to_collection_at(&mut self, collection_id: &str, asset_id: String, now: u64) -> (r: Result<(), String>)
        ensures
            r is Ok <==> old(self).collections().contains_key(collection_id@) && !has_string(
                old(self).collections()[collection_id@].assets@,
                asset_id@,
            ),
            r matches Err(e) ==> final(self).collections() == old(self).collections() && e@ == if old(
                self,
            ).collections().contains_key(collection_id@) {
                asset_already_in(asset_id@)
            } else {
                collection_not_found(collection_id@)
            },
            r is Ok ==> final(self).collections().contains_key(collection_id@) && final(self).collections().remove(
                collection_id@,
            ) == old(self).collections().remove(collection_id@) && changed_collection(
                final(self).collections()[collection_id@],
                old(self).collections()[collection_id@],
                old(self).collections()[collection_id@].name,
                old(self).collections()[collection_id@].description,
                old(self).collections()[collection_id@].assets@.push(asset_id),
                now,
            ),
            final(self).keeps_all_but_collections(*old(self)),
    {
        proof { use_type_invariant(&*self); }
        match self.collections.index_of(collection_id) {
            None => Err(quoted("Collection '", collection_id, "' not found")),
            Some(i) => {
                if contains_string(&self.collections.value_at(i).assets, asset_id.as_str()) {
                    return Err(quoted("Asset '", asset_id.as_str(), "' already in collection"));
                }
                let mut t = KeyedList::new();
                std::mem::swap(&mut t, &mut self.collections);
                let (k, mut c) = t.remove_at(i);
                self.collections = t;
                c.assets.push(asset_id);
                c.modified_at = now;
                let mut t = KeyedList::new();
                std::mem::swap(&mut t, &mut self.collections);
                t.insert_at(i, k, c);
                self.collections = t;
                assert(self.collections().remove(collection_id@) =~= old(self).collections().remove(collection_id@));
                Ok(())
            },
        }
    }

    /// Remove an asset from a collection, stamped with the clock.
    pub fn remove_from_collection(&mut self, collection_id: &str, asset_id: &str) -> (r: Result<(), String>)
        ensures
            r is Ok <==> old(self).collections().contains_key(collection_id@) && has_string(
                old(self).collections()[collection_id@].assets@,
                asset_id@,
            ),
            r matches Err(e) ==> final(self).collections() == old(self).collections() && e@ == if old(
                self,
            ).collections().contains_key(collection_id@) {
                asset_not_in(asset_id@)
            } else {
                collection_not_found(collection_id@)
            },
            r is Ok ==> final(self).collections().contains_key(collection_id@) && final(self).collections().remove(
                collection_id@,
            ) == old(self).collections().remove(collection_id@) && exists|t: u64| #[trigger]
                changed_collection(
                    final(self).collections()[collection_id@],
                    old(self).collections()[collection_id@],
                    old(self).collections()[collection_id@].name,
                    old(self).collections()[collection_id@].description,
                    without_text(old(self).collections()[collection_id@].assets@, asset_id@),
                    t,
                ),
            final(self).keeps_all_but_collections(*old(self)),
    {
        proof { use_type_invariant(&*self); }
        let now = crate::clock::now_millis() / 1000;
        self.remove_from_collection_at(collection_id, asset_id, now)
    }

    /// Remove every occurrence of an asset from a collection, modified at `now`.
    pub fn remove_from_collection_at(&mut self, collection_id: &str, asset_id: &str, now: u64) -> (r: Result<(), String>)
        ensures
            r is Ok <==> old(self).collections().contains_key(collection_id@) && has_string(
                old(self).collections()[collection_id@].assets@,
                asset_id@,
            ),
            r matches Err(e) ==> final(self).collections() == old(self).collections() && e@ == if old(
                self,
            ).collections().contains_key(collection_id@) {
                asset_not_in(asset_id@)
            } else {
                collection_not_found(collection_id@)
            },
            r is Ok ==> final(self).collections().contains_key(collection_id@) && final(self).collections().remove(
                collection_id@,
            ) == old(self).collections().remove(collection_id@) && changed_collection(
                final(self).collections()[collection_id@],
                old(self).collections()[collection_id@],
                old(self).collections()[collection_id@].name,
                old(self).collections()[collection_id@].description,
                without_text(old(self).collections()[collection_id@].assets@, asset_id@),
                now,
            ),
            final(self).keeps_all_but_collections(*old(self)),
    {
        proof { use_type_invariant(&*self); }
        match self.collections.index_of(collection_id) {
            None => Err(quoted("Collection '", collection_id, "' not found")),
            Some(i) => {
                let kept = without_string(&self.collections.value_at(i).assets, asset_id);
                proof { lemma_without_string_len(self.collections.entries()[i as int].1.assets@, asset_id@); }
                if kept.len() == self.collections.value_at(i).assets.len() {
                    return Err(quoted("Asset '", asset_id, "' not in collection"));
                }
                let mut t = KeyedList::new();
                std::mem::swap(&mut t, &mut self.collections);
                let (k, mut c) = t.remove_at(i);
                self.collections = t;
                c.assets = kept;
                c.modified_at = now;
                let mut t = KeyedList::new();
                std::mem::swap(&mut t, &mut self.collections);
                t.insert_at(i, k, c);
                self.collections = t;
                assert(self.collections().remove(collection_id@) =~= old(self).collections().remove(collection_id@));
                Ok(())
            },
        }
    }

    /// Get a collection
    pub fn get_collection(&self, collection_id: &str) -> (r: Option<&AssetCollection>)
        ensures
            match r {
                Some(c) => self.collections().contains_key(collection_id@) && *c == self.collections()[collection_id@],
                None => !self.collections().contains_key(collection_id@),
            },
    {
        proof { use_type_invariant(&*self); }
        self.collections.get(collection_id)
    }

    /// Get all collections with their IDs, each once.
    pub fn get_all_collections(&self) -> (r: Vec<(&String, &AssetCollection)>)
        ensures
            r@.len() == self.collections().len(),
            forall|i: int, j: int| 0 <= i < r@.len() && 0 <= j < r@.len() && i != j ==> #[trigger] r@[i].0@ != #[trigger] r@[j].0@,
            forall|i: int| 0 <= i < r@.len() ==> self.collections().contains_key(#[trigger] r@[i].0@) && self.collections()[r@[i].0@] == *r@[i].1,
            forall|k: Seq<char>| #[trigger] self.collections().contains_key(k) ==> exists|i: int| 0 <= i < r@.len() && r@[i].0@ == k,
    {
        proof { use_type_invariant(&*self); }
        let n = self.collections.len();
        let entries = self.collections.as_slice();
        let mut r: Vec<(&String, &AssetCollection)> = Vec::new();
        let mut i: usize = 0;
        while i < n
            invariant
                n == self.collections.entries().len(),
                self.collections.wf(),
                entries@ == self.collections.entries(),
                i <= n,
                r@.len() == i,
                forall|j: int| 0 <= j < i ==> *(#[trigger] r@[j]).0 == self.collections.entries()[j].0 && *r@[j].1 == self.collections.entries()[j].1,
            decreases n - i,
        {
            let e = &entries[i];
            r.push((&e.0, &e.1));
            i = i + 1;
        }
        proof {
            let e = self.collections.entries();
            crate::keyed::lemma_entries_map(e);
            assert forall|k: Seq<char>| #[trigger] self.collections().contains_key(k) implies exists|i: int| 0 <= i < r@.len() && r@[i].0@ == k by {
                let m = choose|m: int| 0 <= m < e.len() && e[m].0@ == k;
                assert(*r@[m].0 == e[m].0);
            }
            assert forall|i: int| 0 <= i < r@.len() implies self.collections().contains_key(#[trigger] r@[i].0@) && self.collections()[r@[i].0@] == *r@[i].1 by {
                assert(*r@[i].0 == e[i].0);
            }
            assert forall|i: int, j: int| 0 <= i < r@.len() && 0 <= j < r@.len() && i != j implies #[trigger] r@[i].0@ != #[trigger] r@[j].0@ by {
                assert(*r@[i].0 == e[i].0 && *r@[j].0 == e[j].0);
            }
        }
        r
    }

    /// Update collection metadata, stamped with the clock.
    pub fn update_collection(
        &mut self,
        collection_id: &str,
        name: Option<String>,
        description: Option<String>,
    ) -> (r: Result<(), String>)
        ensures
            r is Ok <==> old(self).collections().contains_key(collection_id@),
            r matches Err(e) ==> e@ == collection_not_found(collection_id@) && final(self).collections() == old(self).collections(),
            r is Ok ==> final(self).collections().contains_key(collection_id@) && final(self).collections().remove(
                collection_id@,
            ) == old(self).collections().remove(collection_id@) && exists|t: u64| #[trigger]
                changed_collection(
                    final(self).collections()[collection_id@],
                    old(self).collections()[collection_id@],
                    or_keep(name, old(self).collections()[collection_id@].name),
                    or_keep(description, old(self).collections()[collection_id@].description),
                    old(self).collections()[collection_id@].assets@,
                    t,
                ),
            final(self).keeps_all_but_collections(*old(self)),
    {
        proof { use_type_invariant(&*self); }
        let now = crate::clock::now_millis() / 1000;
        self.update_collection_at(collection_id, name, description, now)
    }

    /// Update collection metadata (what is given), modified at `now`.
    pub fn update_collection_at(
        &mut self,
        collection_id: &str,
        name: Option<String>,
        description: Option<String>,
        now: u64,
    ) -> (r: Result<(), String>)
        ensures
            r is Ok <==> old(self).collections().contains_key(collection_id@),
            r matches Err(e) ==> e@ == collection_not_found(collection_id@) && final(self).collections() == old(self).collections(),
            r is Ok ==> final(self).collections().contains_key(collection_id@) && final(self).collections().remove(
                collection_id@,
            ) == old(self).collections().remove(collection_id@) && changed_collection(
                final(self).collections()[collection_id@],
                old(self).collections()[collection_id@],
                or_keep(name, old(self).collections()[collection_id@].name),
                or_keep(description, old(self).collections()[collection_id@].description),
                old(self).collections()[collection_id@].assets@,
                now,
            ),
            final(self).keeps_all_but_collections(*old(self)),
    {
        proof { use_type_invariant(&*self); }
        match self.collections.index_of(collection_id) {
            None => Err(quoted("Collection '", collection_id, "' not found")),
            Some(i) => {
                let mut t = KeyedList::new();
                std::mem::swap(&mut t, &mut self.collections);
                let (k, mut c) = t.remove_at(i);
                self.collections = t;
                match name {
                    Some(n) => { c.name = n; },
                    None => {},
                }
                match description {
                    Some(d) => { c.description = d; },
                    None => {},
                }
                c.modified_at = now;
                let mut t = KeyedList::new();
                std::mem::swap(&mut t, &mut self.collections);
                t.insert_at(i, k, c);
                self.collections = t;
                assert(self.collections().remove(collection_id@) =~= old(self).collections().remove(collection_id@));
                Ok(())
            },
        }
    }

    /// Get the IDs of the collections that hold an asset, each once.
    pub fn get_collections_with_asset(&self, asset_id: &str) -> (r: Vec<&String>)
        ensures
            strings_distinct(ref_texts(r@)),
            forall|k: Seq<char>| #[trigger] has_string(ref_texts(r@), k) <==> self.collections().contains_key(k)
                && has_string(self.collections()[k].assets@, asset_id@),
    {
        proof { use_type_invariant(&*self); }
        let n = self.collections.len();
        let ghost pred = |c: AssetCollection| has_string(c.assets@, asset_id@);
        let mut mask: Vec<bool> = Vec::new();
        let mut i: usize = 0;
        while i < n
            invariant
                n == self.collections.entries().len(),
                self.collections.wf(),
                i <= n,
                mask@.len() == i,
                pred == (|c: AssetCollection| has_string(c.assets@, asset_id@)),
                forall|j: int| 0 <= j < i ==> mask@[j] == pred(#[trigger] self.collections.entries()[j].1),
            decreases n - i,
        {
            mask.push(contains_string(&self.collections.value_at(i).assets, asset_id));
            i = i + 1;
        }
        proof { crate::keyed::lemma_selected_keys(self.collections.entries(), mask@, pred); }
        let r = self.collections.select_key_refs(&mask);
        assert forall|k: Seq<char>| #[trigger] has_string(ref_texts(r@), k) <==> self.collections().contains_key(k)
            && has_string(self.collections()[k].assets@, asset_id@) by {
            assert(has_string(ref_texts(r@), k) <==> crate::keyed::selected_key(self.collections.entries(), mask@, k));
        }
        r
    }

    /// Adds a collection under an ID that is not taken (the collection as read
    /// from its shared form).
    pub fn import_collection(&mut self, id: String, collection: AssetCollection) -> (r: Result<(), String>)
        ensures
            r is Ok <==> !old(self).collections().contains_key(id@),
            r matches Err(e) ==> e@ == collection_exists(id@) && final(self).collections() == old(self).collections(),
            r is Ok ==> final(self).collections() == old(self).collections().insert(id@, collection),
            final(self).keeps_all_but_collections(*old(self)),
    {
        proof { use_type_invariant(&*self); }
        if self.collections.contains_key(id.as_str()) {
            return Err(quoted("Collection '", id.as_str(), "' already exists"));
        }
        let mut t = KeyedList::new();
        std::mem::swap(&mut t, &mut self.collections);
        t.insert(id, collection);
        self.collections = t;
        Ok(())
    }

    // ===== Statistics =====

    /// Get user statistics
    pub fn get_statistics(&self) -> (r: UserStatistics)
        ensures
            r.total_favorites == self.favorites().len(),
            r.total_ratings == self.ratings().len(),
            r.total_history_entries == self.history().len(),
            r.total_collections == self.collections().len(),
            r.rating_sum == rating_total(self.rating_entries()),
    {
        proof { use_type_invariant(&*self); }
        let n = self.ratings.len();
        let mut sum: u128 = 0;
        let mut i: usize = 0;
        while i < n
            invariant
                n == self.ratings.entries().len(),
                self.ratings.wf(),
                i <= n,
                sum == rating_total(self.ratings.entries().take(i as int)),
                sum <= 255 * i,
            decreases n - i,
        {
            let v = *self.ratings.value_at(i);
            assert(self.ratings.entries().take(i + 1).drop_last() =~= self.ratings.entries().take(i as int));
            sum = sum + v as u128;
            i = i + 1;
        }
        assert(self.ratings.entries().take(i as int) =~= self.ratings.entries());
        let favorites = self.favorites.len();
        let collections = self.collections.len();
        UserStatistics {
            total_favorites: favorites,
            total_ratings: n,
            total_history_entries: self.history.len(),
            total_collections: collections,
            rating_sum: sum,
        }
    }

    /// Rebuilds the state from its parts, as read back from the data file: later
    /// entries win over earlier ones with the same ID.
    pub fn restore(
        data_file: String,
        favorites: Vec<String>,
        ratings: Vec<(String, u8)>,
        history: Vec<HistoryEntry>,
        collections: Vec<(String, AssetCollection)>,
    ) -> (r: Self)
        ensures
            forall|k: Seq<char>| #[trigger] r.favorites().contains(k) <==> has_string(favorites@, k),
            r.ratings() == entries_map(ratings@),
            r.history() == history@,
            r.collections() == entries_map(collections@),
            r.data_file() == data_file@,
    {
        let mut r = Self::new(data_file);
        let mut favorites = favorites;
        let ghost fav = favorites@;
        let mut i: usize = 0;
        let mut fav_in: Vec<String> = Vec::new();
        std::mem::swap(&mut fav_in, &mut favorites);
        while fav_in.len() > 0
            invariant
                fav_in@.len() <= fav.len(),
                fav_in@ == fav.subrange(fav.len() - fav_in@.len(), fav.len() as int),
                forall|k: Seq<char>| #[trigger] r.favorites().contains(k) <==> has_string(fav.take(fav.len() - fav_in@.len()), k),
                r.ratings() == Map::<Seq<char>, u8>::empty(),
                r.history() == Seq::<HistoryEntry>::empty(),
                r.collections() == Map::<Seq<char>, AssetCollection>::empty(),
                r.data_file() == data_file@,
            decreases fav_in.len(),
        {
            let ghost at: int = fav.len() - fav_in@.len();
            let f = fav_in.remove(0);
            assert(f == fav[at]);
            r.add_favorite(f);
            assert forall|k: Seq<char>| has_string(fav.take(at + 1), k) <==> has_string(fav.take(at), k) || k == fav[at]@ by {
                if has_string(fav.take(at + 1), k) {
                    let j = choose|j: int| 0 <= j < at + 1 && #[trigger] fav.take(at + 1)[j]@ == k;
                    if j < at {
                        assert(fav.take(at)[j]@ == k);
                    }
                }
                if has_string(fav.take(at), k) {
                    let j = choose|j: int| 0 <= j < at && #[trigger] fav.take(at)[j]@ == k;
                    assert(fav.take(at + 1)[j]@ == k);
                }
                if k == fav[at]@ {
                    assert(fav.take(at + 1)[at]@ == k);
                }
            }
            assert(fav_in@ =~= fav.subrange(fav.len() - fav_in@.len(), fav.len() as int));
        }
        assert(fav.take(fav.len() as int) =~= fav);
        let ghost favset = r.favorites();
        let mut ratings = ratings;
        let ghost rt = ratings@;
        while ratings.len() > 0
            invariant
                ratings@.len() <= rt.len(),
                ratings@ == rt.subrange(rt.len() - ratings@.len(), rt.len() as int),
                r.favorites() == favset,
                forall|k: Seq<char>| #[trigger] favset.contains(k) <==> has_string(fav, k),
                r.ratings() == entries_map(rt.take(rt.len() - ratings@.len())),
                r.history() == Seq::<HistoryEntry>::empty(),
                r.collections() == Map::<Seq<char>, AssetCollection>::empty(),
                r.data_file() == data_file@,
            decreases ratings.len(),
        {
            let ghost at: int = rt.len() - ratings@.len();
            let (k, v) = ratings.remove(0);
            assert((k, v) == rt[at]);
            let mut t = KeyedList::new();
            proof { use_type_invariant(&r); }
            std::mem::swap(&mut t, &mut r.ratings);
            t.insert(k, v);
            r.ratings = t;
            assert(rt.take(at + 1).drop_last() =~= rt.take(at));
            assert(ratings@ =~= rt.subrange(rt.len() - ratings@.len(), rt.len() as int));
        }
        assert(rt.take(rt.len() as int) =~= rt);
        let mut collections = collections;
        let ghost cs = collections@;
        while collections.len() > 0
            invariant
                collections@.len() <= cs.len(),
                collections@ == cs.subrange(cs.len() - collections@.len(), cs.len() as int),
                r.favorites() == favset,
                forall|k: Seq<char>| #[trigger] favset.contains(k) <==> has_string(fav, k),
                r.ratings() == entries_map(rt),
                r.history() == Seq::<HistoryEntry>::empty(),
                r.collections() == entries_map(cs.take(cs.len() - collections@.len())),
                r.data_file() == data_file@,
            decreases collections.len(),
        {
            let ghost at: int = cs.len() - collections@.len();
            let (k, c) = collections.remove(0);
            assert((k, c) == cs[at]);
            let mut t = KeyedList::new();
            proof { use_type_invariant(&r); }
            std::mem::swap(&mut t, &mut r.collections);
            t.insert(k, c);
            r.collections = t;
            assert(cs.take(at + 1).drop_last() =~= cs.take(at));
            assert(collections@ =~= cs.subrange(cs.len() - collections@.len(), cs.len() as int));
        }
        assert(cs.take(cs.len() as int) =~= cs);
        proof { use_type_invariant(&r); }
        r.history = history;
        r
    }
}

/// `prefix`, the text of `id`, then `suffix`.
fn quoted(prefix: &str, id: &str, suffix: &str) -> (r: String)
    ensures
        r@ == prefix@ + id@ + suffix@,
{
    let mut m = prefix.to_string();
    m.append(id);
    m.append(suffix);
    m
}

/// What toggling a favorite does to the set of favorites.
pub open spec fn toggled(favorites: Set<Seq<char>>, id: Seq<char>) -> Set<Seq<char>> {
    if favorites.contains(id) {
        favorites.remove(id)
    } else {
        favorites.insert(id)
    }
}

/// Toggling a favorite twice leaves the favorites as they were.
pub proof fn lemma_toggle_twice(favorites: Set<Seq<char>>, id: Seq<char>)
    ensures
        toggled(toggled(favorites, id), id) == favorites,
{
    assert(toggled(toggled(favorites, id), id) =~= favorites);
}

} // verus!
