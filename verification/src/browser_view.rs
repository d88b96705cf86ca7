//! What the asset browser shows: the search, category and sort settings of its
//! list, the assets listed under them, and the installation status of the asset
//! on display. The widgets themselves belong to the application.
use vstd::prelude::*;
use crate::asset::{Asset, AssetCategory, all_categories, category_name, same_asset, same_assets};
use crate::asset_manager::{AssetManager, has_id, in_category, search_hit, update_index};
use crate::seqs::{first_index, lemma_filter_step};
use crate::text::{
    chars_of, compare_chars, lemma_lex_antisymmetric, lemma_lex_transitive, lemma_lex_zero_equal, lex_sign,
    lowercase, to_lowercase_string,
};

verus! {

/// How the asset list is ordered.
#[derive(Debug, Clone, Copy, PartialEq, Eq, Structural)]
pub enum SortCriteria {
    Name,
    Category,
    Author,
}

/// The sort order chosen at a position of the sort menu: name, category, author,
/// and name for any other position.
pub open spec fn sort_for_index(index: i32) -> SortCriteria {
    if index == 1 {
        SortCriteria::Category
    } else if index == 2 {
        SortCriteria::Author
    } else {
        SortCriteria::Name
    }
}

impl SortCriteria {
    /// The sort order at a position of the sort menu.
    pub fn from_index(index: i32) -> (r: Self)
        ensures
            r == sort_for_index(index),
    {
        match index {
            1 => SortCriteria::Category,
            2 => SortCriteria::Author,
            _ => SortCriteria::Name,
        }
    }
}

/// Whether the asset on display is installed, and up to date.
#[derive(Debug, Clone, Copy, PartialEq, Eq, Structural)]
pub enum AssetStatus {
    NotInstalled,
    Installed,
    UpdateAvailable,
}

/// The status with a number: not installed, installed, update available; any
/// other number reads as not installed.
pub open spec fn status_for_index(index: i32) -> AssetStatus {
    if index == 1 {
        AssetStatus::Installed
    } else if index == 2 {
        AssetStatus::UpdateAvailable
    } else {
        AssetStatus::NotInstalled
    }
}

/// The number of a status.
pub open spec fn status_index(s: AssetStatus) -> i32 {
    match s {
        AssetStatus::NotInstalled => 0,
        AssetStatus::Installed => 1,
        AssetStatus::UpdateAvailable => 2,
    }
}

impl AssetStatus {
    /// The status with a number.
    pub fn from_index(index: i32) -> (r: Self)
        ensures
            r == status_for_index(index),
    {
        match index {
            1 => AssetStatus::Installed,
            2 => AssetStatus::UpdateAvailable,
            _ => AssetStatus::NotInstalled,
        }
    }

    /// The number of the status.
    pub fn index(&self) -> (r: i32)
        ensures
            r == status_index(*self),
    {
        match self {
            AssetStatus::NotInstalled => 0,
            AssetStatus::Installed => 1,
            AssetStatus::UpdateAvailable => 2,
        }
    }

    /// The text of the status badge.
    pub fn badge_text(&self) -> (r: &'static str)
        ensures
            r@ == match *self {
                AssetStatus::NotInstalled => "Not Installed"@,
                AssetStatus::Installed => "Installed"@,
                AssetStatus::UpdateAvailable => "Update Available"@,
            },
    {
        match self {
            AssetStatus::NotInstalled => "Not Installed",
            AssetStatus::Installed => "Installed",
            AssetStatus::UpdateAvailable => "Update Available",
        }
    }

    /// The tooltip of the status badge.
    pub fn tooltip(&self) -> (r: &'static str)
        ensures
            r@ == match *self {
                AssetStatus::NotInstalled => "This asset is not installed"@,
                AssetStatus::Installed => "This asset is installed and up to date"@,
                AssetStatus::UpdateAvailable => "A newer version of this asset is available"@,
            },
    {
        match self {
            AssetStatus::NotInstalled => "This asset is not installed",
            AssetStatus::Installed => "This asset is installed and up to date",
            AssetStatus::UpdateAvailable => "A newer version of this asset is available",
        }
    }
}

/// The status of an asset: not installed; installed with an update on offer; or
/// installed. `installed_version` is the version its metadata records, if any.
pub open spec fn status_of(manager: AssetManager, asset_id: Seq<char>, installed_version: Option<Seq<char>>) -> AssetStatus {
    if !manager.installed().contains(asset_id) {
        AssetStatus::NotInstalled
    } else if update_index(manager.catalog(), asset_id, installed_version) is Some {
        AssetStatus::UpdateAvailable
    } else {
        AssetStatus::Installed
    }
}

/// The status of an asset, from whether it is installed and whether the
/// catalogue offers an update for it (a failed check counts as no update).
pub fn asset_status(manager: &AssetManager, asset_id: &str, installed_version: Option<&str>) -> (r: AssetStatus)
    ensures
        r == status_of(
            *manager,
            asset_id@,
            match installed_version {
                Some(v) => Some(v@),
                None => None,
            },
        ),
{
    if !manager.is_asset_installed(asset_id) {
        return AssetStatus::NotInstalled;
    }
    let update = match manager.check_for_update(asset_id, installed_version) {
        Ok(u) => u,
        Err(_) => None,
    };
    proof {
        if first_index(manager.catalog(), has_id(asset_id@)) < 0 {
            assert(update_index(
                manager.catalog(),
                asset_id@,
                match installed_version {
                    Some(v) => Some(v@),
                    None => None,
                },
            ) is None);
        }
    }
    match update {
        Some(_) => AssetStatus::UpdateAvailable,
        None => AssetStatus::Installed,
    }
}

// ===== Listing =====

/// The key an asset sorts by: lower-case name; category name, then lower-case
/// name; or lower-case author, then lower-case name.
pub open spec fn sort_key(a: Asset, c: SortCriteria) -> (Seq<char>, Seq<char>) {
    match c {
        SortCriteria::Name => (lowercase(a.name@), Seq::empty()),
        SortCriteria::Category => (category_name(a.category), lowercase(a.name@)),
        SortCriteria::Author => (lowercase(a.author@), lowercase(a.name@)),
    }
}

/// How two keys compare: by their first parts, then by their second.
pub open spec fn key_sign(a: (Seq<char>, Seq<char>), b: (Seq<char>, Seq<char>)) -> int {
    let s = lex_sign(a.0, b.0);
    if s != 0 {
        s
    } else {
        lex_sign(a.1, b.1)
    }
}

/// `x` put into `s` before the first asset whose key is not smaller.
pub open spec fn insert_before_ge(s: Seq<Asset>, x: Asset, c: SortCriteria) -> Seq<Asset>
    decreases s.len(),
{
    if s.len() == 0 {
        seq![x]
    } else if key_sign(sort_key(s[0], c), sort_key(x, c)) >= 0 {
        seq![x] + s
    } else {
        seq![s[0]] + insert_before_ge(s.drop_first(), x, c)
    }
}

/// The assets in the order of their keys; assets with equal keys keep their order.
pub open spec fn sorted_listing(s: Seq<Asset>, c: SortCriteria) -> Seq<Asset>
    decreases s.len(),
{
    if s.len() == 0 {
        Seq::empty()
    } else {
        insert_before_ge(sorted_listing(s.drop_first(), c), s[0], c)
    }
}

/// The assets that the search and the category filter let through, in catalogue
/// order: with no search text, the category's assets (or all); otherwise the
/// search hits, narrowed to the category.
pub open spec fn base_listing(catalog: Seq<Asset>, query: Seq<char>, filter: Option<AssetCategory>) -> Seq<Asset> {
    let found = if query.len() == 0 {
        catalog
    } else {
        catalog.filter(search_hit(query))
    };
    match filter {
        Some(c) => found.filter(in_category(c)),
        None => found,
    }
}

/// The settings of the browser's asset list.
pub struct BrowserView {
    search_query: String,
    category_filter: Option<AssetCategory>,
    sort_criteria: SortCriteria,
}

/// The category filter after choosing a position of the category menu: position
/// 0 is all categories, the next ones the categories in order; any other
/// position leaves the filter as it was.
pub open spec fn filter_for_index(index: i32, current: Option<AssetCategory>) -> Option<AssetCategory> {
    if index == 0 {
        None
    } else if 1 <= index <= all_categories().len() {
        Some(all_categories()[index - 1])
    } else {
        current
    }
}

impl BrowserView {
    /// The search text.
    pub closed spec fn query(self) -> Seq<char> {
        self.search_query@
    }

    /// The category filter.
    pub closed spec fn filter(self) -> Option<AssetCategory> {
        self.category_filter
    }

    /// The sort order.
    pub closed spec fn criteria(self) -> SortCriteria {
        self.sort_criteria
    }

    /// No search, all categories, sorted by name.
    pub fn new() -> (r: Self)
        ensures
            r.query().len() == 0,
            r.filter() is None,
            r.criteria() == SortCriteria::Name,
    {
        BrowserView { search_query: String::new(), category_filter: None, sort_criteria: SortCriteria::Name }
    }

    /// The search text changed.
    pub fn on_search_changed(&mut self, new_text: String)
        ensures
            final(self).query() == new_text@,
            final(self).filter() == old(self).filter(),
            final(self).criteria() == old(self).criteria(),
    {
        self.search_query = new_text;
    }

    /// A position of the category menu was chosen.
    pub fn on_category_changed(&mut self, index: i32)
        ensures
            final(self).filter() == filter_for_index(index, old(self).filter()),
            final(self).query() == old(self).query(),
            final(self).criteria() == old(self).criteria(),
    {
        if index == 0 {
            self.category_filter = None;
        } else {
            let categories = AssetCategory::all();
            if index >= 1 && ((index - 1) as usize) < categories.len() {
                self.category_filter = Some(categories[(index - 1) as usize]);
            }
        }
    }

    /// A position of the sort menu was chosen.
    pub fn on_sort_changed(&mut self, index: i32)
        ensures
            final(self).criteria() == sort_for_index(index),
            final(self).query() == old(self).query(),
            final(self).filter() == old(self).filter(),
    {
        self.sort_criteria = SortCriteria::from_index(index);
    }

    /// The search text.
    pub fn search_query(&self) -> (r: &str)
        ensures
            r@ == self.query(),
    {
        self.search_query.as_str()
    }

    /// The category filter.
    pub fn category_filter(&self) -> (r: Option<AssetCategory>)
        ensures
            r == self.filter(),
    {
        self.category_filter
    }

    /// The sort order.
    pub fn sort_criteria(&self) -> (r: SortCriteria)
        ensures
            r == self.criteria(),
    {
        self.sort_criteria
    }

    /// The assets to list: those that the search and the category filter let
    /// through, in the chosen order.
    pub fn visible_assets(&self, manager: &AssetManager) -> (r: Vec<Asset>)
        ensures
            same_assets(
                r@,
                sorted_listing(base_listing(manager.catalog(), self.query(), self.filter()), self.criteria()),
            ),
    {
        let found = if chars_of(self.search_query.as_str()).len() == 0 {
            let all = manager.get_assets();
            proof { assert(self.query().len() == 0); }
            all
        } else {
            manager.search_assets(self.search_query.as_str())
        };
        let ghost found_spec = if self.query().len() == 0 {
            manager.catalog()
        } else {
            manager.catalog().filter(search_hit(self.query()))
        };
        assert(same_assets(found@, found_spec));
        let listed = match self.category_filter {
            Some(c) => keep_category(found, c),
            None => found,
        };
        proof {
            match self.category_filter {
                Some(c) => lemma_filter_same(found@, found_spec, in_category(c)),
                None => {},
            }
        }
        let r = sort_assets(listed, self.sort_criteria);
        proof { lemma_sorted_same(listed@, base_listing(manager.catalog(), self.query(), self.filter()), self.criteria()); }
        r
    }
}

/// The assets of the category, in order.
fn keep_category(v: Vec<Asset>, c: AssetCategory) -> (r: Vec<Asset>)
    ensures
        r@ == v@.filter(in_category(c)),
{
    let ghost orig = v@;
    let ghost p = in_category(c);
    let mut v = v;
    let ghost mut k: int = 0;
    let mut i: usize = 0;
    while i < v.len()
        invariant
            0 <= k <= orig.len(),
            p == in_category(c),
            i == orig.take(k).filter(p).len(),
            v@ == orig.take(k).filter(p) + orig.skip(k),
        decreases v.len() - i,
    {
        proof {
            lemma_filter_step(orig, p, k);
            assert(v@[i as int] == orig[k]);
        }
        if v[i].category != c {
            v.remove(i);
        } else {
            i = i + 1;
        }
        proof {
            k = k + 1;
        }
        assert(v@ =~= orig.take(k).filter(p) + orig.skip(k));
    }
    assert(orig.take(k) =~= orig);
    v
}

/// Filtering copies keeps them copies: the categories, names and search texts
/// that filters look at are the same.
proof fn lemma_filter_same(a: Seq<Asset>, b: Seq<Asset>, p: spec_fn(Asset) -> bool)
    requires
        same_assets(a, b),
        forall|x: Asset, y: Asset| same_asset(x, y) ==> (p(x) == p(y)),
    ensures
        same_assets(a.filter(p), b.filter(p)),
    decreases a.len(),
{
    if a.len() > 0 {
        lemma_filter_same(a.drop_last(), b.drop_last(), p);
        assert(a =~= a.drop_last().push(a.last()));
        assert(b =~= b.drop_last().push(b.last()));
        a.drop_last().lemma_filter_push(a.last(), p);
        b.drop_last().lemma_filter_push(b.last(), p);
    } else {
        assert(a.filter(p) =~= Seq::<Asset>::empty());
        assert(b.filter(p) =~= Seq::<Asset>::empty());
    }
}

/// Inserting copies into copies gives copies.
proof fn lemma_insert_same(a: Seq<Asset>, b: Seq<Asset>, x: Asset, y: Asset, c: SortCriteria)
    requires
        same_assets(a, b),
        same_asset(x, y),
    ensures
        same_assets(insert_before_ge(a, x, c), insert_before_ge(b, y, c)),
    decreases a.len(),
{
    if a.len() > 0 {
        assert(sort_key(a[0], c) == sort_key(b[0], c));
        assert(sort_key(x, c) == sort_key(y, c));
        if key_sign(sort_key(a[0], c), sort_key(x, c)) < 0 {
            assert(same_assets(a.drop_first(), b.drop_first()));
            lemma_insert_same(a.drop_first(), b.drop_first(), x, y, c);
        }
    }
}

/// Sorting copies gives copies of the sorted assets.
proof fn lemma_sorted_same(a: Seq<Asset>, b: Seq<Asset>, c: SortCriteria)
    requires
        same_assets(a, b),
    ensures
        same_assets(sorted_listing(a, c), sorted_listing(b, c)),
    decreases a.len(),
{
    if a.len() > 0 {
        assert(same_assets(a.drop_first(), b.drop_first()));
        lemma_sorted_same(a.drop_first(), b.drop_first(), c);
        lemma_insert_same(sorted_listing(a.drop_first(), c), sorted_listing(b.drop_first(), c), a[0], b[0], c);
    }
}

/// The key of an asset, computed.
fn key_of(a: &Asset, c: SortCriteria) -> (r: (Vec<char>, Vec<char>))
    ensures
        (r.0@, r.1@) == sort_key(*a, c),
{
    match c {
        SortCriteria::Name => (chars_of(to_lowercase_string(a.name.as_str()).as_str()), Vec::new()),
        SortCriteria::Category => (
            chars_of(a.category.display_name()),
            chars_of(to_lowercase_string(a.name.as_str()).as_str()),
        ),
        SortCriteria::Author => (
            chars_of(to_lowercase_string(a.author.as_str()).as_str()),
            chars_of(to_lowercase_string(a.name.as_str()).as_str()),
        ),
    }
}

/// How two computed keys compare.
fn compare_keys(a: &(Vec<char>, Vec<char>), b: &(Vec<char>, Vec<char>)) -> (r: i8)
    ensures
        r as int == key_sign((a.0@, a.1@), (b.0@, b.1@)),
{
    let s = compare_chars(&a.0, &b.0);
    if s != 0 {
        s
    } else {
        compare_chars(&a.1, &b.1)
    }
}

/// Inserting before position `p` is `insert_before_ge` when every earlier key is
/// smaller and the key at `p` (if any) is not.
proof fn lemma_insert_at(s: Seq<Asset>, x: Asset, c: SortCriteria, p: int)
    requires
        0 <= p <= s.len(),
        forall|j: int| 0 <= j < p ==> key_sign(sort_key(#[trigger] s[j], c), sort_key(x, c)) < 0,
        p < s.len() ==> key_sign(sort_key(s[p], c), sort_key(x, c)) >= 0,
    ensures
        insert_before_ge(s, x, c) == s.insert(p, x),
    decreases p,
{
    if p == 0 {
        if s.len() == 0 {
            assert(s.insert(0, x) =~= seq![x]);
        } else {
            assert(s.insert(0, x) =~= seq![x] + s);
        }
    } else {
        assert(key_sign(sort_key(s[0], c), sort_key(x, c)) < 0);
        assert forall|j: int| 0 <= j < p - 1 implies key_sign(sort_key(#[trigger] s.drop_first()[j], c), sort_key(x, c))
            < 0 by {
            assert(s.drop_first()[j] == s[j + 1]);
        }
        if p < s.len() {
            assert(s.drop_first()[p - 1] == s[p]);
        }
        lemma_insert_at(s.drop_first(), x, c, p - 1);
        assert(s.insert(p, x) =~= seq![s[0]] + s.drop_first().insert(p - 1, x));
    }
}

/// The assets in the order of their keys, equal keys in the order they came in.
fn sort_assets(v: Vec<Asset>, c: SortCriteria) -> (r: Vec<Asset>)
    ensures
        r@ == sorted_listing(v@, c),
{
    let ghost orig = v@;
    let mut v = v;
    let mut r: Vec<Asset> = Vec::new();
    let mut keys: Vec<(Vec<char>, Vec<char>)> = Vec::new();
    while v.len() > 0
        invariant
            v@ == orig.take(v@.len() as int),
            v@.len() <= orig.len(),
            r@ == sorted_listing(orig.skip(v@.len() as int), c),
            keys@.len() == r@.len(),
            forall|j: int| 0 <= j < keys@.len() ==> (#[trigger] keys@[j].0@, keys@[j].1@) == sort_key(r@[j], c),
        decreases v.len(),
    {
        let ghost k = v@.len() as int;
        let x = v.pop().unwrap();
        assert(x == orig[k - 1]);
        let kx = key_of(&x, c);
        let mut p: usize = 0;
        while p < r.len() && compare_keys(&keys[p], &kx) < 0
            invariant
                p <= r@.len(),
                keys@.len() == r@.len(),
                forall|j: int| 0 <= j < keys@.len() ==> (#[trigger] keys@[j].0@, keys@[j].1@) == sort_key(r@[j], c),
                (kx.0@, kx.1@) == sort_key(x, c),
                forall|j: int| 0 <= j < p ==> key_sign(sort_key(#[trigger] r@[j], c), sort_key(x, c)) < 0,
            decreases r.len() - p,
        {
            assert((keys@[p as int].0@, keys@[p as int].1@) == sort_key(r@[p as int], c));
            p = p + 1;
        }
        proof {
            if p < r@.len() {
                assert((keys@[p as int].0@, keys@[p as int].1@) == sort_key(r@[p as int], c));
            }
            lemma_insert_at(r@, x, c, p as int);
            assert(orig.skip(k - 1).drop_first() =~= orig.skip(k));
            assert(orig.skip(k - 1)[0] == x);
        }
        let ghost old_r = r@;
        let ghost old_keys = keys@;
        r.insert(p, x);
        keys.insert(p, kx);
        assert forall|j: int| 0 <= j < keys@.len() implies (#[trigger] keys@[j].0@, keys@[j].1@) == sort_key(r@[j], c) by {
            if j < p {
                assert(keys@[j] == old_keys[j] && r@[j] == old_r[j]);
            } else if j > p {
                assert(keys@[j] == old_keys[j - 1] && r@[j] == old_r[j - 1]);
            }
        }
        assert(v@ =~= orig.take(v@.len() as int));
    }
    assert(orig.skip(0) =~= orig);
    r
}


// ===== Order of the listing =====

proof fn lemma_key_antisymmetric(a: (Seq<char>, Seq<char>), b: (Seq<char>, Seq<char>))
    ensures
        key_sign(a, b) == -key_sign(b, a),
{
    lemma_lex_antisymmetric(a.0, b.0);
    lemma_lex_antisymmetric(a.1, b.1);
}

proof fn lemma_key_transitive(a: (Seq<char>, Seq<char>), b: (Seq<char>, Seq<char>), c: (Seq<char>, Seq<char>))
    requires
        key_sign(a, b) <= 0,
        key_sign(b, c) <= 0,
    ensures
        key_sign(a, c) <= 0,
{
    lemma_lex_antisymmetric(a.0, b.0);
    lemma_lex_antisymmetric(b.0, c.0);
    lemma_lex_antisymmetric(a.0, c.0);
    if lex_sign(a.0, b.0) == 0 {
        lemma_lex_zero_equal(a.0, b.0);
    }
    if lex_sign(b.0, c.0) == 0 {
        lemma_lex_zero_equal(b.0, c.0);
    }
    lemma_lex_transitive(a.0, b.0, c.0);
    if lex_sign(a.0, c.0) == 0 {
        lemma_lex_zero_equal(a.0, c.0);
    }
    if lex_sign(a.0, b.0) == 0 && lex_sign(b.0, c.0) == 0 {
        lemma_lex_transitive(a.1, b.1, c.1);
    }
}

/// The assets are in the order of their keys.
pub open spec fn ordered_by_key(s: Seq<Asset>, c: SortCriteria) -> bool {
    forall|i: int, j: int| 0 <= i < j < s.len() ==> key_sign(sort_key(#[trigger] s[i], c), sort_key(#[trigger] s[j], c)) <= 0
}

/// An asset no greater than `x` and than every asset of `s` is no greater than any
/// asset of `s` with `x` inserted.
proof fn lemma_insert_bound(s: Seq<Asset>, x: Asset, y: Asset, c: SortCriteria)
    requires
        key_sign(sort_key(y, c), sort_key(x, c)) <= 0,
        forall|j: int| 0 <= j < s.len() ==> key_sign(sort_key(y, c), sort_key(#[trigger] s[j], c)) <= 0,
    ensures
        forall|i: int| 0 <= i < insert_before_ge(s, x, c).len() ==> key_sign(
            sort_key(y, c),
            sort_key(#[trigger] insert_before_ge(s, x, c)[i], c),
        ) <= 0,
        insert_before_ge(s, x, c).len() == s.len() + 1,
    decreases s.len(),
{
    if s.len() > 0 && key_sign(sort_key(s[0], c), sort_key(x, c)) < 0 {
        assert forall|j: int| 0 <= j < s.drop_first().len() implies key_sign(
            sort_key(y, c),
            sort_key(#[trigger] s.drop_first()[j], c),
        ) <= 0 by {
            assert(s.drop_first()[j] == s[j + 1]);
        }
        lemma_insert_bound(s.drop_first(), x, y, c);
        let t = insert_before_ge(s.drop_first(), x, c);
        assert forall|i: int| 0 <= i < insert_before_ge(s, x, c).len() implies key_sign(
            sort_key(y, c),
            sort_key(#[trigger] insert_before_ge(s, x, c)[i], c),
        ) <= 0 by {
            if i > 0 {
                assert(insert_before_ge(s, x, c)[i] == t[i - 1]);
            }
        }
    } else if s.len() > 0 {
        assert forall|i: int| 0 <= i < insert_before_ge(s, x, c).len() implies key_sign(
            sort_key(y, c),
            sort_key(#[trigger] insert_before_ge(s, x, c)[i], c),
        ) <= 0 by {
            if i > 0 {
                assert(insert_before_ge(s, x, c)[i] == s[i - 1]);
            }
        }
    } else {
        assert(insert_before_ge(s, x, c)[0] == x);
    }
}

/// Inserting into an ordered listing keeps it ordered and adds exactly the asset.
proof fn lemma_insert_ordered(s: Seq<Asset>, x: Asset, c: SortCriteria)
    requires
        ordered_by_key(s, c),
    ensures
        ordered_by_key(insert_before_ge(s, x, c), c),
        insert_before_ge(s, x, c).to_multiset() == s.to_multiset().insert(x),
    decreases s.len(),
{
    broadcast use vstd::seq_lib::to_multiset_insert;
    if s.len() == 0 {
        assert(seq![x] =~= s.insert(0, x));
    } else if key_sign(sort_key(s[0], c), sort_key(x, c)) >= 0 {
        let r = seq![x] + s;
        assert(r =~= s.insert(0, x));
        lemma_key_antisymmetric(sort_key(s[0], c), sort_key(x, c));
        assert forall|i: int, j: int| 0 <= i < j < r.len() implies key_sign(
            sort_key(#[trigger] r[i], c),
            sort_key(#[trigger] r[j], c),
        ) <= 0 by {
            if i == 0 {
                if j > 1 {
                    assert(key_sign(sort_key(s[0], c), sort_key(s[j - 1], c)) <= 0);
                    lemma_key_transitive(sort_key(x, c), sort_key(s[0], c), sort_key(s[j - 1], c));
                }
            } else {
                assert(r[i] == s[i - 1] && r[j] == s[j - 1]);
            }
        }
    } else {
        let rest = s.drop_first();
        assert(ordered_by_key(rest, c)) by {
            assert forall|i: int, j: int| 0 <= i < j < rest.len() implies key_sign(
                sort_key(#[trigger] rest[i], c),
                sort_key(#[trigger] rest[j], c),
            ) <= 0 by {
                assert(rest[i] == s[i + 1] && rest[j] == s[j + 1]);
            }
        }
        lemma_insert_ordered(rest, x, c);
        let t = insert_before_ge(rest, x, c);
        assert forall|j: int| 0 <= j < rest.len() implies key_sign(sort_key(s[0], c), sort_key(#[trigger] rest[j], c))
            <= 0 by {
            assert(rest[j] == s[j + 1]);
        }
        lemma_insert_bound(rest, x, s[0], c);
        let r = seq![s[0]] + t;
        assert forall|i: int, j: int| 0 <= i < j < r.len() implies key_sign(
            sort_key(#[trigger] r[i], c),
            sort_key(#[trigger] r[j], c),
        ) <= 0 by {
            if i == 0 {
                assert(r[j] == t[j - 1]);
            } else {
                assert(r[i] == t[i - 1] && r[j] == t[j - 1]);
            }
        }
        assert(r =~= t.insert(0, s[0]));
        assert(s =~= rest.insert(0, s[0]));
        assert(t.insert(0, s[0]).to_multiset() == t.to_multiset().insert(s[0]));
        assert(rest.insert(0, s[0]).to_multiset() == rest.to_multiset().insert(s[0]));
        assert(r.to_multiset() =~= s.to_multiset().insert(x));
    }
}

/// The browser's listing is in the order of the chosen key, and it holds exactly
/// the assets that it sorts, each as often.
pub proof fn lemma_listing_ordered(s: Seq<Asset>, c: SortCriteria)
    ensures
        ordered_by_key(sorted_listing(s, c), c),
        sorted_listing(s, c).to_multiset() == s.to_multiset(),
    decreases s.len(),
{
    broadcast use vstd::seq_lib::to_multiset_insert;
    if s.len() == 0 {
        assert(s =~= Seq::<Asset>::empty());
    } else {
        lemma_listing_ordered(s.drop_first(), c);
        lemma_insert_ordered(sorted_listing(s.drop_first(), c), s[0], c);
        assert(s =~= s.drop_first().insert(0, s[0]));
    }
}

} // verus!
