//! The path collector: a flat name-indexed collection of objects assembled
//! from file-system listings, honouring the layout conventions (source
//! extension, reserved listing file, private folders, recursion depth), and
//! the alias resolver that follows cross-references with cycle detection.
//!
//! The walker itself runs outside the library: it hands over, per root, what
//! it saw (the entries, their depths, and each file's read bytes), and every
//! decision about them is made and proved here.

use vstd::prelude::*;

use crate::cst::matlab_cst;
use crate::errors::MaltError;
use crate::objects::MatlabObject;
use crate::parser::{lemma_parse_matches_name, parse_matches, parse_source, parsed_name};
use crate::paths::{
    basename, basename_matches, has_component, has_m_extension, path_has_component,
    path_has_m_extension, str_eq,
};

verus! {

/// One entry seen while walking a directory root, in walk order. A failure
/// stands where the walker could not read an entry.
#[derive(Debug)]
pub enum WalkItem {
    Directory { path: String, depth: usize },
    File { path: String, depth: usize, source: Result<Vec<u8>, String> },
    Failure { message: String },
}

/// What the file system showed for one root path.
#[derive(Debug)]
pub enum RootListing {
    /// The root does not exist.
    Missing { path: String },
    /// The root is a single file, with the outcome of reading it.
    FileRoot { path: String, source: Result<Vec<u8>, String> },
    /// The root is a directory, with the entries of its walk.
    DirRoot { path: String, items: Vec<WalkItem> },
}

pub open spec fn listing_path(l: RootListing) -> Seq<char> {
    match l {
        RootListing::Missing { path } => path@,
        RootListing::FileRoot { path, .. } => path@,
        RootListing::DirRoot { path, .. } => path@,
    }
}

/// A single-file root is collected when it carries the source extension and
/// is not the reserved listing file.
pub open spec fn file_root_selected(path: Seq<char>) -> bool {
    has_m_extension(path) && basename(path) != "Contents.m"@
}

/// A file met during a directory walk is collected when no component of its
/// path is the private marker, its depth fits the recursion mode, it carries
/// the source extension and it is not the reserved listing file.
pub open spec fn item_selected(it: WalkItem, recursive: bool) -> bool {
    &&& it matches WalkItem::File { path, depth, .. }
    &&& !has_component(path@, "private"@)
    &&& (recursive || depth <= 1)
    &&& has_m_extension(path@)
    &&& basename(path@) != "Contents.m"@
}

/// Selection `ii` of listing `l`: the file-root itself (at 0) or the
/// `ii`-th walk item, where it is collected.
pub open spec fn lsel(l: RootListing, rec: bool, ii: int) -> bool {
    match l {
        RootListing::Missing { .. } => false,
        RootListing::FileRoot { path, .. } => ii == 0 && file_root_selected(path@),
        RootListing::DirRoot { items, .. } => 0 <= ii < items@.len() && item_selected(
            items@[ii],
            rec,
        ),
    }
}

pub open spec fn lsel_path(l: RootListing, ii: int) -> Seq<char> {
    match l {
        RootListing::Missing { path } => path@,
        RootListing::FileRoot { path, .. } => path@,
        RootListing::DirRoot { items, .. } => items@[ii]->File_path@,
    }
}

pub open spec fn lsel_source(l: RootListing, ii: int) -> Seq<u8> {
    match l {
        RootListing::Missing { .. } => Seq::empty(),
        RootListing::FileRoot { source, .. } => source->Ok_0@,
        RootListing::DirRoot { items, .. } => items@[ii]->File_source->Ok_0@,
    }
}

/// The name the object parsed from selection `ii` of `l` carries.
pub open spec fn lsel_name(l: RootListing, ii: int) -> Seq<char> {
    parsed_name(matlab_cst(lsel_source(l, ii))->Some_0, lsel_path(l, ii))
}

/// Selection `(li, ii)` across a sequence of listings.
pub open spec fn sel(listings: Seq<RootListing>, rec: bool, li: int, ii: int) -> bool {
    0 <= li < listings.len() && lsel(listings[li], rec, ii)
}

pub open spec fn sel_name(listings: Seq<RootListing>, li: int, ii: int) -> Seq<char> {
    lsel_name(listings[li], ii)
}

pub open spec fn later(li: int, ii: int, lj: int, jj: int) -> bool {
    lj > li || (lj == li && jj > ii)
}

/// Selection `(li, ii)` provides the collection's entry for its name: no
/// later selection parses to the same name (last write wins).
pub open spec fn wins(listings: Seq<RootListing>, rec: bool, li: int, ii: int) -> bool {
    &&& sel(listings, rec, li, ii)
    &&& forall|lj: int, jj: int|
        #![trigger sel(listings, rec, lj, jj)]
        sel(listings, rec, lj, jj) && later(li, ii, lj, jj) ==> sel_name(listings, lj, jj)
            != sel_name(listings, li, ii)
}

/// Everything a successful collection needs from one root: the root exists,
/// its walk saw no failure, and every collected file was read and parsed.
pub open spec fn listing_ok(l: RootListing, rec: bool) -> bool {
    match l {
        RootListing::Missing { .. } => false,
        RootListing::FileRoot { path, source } => file_root_selected(path@) ==> (source
            matches Ok(b) && matlab_cst(b@) is Some),
        RootListing::DirRoot { items, .. } => {
            &&& forall|i: int| 0 <= i < items@.len() ==> !((#[trigger] items@[i]) is Failure)
            &&& forall|i: int|
                0 <= i < items@.len() && item_selected(#[trigger] items@[i], rec) ==> (items@[i]
                    ->File_source matches Ok(b) && matlab_cst(b@) is Some)
        },
    }
}

/// What a successfully built collection's map holds: a key for exactly the
/// names of the collected files' objects, each mapped to the object parsed
/// from the last collected file bearing that name.
pub open spec fn collection_matches(
    m: Map<Seq<char>, MatlabObject>,
    listings: Seq<RootListing>,
    rec: bool,
) -> bool {
    &&& forall|li: int, ii: int|
        #![trigger sel(listings, rec, li, ii)]
        sel(listings, rec, li, ii) ==> m.contains_key(sel_name(listings, li, ii))
    &&& forall|k: Seq<char>|
        m.contains_key(k) ==> exists|li: int, ii: int|
            #![trigger sel(listings, rec, li, ii)]
            sel(listings, rec, li, ii) && sel_name(listings, li, ii) == k
    &&& forall|li: int, ii: int|
        #![trigger wins(listings, rec, li, ii)]
        wins(listings, rec, li, ii) ==> parse_matches(
            m[sel_name(listings, li, ii)],
            matlab_cst(lsel_source(listings[li], ii))->Some_0,
            lsel_path(listings[li], ii),
        )
}

/// The flat collection: the root paths it was built from and a name-keyed
/// map of objects, stored as unique-keyed pairs.
#[derive(Debug)]
pub struct PathsCollection {
    pub paths: Vec<String>,
    pub objects: Vec<(String, MatlabObject)>,
}

impl View for PathsCollection {
    type V = Map<Seq<char>, MatlabObject>;

    /// The collection as a map from names to objects.
    open spec fn view(&self) -> Map<Seq<char>, MatlabObject> {
        Map::new(
            |k: Seq<char>|
                exists|i: int| 0 <= i < self.objects@.len() && (#[trigger] self.objects@[i]).0@
                    == k,
            |k: Seq<char>|
                self.objects@[choose|i: int|
                    0 <= i < self.objects@.len() && (#[trigger] self.objects@[i]).0@ == k].1,
        )
    }
}

impl PathsCollection {
    /// Keys are unique, and each entry is keyed by its object's own name.
    pub open spec fn wf(&self) -> bool {
        &&& forall|i: int, j: int|
            0 <= i < j < self.objects@.len() ==> (#[trigger] self.objects@[i]).0@ != (
            #[trigger] self.objects@[j]).0@
        &&& forall|i: int|
            0 <= i < self.objects@.len() ==> (#[trigger] self.objects@[i]).0@
                == self.objects@[i].1.spec_name()
    }

    /// The position of `name` among the stored pairs, if present.
    fn find_key(&self, name: &str) -> (r: Option<usize>)
        ensures
            r matches Some(i) ==> i < self.objects@.len() && self.objects@[i as int].0@ == name@,
            r is None ==> forall|i: int|
                0 <= i < self.objects@.len() ==> (#[trigger] self.objects@[i]).0@ != name@,
    {
        let n = self.objects.len();
        let mut i: usize = 0;
        while i < n
            invariant
                n == self.objects@.len(),
                0 <= i <= n,
                forall|j: int| 0 <= j < i ==> (#[trigger] self.objects@[j]).0@ != name@,
            decreases n - i,
        {
            if str_eq(self.objects[i].0.as_str(), name) {
                return Some(i);
            }
            i += 1;
        }
        None
    }

    /// Inserts an object under its own name, replacing any earlier object of
    /// that name.
    fn insert_object(&mut self, obj: MatlabObject)
        requires
            old(self).wf(),
        ensures
            final(self).wf(),
            final(self)@ == old(self)@.insert(obj.spec_name(), obj),
            final(self).paths == old(self).paths,
    {
        let name: String = obj.name().to_owned();
        match self.find_key(name.as_str()) {
            Some(i) => {
                self.objects.remove(i);
                proof {
                    let o = old(self).objects@;
                    let s = self.objects@;
                    assert forall|j: int| 0 <= j < s.len() implies #[trigger] s[j] == if j < i {
                        o[j]
                    } else {
                        o[j + 1]
                    } by {}
                    assert(forall|j: int| 0 <= j < s.len() ==> (#[trigger] s[j]).0@ != name@);
                }
            },
            None => {},
        }
        let ghost mid = self.objects@;
        proof {
            assert(forall|j: int| 0 <= j < mid.len() ==> (#[trigger] mid[j]).0@ != name@);
            // mid keeps old's distinctness and key-naming, and old's keys but `name`
            assert(forall|i2: int, j2: int|
                0 <= i2 < j2 < mid.len() ==> (#[trigger] mid[i2]).0@ != (#[trigger] mid[j2]).0@);
            assert(forall|i2: int|
                0 <= i2 < mid.len() ==> (#[trigger] mid[i2]).0@ == mid[i2].1.spec_name());
        }
        self.objects.push((name, obj));
        proof {
            let s = self.objects@;
            let nm = obj.spec_name();
            assert(s.len() == mid.len() + 1);
            assert(s.last().0@ == nm && s.last().1 == obj);
            assert(forall|j: int| 0 <= j < mid.len() ==> s[j] == mid[j]);
            // key membership in old: through mid, every key but `name` survives
            assert forall|k: Seq<char>| #[trigger]
                final(self)@.contains_key(k) == old(self)@.insert(nm, obj).contains_key(k) by {
                if k == nm {
                    assert(s[s.len() - 1].0@ == k);
                } else {
                    if exists|j: int| 0 <= j < mid.len() && (#[trigger] mid[j]).0@ == k {
                        let j = choose|j: int| 0 <= j < mid.len() && (#[trigger] mid[j]).0@ == k;
                        let oj = if j < old(self).objects@.len() && old(self).objects@[j].0@ == k {
                            j
                        } else {
                            j + 1
                        };
                        assert(0 <= oj < old(self).objects@.len() && old(self).objects@[oj].0@
                            == k);
                    }
                    if exists|j: int|
                        0 <= j < old(self).objects@.len() && (#[trigger] old(self).objects@[j]).0@
                            == k {
                        let j = choose|j: int|
                            0 <= j < old(self).objects@.len() && (
                            #[trigger] old(self).objects@[j]).0@ == k;
                        if j < mid.len() && mid[j].0@ == k {
                            assert(s[j].0@ == k);
                        } else {
                            assert(0 <= j - 1 < mid.len() && mid[j - 1].0@ == k);
                            assert(s[j - 1].0@ == k);
                        }
                    }
                }
            }
            assert forall|k: Seq<char>| final(self)@.contains_key(k) implies #[trigger] (final(self)@[k]) == old(self)@.insert(nm, obj)[k] by {
                let j = choose|i2: int| 0 <= i2 < s.len() && (#[trigger] s[i2]).0@ == k;
                if k == nm {
                    assert(j == s.len() - 1);
                } else {
                    assert(j < mid.len() && mid[j].0@ == k);
                    let oj = if j < old(self).objects@.len() && old(self).objects@[j].0@ == k {
                        j
                    } else {
                        j + 1
                    };
                    assert(0 <= oj < old(self).objects@.len() && old(self).objects@[oj].0@ == k
                        && old(self).objects@[oj].1 == s[j].1);
                    let oc = choose|i2: int|
                        0 <= i2 < old(self).objects@.len() && (
                        #[trigger] old(self).objects@[i2]).0@ == k;
                    assert(oc == oj);
                }
            }
            assert(final(self)@ =~= old(self)@.insert(nm, obj));
        }
    }

    pub fn get(&self, name: &str) -> (r: Option<&MatlabObject>)
        requires
            self.wf(),
        ensures
            r matches Some(obj) ==> self@.contains_key(name@) && *obj == self@[name@],
            r is None ==> !self@.contains_key(name@),
    {
        match self.find_key(name) {
            Some(i) => {
                proof {
                    let c = choose|j: int|
                        0 <= j < self.objects@.len() && (#[trigger] self.objects@[j]).0@ == name@;
                    assert(c == i);
                }
                Some(&self.objects[i].1)
            },
            None => None,
        }
    }

    pub fn contains(&self, name: &str) -> (r: bool)
        requires
            self.wf(),
        ensures
            r == self@.contains_key(name@),
    {
        match self.find_key(name) {
            Some(_) => true,
            None => false,
        }
    }

    pub fn len(&self) -> (r: usize)
        ensures
            r == self.objects@.len(),
    {
        self.objects.len()
    }

    pub fn is_empty(&self) -> (r: bool)
        ensures
            r == (self.objects@.len() == 0),
            r == !(exists|k: Seq<char>| self@.contains_key(k)),
    {
        let r = self.objects.len() == 0;
        proof {
            if self.objects@.len() > 0 {
                assert(self@.contains_key(self.objects@[0].0@));
            }
        }
        r
    }

    /// The stored names, in storage order.
    pub fn keys(&self) -> (r: Vec<String>)
        ensures
            r@.len() == self.objects@.len(),
            forall|i: int| 0 <= i < r@.len() ==> (#[trigger] r@[i])@ == self.objects@[i].0@,
    {
        let n = self.objects.len();
        let mut r: Vec<String> = Vec::new();
        let mut i: usize = 0;
        while i < n
            invariant
                n == self.objects@.len(),
                0 <= i <= n,
                r@.len() == i,
                forall|j: int| 0 <= j < i ==> (#[trigger] r@[j])@ == self.objects@[j].0@,
            decreases n - i,
        {
            r.push(self.objects[i].0.clone());
            i += 1;
        }
        r
    }

    /// The stored objects, in storage order.
    pub fn values(&self) -> (r: Vec<&MatlabObject>)
        ensures
            r@.len() == self.objects@.len(),
            forall|i: int| 0 <= i < r@.len() ==> *(#[trigger] r@[i]) == self.objects@[i].1,
    {
        let n = self.objects.len();
        let mut r: Vec<&MatlabObject> = Vec::new();
        let mut i: usize = 0;
        while i < n
            invariant
                n == self.objects@.len(),
                0 <= i <= n,
                r@.len() == i,
                forall|j: int| 0 <= j < i ==> *(#[trigger] r@[j]) == self.objects@[j].1,
            decreases n - i,
        {
            r.push(&self.objects[i].1);
            i += 1;
        }
        r
    }
}

/// The name parsed for a walked file, from its bytes and its path alone.
pub open spec fn item_name(it: WalkItem) -> Seq<char> {
    parsed_name(matlab_cst(it->File_source->Ok_0@)->Some_0, it->File_path@)
}

/// Selection `ii` of `l` is the last one of `l` to parse to its name.
pub open spec fn lwins(l: RootListing, rec: bool, ii: int) -> bool {
    &&& lsel(l, rec, ii)
    &&& forall|jj: int|
        #![trigger lsel(l, rec, jj)]
        lsel(l, rec, jj) && jj > ii ==> lsel_name(l, jj) != lsel_name(l, ii)
}

/// No selection of `l` parses to the name `k`.
pub open spec fn lfresh(l: RootListing, rec: bool, k: Seq<char>) -> bool {
    forall|ii: int| #![trigger lsel(l, rec, ii)] lsel(l, rec, ii) ==> lsel_name(l, ii) != k
}

/// How collecting one root turns the map `m0` into `m1`: keys gain exactly
/// the root's parsed names, each last-written winner provides its entry, and
/// names the root never parses keep their old entries.
pub open spec fn root_update(
    m0: Map<Seq<char>, MatlabObject>,
    m1: Map<Seq<char>, MatlabObject>,
    l: RootListing,
    rec: bool,
) -> bool {
    &&& forall|k: Seq<char>| #[trigger]
        m1.contains_key(k) <==> (m0.contains_key(k) || !lfresh(l, rec, k))
    &&& forall|ii: int|
        #![trigger lwins(l, rec, ii)]
        lwins(l, rec, ii) ==> m1.contains_key(lsel_name(l, ii)) && parse_matches(
            m1[lsel_name(l, ii)],
            matlab_cst(lsel_source(l, ii))->Some_0,
            lsel_path(l, ii),
        )
    &&& forall|k: Seq<char>|
        m0.contains_key(k) && lfresh(l, rec, k) ==> #[trigger] m1.contains_key(k) && m1[k]
            == m0[k]
}

/// Among the first `n` items, `j` is selected and no later selected item of
/// the prefix parses to the same name.
pub open spec fn prefix_wins(items: Seq<WalkItem>, rec: bool, n: int, j: int) -> bool {
    &&& 0 <= j < n <= items.len()
    &&& item_selected(items[j], rec)
    &&& forall|j2: int|
        #![trigger items[j2]]
        j < j2 < n && item_selected(items[j2], rec) ==> item_name(items[j2]) != item_name(
            items[j],
        )
}

/// No selected item among the first `n` parses to the name `k`.
pub open spec fn prefix_fresh(items: Seq<WalkItem>, rec: bool, n: int, k: Seq<char>) -> bool {
    forall|j: int|
        #![trigger items[j]]
        0 <= j < n && item_selected(items[j], rec) ==> item_name(items[j]) != k
}

/// The collector's in-flight guarantee over a directory walk, after the
/// first `n` items, relative to the map `base` it started from: keys have
/// grown by exactly the prefix's parsed names, each last-written winner of
/// the prefix provides its entry, and names the prefix never parses keep
/// their `base` entries.
pub open spec fn dir_state(
    base: Map<Seq<char>, MatlabObject>,
    m: Map<Seq<char>, MatlabObject>,
    items: Seq<WalkItem>,
    rec: bool,
    n: int,
) -> bool {
    &&& forall|k: Seq<char>| #[trigger]
        m.contains_key(k) <==> (base.contains_key(k) || !prefix_fresh(items, rec, n, k))
    &&& forall|j: int| #[trigger]
        prefix_wins(items, rec, n, j) ==> m.contains_key(item_name(items[j])) && parse_matches(
            m[item_name(items[j])],
            matlab_cst(items[j]->File_source->Ok_0@)->Some_0,
            items[j]->File_path@,
        )
    &&& forall|k: Seq<char>|
        #![trigger prefix_fresh(items, rec, n, k)]
        base.contains_key(k) && prefix_fresh(items, rec, n, k) ==> m.contains_key(k) && m[k]
            == base[k]
}

/// Considering one more walk item carries the in-flight guarantee forward:
/// a selected item overwrites its parsed name with its parsed object, any
/// other item changes nothing.
proof fn lemma_dir_state_step(
    base: Map<Seq<char>, MatlabObject>,
    prev: Map<Seq<char>, MatlabObject>,
    m: Map<Seq<char>, MatlabObject>,
    items: Seq<WalkItem>,
    rec: bool,
    n: int,
)
    requires
        0 <= n < items.len(),
        dir_state(base, prev, items, rec, n),
        !item_selected(items[n], rec) ==> m == prev,
        item_selected(items[n], rec) ==> {
            &&& matlab_cst(items[n]->File_source->Ok_0@) is Some
            &&& m.contains_key(item_name(items[n]))
            &&& m == prev.insert(item_name(items[n]), m[item_name(items[n])])
            &&& parse_matches(
                m[item_name(items[n])],
                matlab_cst(items[n]->File_source->Ok_0@)->Some_0,
                items[n]->File_path@,
            )
        },
    ensures
        dir_state(base, m, items, rec, n + 1),
{
    let nsel = item_selected(items[n], rec);
    let nm = item_name(items[n]);
    assert forall|k: Seq<char>| #[trigger]
        m.contains_key(k) <==> (base.contains_key(k) || !prefix_fresh(items, rec, n + 1, k)) by {
        assert(prefix_fresh(items, rec, n, k) || !prefix_fresh(items, rec, n, k));
        if nsel && k == nm {
            assert(item_selected(items[n], rec) && item_name(items[n]) == k);
            assert(!prefix_fresh(items, rec, n + 1, k));
            assert(m.contains_key(k));
        } else {
            if !prefix_fresh(items, rec, n + 1, k) {
                let j = choose|j: int|
                    #![trigger items[j]]
                    0 <= j < n + 1 && item_selected(items[j], rec) && item_name(items[j]) == k;
                if j == n {
                    assert(nsel && k == nm);
                }
                assert(j < n);
                assert(!prefix_fresh(items, rec, n, k));
            }
            if !prefix_fresh(items, rec, n, k) {
                let j = choose|j: int|
                    #![trigger items[j]]
                    0 <= j < n && item_selected(items[j], rec) && item_name(items[j]) == k;
                assert(0 <= j < n + 1 && item_selected(items[j], rec) && item_name(items[j])
                    == k);
                assert(!prefix_fresh(items, rec, n + 1, k));
            }
            assert(m.contains_key(k) == prev.contains_key(k));
        }
    }
    assert forall|j: int| #[trigger]
        prefix_wins(items, rec, n + 1, j) implies m.contains_key(item_name(items[j]))
        && parse_matches(
        m[item_name(items[j])],
        matlab_cst(items[j]->File_source->Ok_0@)->Some_0,
        items[j]->File_path@,
    ) by {
        if j == n {
            assert(nsel);
        } else {
            assert(prefix_wins(items, rec, n, j));
            if nsel {
                assert(items[n] == items[n]);
                assert(item_name(items[j]) != nm);
                assert(m[item_name(items[j])] == prev[item_name(items[j])]);
            }
        }
    }
    assert forall|k: Seq<char>|
        base.contains_key(k) && prefix_fresh(items, rec, n + 1, k) implies #[trigger] prefix_fresh(
        items,
        rec,
        n + 1,
        k,
    ) && m.contains_key(k) && m[k] == base[k] by {
        assert(prefix_fresh(items, rec, n, k));
        assert(prev.contains_key(k) && prev[k] == base[k]);
        if nsel {
            assert(items[n] == items[n]);
            assert(item_name(items[n]) != k);
            assert(m[k] == prev[k]);
        }
    }
}

/// At the end of the walk, the in-flight guarantee over all items is the
/// per-root map update.
proof fn lemma_dir_state_root_update(
    base: Map<Seq<char>, MatlabObject>,
    m: Map<Seq<char>, MatlabObject>,
    l: RootListing,
    items: Seq<WalkItem>,
    rec: bool,
)
    requires
        l matches RootListing::DirRoot { items: iv, .. } && iv@ == items,
        dir_state(base, m, items, rec, items.len() as int),
    ensures
        root_update(base, m, l, rec),
{
    let n = items.len() as int;
    assert(forall|j: int| #![trigger lsel(l, rec, j)]
        lsel(l, rec, j) <==> (0 <= j < n && item_selected(items[j], rec)));
    assert(forall|j: int|
        0 <= j < n && item_selected(#[trigger] items[j], rec) ==> lsel_name(l, j) == item_name(
            items[j],
        ));
    assert forall|k: Seq<char>| lfresh(l, rec, k) <==> prefix_fresh(items, rec, n, k) by {
        if prefix_fresh(items, rec, n, k) {
            assert forall|j: int| #[trigger] lsel(l, rec, j) implies lsel_name(l, j) != k by {
                assert(items[j] == items[j]);
            }
        }
        if lfresh(l, rec, k) {
            assert forall|j: int| #![trigger items[j]]
                0 <= j < n && item_selected(items[j], rec) implies item_name(items[j]) != k by {
                assert(lsel(l, rec, j));
            }
        }
    }
    assert forall|k: Seq<char>| #[trigger]
        m.contains_key(k) <==> (base.contains_key(k) || !lfresh(l, rec, k)) by {
        assert(prefix_fresh(items, rec, n, k) || !prefix_fresh(items, rec, n, k));
        assert(lfresh(l, rec, k) <==> prefix_fresh(items, rec, n, k));
    }
    assert forall|j: int| #[trigger]
        lwins(l, rec, j) implies m.contains_key(lsel_name(l, j)) && parse_matches(
        m[lsel_name(l, j)],
        matlab_cst(lsel_source(l, j))->Some_0,
        lsel_path(l, j),
    ) by {
        assert(prefix_wins(items, rec, n, j)) by {
            assert forall|j2: int| #![trigger items[j2]]
                j < j2 < n && item_selected(items[j2], rec) implies item_name(items[j2])
                    != item_name(items[j]) by {
                assert(lsel(l, rec, j2));
                assert(lsel_name(l, j2) != lsel_name(l, j));
            }
        }
    }
    assert forall|k: Seq<char>|
        base.contains_key(k) && lfresh(l, rec, k) implies #[trigger] m.contains_key(k) && m[k]
            == base[k] by {
        assert(prefix_fresh(items, rec, n, k));
    }
}

impl PathsCollection {
    /// Collects one root into the map, in walk order. A missing root is a
    /// path error; a walker failure or a failed read of a collected file is
    /// an I/O error; every collected file is parsed and inserted under its
    /// object's name, the last write winning.
    fn collect_root(&mut self, listing: &RootListing, recursive: bool) -> (r: Result<
        (),
        MaltError,
    >)
        requires
            old(self).wf(),
        ensures
            final(self).wf(),
            final(self).paths == old(self).paths,
            r is Ok ==> listing_ok(*listing, recursive),
            r is Ok ==> root_update(old(self)@, final(self)@, *listing, recursive),
            r matches Err(e) && e is FilePath ==> *listing is Missing,
            *listing matches RootListing::Missing { path } ==> (r matches Err(e) && e matches
                MaltError::FilePath(m) && m@ == "Path does not exist: "@ + path@),
            r matches Err(e) ==> e is FilePath || e is Io || e is Parse,
            listing_ok(*listing, recursive) ==> r is Ok,
    {
        match listing {
            RootListing::Missing { path } => {
                let mut msg = "Path does not exist: ".to_owned();
                msg.append(path.as_str());
                Err(MaltError::FilePath(msg))
            },
            RootListing::FileRoot { path, source } => {
                let selected = path_has_m_extension(path.as_str()) && !basename_matches(
                    path.as_str(),
                    "Contents.m",
                );
                proof {
                    reveal_strlit("Contents.m");
                    assert(selected == file_root_selected(path@));
                }
                if !selected {
                    proof {
                        assert(forall|ii: int| !lsel(*listing, recursive, ii));
                        assert(forall|k: Seq<char>| lfresh(*listing, recursive, k));
                    }
                    return Ok(());
                }
                match source {
                    Err(m) => Err(MaltError::Io(m.clone())),
                    Ok(bytes) => {
                        let obj = match parse_source(path.as_str(), bytes) {
                            Ok(o) => o,
                            Err(e) => {
                                return Err(e);
                            },
                        };
                        proof {
                            lemma_parse_matches_name(
                                obj,
                                matlab_cst(bytes@)->Some_0,
                                path@,
                            );
                        }
                        self.insert_object(obj);
                        proof {
                            let l = *listing;
                            let nm = lsel_name(l, 0);
                            assert(obj.spec_name() == nm);
                            assert(lsel(l, recursive, 0));
                            assert(forall|ii: int| #[trigger] lsel(l, recursive, ii) ==> ii == 0);
                            assert(!lfresh(l, recursive, nm));
                            assert forall|k: Seq<char>| #[trigger]
                                self@.contains_key(k) <==> (old(self)@.contains_key(k) || !lfresh(
                                l,
                                recursive,
                                k,
                            )) by {
                                if !lfresh(l, recursive, k) {
                                    let ii = choose|ii: int|
                                        #![trigger lsel(l, recursive, ii)]
                                        lsel(l, recursive, ii) && lsel_name(l, ii) == k;
                                    assert(ii == 0);
                                }
                                if k != nm {
                                    assert(lfresh(l, recursive, k)) by {
                                        assert(forall|ii: int|
                                            #![trigger lsel(l, recursive, ii)]
                                            lsel(l, recursive, ii) ==> lsel_name(l, ii) == nm);
                                    }
                                }
                            }
                            assert forall|ii: int| #[trigger]
                                lwins(l, recursive, ii) implies self@.contains_key(
                                lsel_name(l, ii),
                            ) && parse_matches(
                                self@[lsel_name(l, ii)],
                                matlab_cst(lsel_source(l, ii))->Some_0,
                                lsel_path(l, ii),
                            ) by {
                                assert(ii == 0);
                                assert(self@[nm] == obj);
                            }
                            assert forall|k: Seq<char>|
                                old(self)@.contains_key(k) && lfresh(l, recursive, k)
                                    implies #[trigger] self@.contains_key(k) && self@[k] == old(
                                self,
                            )@[k] by {
                                assert(k != nm);
                            }
                        }
                        Ok(())
                    },
                }
            },
            RootListing::DirRoot { path, items } => {
                let n = items.len();
                let mut ii: usize = 0;
                while ii < n
                    invariant
                        self.wf(),
                        self.paths == old(self).paths,
                        n == items@.len(),
                        0 <= ii <= n,
                        *listing matches RootListing::DirRoot { items: itv, .. } && itv@ == items@,
                        forall|j: int| 0 <= j < ii ==> !((#[trigger] items@[j]) is Failure),
                        forall|j: int|
                            0 <= j < ii && item_selected(#[trigger] items@[j], recursive) ==> (
                            items@[j]->File_source matches Ok(b) && matlab_cst(b@) is Some),
                        dir_state(old(self)@, self@, items@, recursive, ii as int),
                    decreases n - ii,
                {
                    let ghost prev = self@;
                    match &items[ii] {
                        WalkItem::Failure { message } => {
                            return Err(MaltError::Io(message.clone()));
                        },
                        WalkItem::Directory { .. } => {
                            proof {
                                assert(!item_selected(items@[ii as int], recursive));
                            }
                        },
                        WalkItem::File { path: fpath, depth, source } => {
                            proof {
                                reveal_strlit("private");
                            }
                            let selected = !path_has_component(fpath.as_str(), "private")
                                && (recursive || *depth <= 1) && path_has_m_extension(
                                fpath.as_str(),
                            ) && !basename_matches(fpath.as_str(), "Contents.m");
                            proof {
                                reveal_strlit("Contents.m");
                                assert(selected == item_selected(items@[ii as int], recursive));
                            }
                            if selected {
                                let bytes = match source {
                                    Err(m) => {
                                        return Err(MaltError::Io(m.clone()));
                                    },
                                    Ok(b) => b,
                                };
                                let obj = match parse_source(fpath.as_str(), bytes) {
                                    Ok(o) => o,
                                    Err(e) => {
                                        return Err(e);
                                    },
                                };
                                proof {
                                    lemma_parse_matches_name(
                                        obj,
                                        matlab_cst(bytes@)->Some_0,
                                        fpath@,
                                    );
                                    assert(obj.spec_name() == item_name(items@[ii as int]));
                                }
                                self.insert_object(obj);
                            }
                        },
                    }
                    proof {
                        lemma_dir_state_step(
                            old(self)@,
                            prev,
                            self@,
                            items@,
                            recursive,
                            ii as int,
                        );
                    }
                    ii += 1;
                }
                proof {
                    lemma_dir_state_root_update(
                        old(self)@,
                        self@,
                        *listing,
                        items@,
                        recursive,
                    );
                }
                Ok(())
            },
        }
    }

    /// Builds the collection from what the walker saw of each root path, in
    /// order. Any missing root, walker failure, failed read of a collected
    /// file or failed parse aborts the whole construction with that error.
    pub fn new(listings: Vec<RootListing>, recursive: bool) -> (r: Result<Self, MaltError>)
        ensures
            r matches Ok(c) ==> {
                &&& c.wf()
                &&& collection_matches(c@, listings@, recursive)
                &&& c.paths@.len() == listings@.len()
                &&& forall|i: int|
                    0 <= i < listings@.len() ==> (#[trigger] c.paths@[i])@ == listing_path(
                        listings@[i],
                    )
                &&& forall|i: int|
                    0 <= i < listings@.len() ==> listing_ok(#[trigger] listings@[i], recursive)
            },
            (forall|i: int|
                0 <= i < listings@.len() ==> listing_ok(#[trigger] listings@[i], recursive))
                ==> r is Ok,
            r matches Err(e) && e is FilePath ==> exists|i: int|
                0 <= i < listings@.len() && (#[trigger] listings@[i]) is Missing,
            (exists|i: int| 0 <= i < listings@.len() && (#[trigger] listings@[i]) is Missing)
                ==> r is Err,
            listings@.len() > 0 ==> (listings@[0] matches RootListing::Missing { path } ==> (r
                matches Err(e) && e matches MaltError::FilePath(m) && m@
                == "Path does not exist: "@ + path@)),
            r matches Err(e) ==> e is FilePath || e is Io || e is Parse,
    {
        let mut c = PathsCollection { paths: Vec::new(), objects: Vec::new() };
        let n = listings.len();
        let mut i: usize = 0;
        while i < n
            invariant
                n == listings@.len(),
                0 <= i <= n,
                c.objects@.len() == 0,
                c.paths@.len() == i,
                forall|j: int|
                    0 <= j < i ==> (#[trigger] c.paths@[j])@ == listing_path(listings@[j]),
            decreases n - i,
        {
            c.paths.push(listing_path_of(&listings[i]));
            i += 1;
        }
        let ghost paths0 = c.paths@;
        assert(forall|k: Seq<char>| !c@.contains_key(k));
        let mut li: usize = 0;
        while li < n
            invariant
                n == listings@.len(),
                0 <= li <= n,
                c.wf(),
                c.paths@ == paths0,
                paths0.len() == n,
                forall|j: int| 0 <= j < n ==> (#[trigger] paths0[j])@ == listing_path(listings@[j]),
                forall|lj: int|
                    0 <= lj < li ==> listing_ok(#[trigger] listings@[lj], recursive),
                forall|k: Seq<char>| #[trigger]
                    c@.contains_key(k) <==> exists|lj: int, jj: int|
                        0 <= lj < li && #[trigger] lsel(listings@[lj], recursive, jj) && lsel_name(
                            listings@[lj],
                            jj,
                        ) == k,
                forall|lj: int, jj: int|
                    #![trigger lsel(listings@[lj], recursive, jj)]
                    (0 <= lj < li && lsel(listings@[lj], recursive, jj) && (forall|l2: int, j2: int|
                        #![trigger lsel(listings@[l2], recursive, j2)]
                        0 <= l2 < li && lsel(listings@[l2], recursive, j2) && later(lj, jj, l2, j2)
                            ==> lsel_name(listings@[l2], j2) != lsel_name(listings@[lj], jj)))
                        ==> c@.contains_key(lsel_name(listings@[lj], jj)) && parse_matches(
                        c@[lsel_name(listings@[lj], jj)],
                        matlab_cst(lsel_source(listings@[lj], jj))->Some_0,
                        lsel_path(listings@[lj], jj),
                    ),
            decreases n - li,
        {
            let ghost prev = c@;
            let ghost lis = li as int;
            match c.collect_root(&listings[li], recursive) {
                Ok(()) => {},
                Err(e) => {
                    proof {
                        if e is FilePath {
                            assert(listings@[lis] is Missing);
                        }
                        // the first root can only have failed first
                        if listings@[0] is Missing {
                            if lis > 0 {
                                assert(listing_ok(listings@[0], recursive));
                            }
                            assert(lis == 0);
                        }
                    }
                    return Err(e);
                },
            }
            proof {
                let l = listings@[lis];
                // key set after one more root
                assert forall|k: Seq<char>| #[trigger]
                    c@.contains_key(k) <==> exists|lj: int, jj: int|
                        0 <= lj < lis + 1 && #[trigger] lsel(listings@[lj], recursive, jj)
                            && lsel_name(listings@[lj], jj) == k by {
                    if c@.contains_key(k) {
                        if prev.contains_key(k) {
                            let (lj, jj) = choose|lj: int, jj: int|
                                0 <= lj < lis && #[trigger] lsel(listings@[lj], recursive, jj)
                                    && lsel_name(listings@[lj], jj) == k;
                            assert(lsel(listings@[lj], recursive, jj));
                        } else {
                            assert(!lfresh(l, recursive, k));
                            let jj = choose|jj: int|
                                #![trigger lsel(l, recursive, jj)]
                                lsel(l, recursive, jj) && lsel_name(l, jj) == k;
                            assert(lsel(listings@[lis], recursive, jj));
                        }
                    }
                    if exists|lj: int, jj: int|
                        0 <= lj < lis + 1 && #[trigger] lsel(listings@[lj], recursive, jj)
                            && lsel_name(listings@[lj], jj) == k {
                        let (lj, jj) = choose|lj: int, jj: int|
                            0 <= lj < lis + 1 && #[trigger] lsel(listings@[lj], recursive, jj)
                                && lsel_name(listings@[lj], jj) == k;
                        if lj == lis {
                            assert(!lfresh(l, recursive, k));
                        } else {
                            assert(prev.contains_key(k));
                        }
                    }
                }
                // winners after one more root
                assert forall|lj: int, jj: int|
                    #![trigger lsel(listings@[lj], recursive, jj)]
                    (0 <= lj < lis + 1 && lsel(listings@[lj], recursive, jj) && (forall|
                        l2: int,
                        j2: int,
                    |
                        #![trigger lsel(listings@[l2], recursive, j2)]
                        0 <= l2 < lis + 1 && lsel(listings@[l2], recursive, j2) && later(
                            lj,
                            jj,
                            l2,
                            j2,
                        ) ==> lsel_name(listings@[l2], j2) != lsel_name(listings@[lj], jj)))
                        implies c@.contains_key(lsel_name(listings@[lj], jj)) && parse_matches(
                    c@[lsel_name(listings@[lj], jj)],
                    matlab_cst(lsel_source(listings@[lj], jj))->Some_0,
                    lsel_path(listings@[lj], jj),
                ) by {
                    let k = lsel_name(listings@[lj], jj);
                    if lj == lis {
                        assert(lwins(l, recursive, jj)) by {
                            assert forall|j2: int|
                                #![trigger lsel(l, recursive, j2)]
                                lsel(l, recursive, j2) && j2 > jj implies lsel_name(l, j2)
                                    != lsel_name(l, jj) by {
                                assert(lsel(listings@[lis], recursive, j2));
                                assert(later(lj, jj, lis, j2));
                            }
                        }
                    } else {
                        // the earlier winner's name is fresh for this root
                        assert(lfresh(l, recursive, k)) by {
                            assert forall|j2: int| #[trigger]
                                lsel(l, recursive, j2) implies lsel_name(l, j2) != k by {
                                assert(lsel(listings@[lis], recursive, j2));
                                assert(later(lj, jj, lis, j2));
                            }
                        }
                        assert(prev.contains_key(k)) by {
                            assert(lsel(listings@[lj], recursive, jj));
                        }
                        assert(c@.contains_key(k));
                        assert(c@[k] == prev[k]);
                    }
                }
            }
            li += 1;
        }
        proof {
            assert forall|li2: int, ii2: int| #[trigger]
                sel(listings@, recursive, li2, ii2) implies c@.contains_key(
                sel_name(listings@, li2, ii2),
            ) by {
                assert(lsel(listings@[li2], recursive, ii2));
            }
            assert forall|k: Seq<char>| #[trigger]
                c@.contains_key(k) implies exists|li2: int, ii2: int|
                #![trigger sel(listings@, recursive, li2, ii2)]
                sel(listings@, recursive, li2, ii2) && sel_name(listings@, li2, ii2) == k by {
                let (lj, jj) = choose|lj: int, jj: int|
                    0 <= lj < n && #[trigger] lsel(listings@[lj], recursive, jj) && lsel_name(
                        listings@[lj],
                        jj,
                    ) == k;
                assert(sel(listings@, recursive, lj, jj) && sel_name(listings@, lj, jj) == k);
            }
            assert forall|li2: int, ii2: int| #[trigger]
                wins(listings@, recursive, li2, ii2) implies parse_matches(
                c@[sel_name(listings@, li2, ii2)],
                matlab_cst(lsel_source(listings@[li2], ii2))->Some_0,
                lsel_path(listings@[li2], ii2),
            ) by {
                assert(lsel(listings@[li2], recursive, ii2));
                assert forall|l2: int, j2: int|
                    #![trigger lsel(listings@[l2], recursive, j2)]
                    0 <= l2 < n && lsel(listings@[l2], recursive, j2) && later(li2, ii2, l2, j2)
                        implies lsel_name(listings@[l2], j2) != lsel_name(listings@[li2], ii2) by {
                    assert(sel(listings@, recursive, l2, j2));
                }
            }
        }
        Ok(c)
    }
}

/// The names of a stored chain, as character sequences.
pub open spec fn chain_views(chain: Seq<String>) -> Seq<Seq<char>> {
    chain.map_values(|s: String| s@)
}

/// `names` walks the collection by aliases: every entry but the last is an
/// alias in the map whose dotted target is the next entry.
pub open spec fn alias_chain(m: Map<Seq<char>, MatlabObject>, names: Seq<Seq<char>>) -> bool {
    forall|i: int|
        #![trigger names[i]]
        0 <= i < names.len() - 1 ==> m.contains_key(names[i]) && (m[names[i]]
            matches MatlabObject::Alias(a) && a.target_path@ == names[i + 1])
}

/// A name at which an alias walk stops: absent, or present and no alias.
pub open spec fn chain_terminal(m: Map<Seq<char>, MatlabObject>, k: Seq<char>) -> bool {
    !m.contains_key(k) || !(m[k] is Alias)
}

proof fn lemma_chain_agree(
    m: Map<Seq<char>, MatlabObject>,
    a: Seq<Seq<char>>,
    b: Seq<Seq<char>>,
    i: int,
)
    requires
        alias_chain(m, a),
        alias_chain(m, b),
        a.len() >= 1 && b.len() >= 1,
        a[0] == b[0],
        0 <= i < a.len(),
        i < b.len(),
    ensures
        a[i] == b[i],
    decreases i,
{
    if i > 0 {
        lemma_chain_agree(m, a, b, i - 1);
    }
}

/// Alias chains without repetition resolve deterministically: two alias
/// chains from the same starting name that both stop at a terminal name are
/// the same chain, entry for entry — so the final target is a function of
/// the collection and the starting name alone.
pub proof fn lemma_alias_chain_deterministic(
    m: Map<Seq<char>, MatlabObject>,
    a: Seq<Seq<char>>,
    b: Seq<Seq<char>>,
)
    requires
        alias_chain(m, a),
        alias_chain(m, b),
        a.len() >= 1 && b.len() >= 1,
        a[0] == b[0],
        chain_terminal(m, a.last()),
        chain_terminal(m, b.last()),
    ensures
        a == b,
{
    if a.len() <= b.len() {
        lemma_chain_agree(m, a, b, a.len() - 1);
        if a.len() < b.len() {
            assert(b[a.len() - 1] == a.last());
        }
        assert(a.len() == b.len());
        assert forall|i: int| 0 <= i < a.len() implies a[i] == b[i] by {
            lemma_chain_agree(m, a, b, i);
        }
        assert(a =~= b);
    } else {
        lemma_chain_agree(m, b, a, b.len() - 1);
        assert(a[b.len() - 1] == b.last());
        assert(a.len() == b.len());
    }
}

/// Distinct names that are all keys of the collection are no more numerous
/// than its entries.
proof fn lemma_distinct_keys_bound(c: &PathsCollection, names: Seq<Seq<char>>)
    requires
        c.wf(),
        names.no_duplicates(),
        forall|i: int| 0 <= i < names.len() ==> c@.contains_key(#[trigger] names[i]),
    ensures
        names.len() <= c.objects@.len(),
{
    broadcast use vstd::set::group_set_axioms;
    broadcast use vstd::seq_lib::seq_to_set_is_finite;

    let keyseq = c.objects@.map_values(|p: (String, MatlabObject)| p.0@);
    let keys = keyseq.to_set();
    names.unique_seq_to_set();
    assert forall|k: Seq<char>| names.to_set().contains(k) implies keys.contains(k) by {
        assert(names.contains(k));
        let i = choose|i: int| 0 <= i < names.len() && names[i] == k;
        assert(c@.contains_key(names[i]));
        let j = choose|j: int| 0 <= j < c.objects@.len() && (#[trigger] c.objects@[j]).0@ == k;
        assert(keyseq[j] == k);
        assert(keyseq.contains(k));
    }
    vstd::set_lib::lemma_len_subset(names.to_set(), keys);
    keyseq.lemma_cardinality_of_set();
}

impl PathsCollection {
    /// Whether any stored name of `chain` equals `t`.
    fn chain_contains(chain: &Vec<String>, t: &str) -> (r: bool)
        ensures
            r == exists|i: int| 0 <= i < chain@.len() && (#[trigger] chain@[i])@ == t@,
    {
        let n = chain.len();
        let mut i: usize = 0;
        while i < n
            invariant
                n == chain@.len(),
                0 <= i <= n,
                forall|j: int| 0 <= j < i ==> (#[trigger] chain@[j])@ != t@,
            decreases n - i,
        {
            if str_eq(chain[i].as_str(), t) {
                return true;
            }
            i += 1;
        }
        false
    }

    /// Follows the alias chain starting at `name` until a non-alias object,
    /// which it returns. A name absent from the collection is a resolution
    /// error; a name revisited along the chain is a cyclic-alias error
    /// carrying the visited names in order, the revisited one last.
    #[verifier::rlimit(100)]
    pub fn resolve_alias(&self, name: &str) -> (r: Result<&MatlabObject, MaltError>)
        requires
            self.wf(),
        ensures
            r matches Ok(obj) ==> exists|names: Seq<Seq<char>>|
                #![trigger alias_chain(self@, names)]
                {
                    &&& alias_chain(self@, names)
                    &&& names.len() >= 1 && names[0] == name@
                    &&& names.no_duplicates()
                    &&& self@.contains_key(names.last())
                    &&& *obj == self@[names.last()]
                    &&& !(*obj is Alias)
                },
            r matches Err(e) && e is NameResolution ==> exists|names: Seq<Seq<char>>|
                #![trigger alias_chain(self@, names)]
                {
                    &&& alias_chain(self@, names)
                    &&& names.len() >= 1 && names[0] == name@
                    &&& names.no_duplicates()
                    &&& !self@.contains_key(names.last())
                },
            r matches Err(e) ==> (e matches MaltError::CyclicAlias { chain } ==> {
                &&& alias_chain(self@, chain_views(chain@))
                &&& chain_views(chain@).len() >= 2
                &&& chain_views(chain@)[0] == name@
                &&& chain_views(chain@).drop_last().no_duplicates()
                &&& exists|t: int|
                    0 <= t < chain_views(chain@).len() - 1 && chain_views(chain@)[t]
                        == chain_views(chain@).last()
            }),
            r matches Err(e) ==> e is NameResolution || e is CyclicAlias,
    {
        let mut chain: Vec<String> = Vec::new();
        chain.push(name.to_owned());
        let ghost mut names: Seq<Seq<char>> = seq![name@];
        loop
            invariant
                self.wf(),
                names.len() == chain@.len(),
                forall|i: int| 0 <= i < names.len() ==> (#[trigger] chain@[i])@ == names[i],
                1 <= names.len() <= self.objects@.len() + 1,
                names[0] == name@,
                names.no_duplicates(),
                alias_chain(self@, names),
            decreases self.objects@.len() + 1 - names.len(),
        {
            let cur: &String = &chain[chain.len() - 1];
            proof {
                assert(cur@ == names.last());
            }
            let obj = match self.get(cur.as_str()) {
                None => {
                    let mut msg = "Name not found: ".to_owned();
                    msg.append(cur.as_str());
                    proof {
                        assert(!self@.contains_key(names.last()));
                        assert(alias_chain(self@, names));
                    }
                    return Err(MaltError::NameResolution(msg));
                },
                Some(o) => o,
            };
            match obj {
                MatlabObject::Alias(a) => {
                    let t = a.target_path.clone();
                    proof {
                        assert(self@.contains_key(names.last()) && (self@[names.last()]
                            matches MatlabObject::Alias(al) && al.target_path@ == t@));
                    }
                    let revisits = Self::chain_contains(&chain, t.as_str());
                    let ghost rw: int = if revisits {
                        choose|i: int| 0 <= i < chain@.len() && (#[trigger] chain@[i])@ == t@
                    } else {
                        0int
                    };
                    proof {
                        if revisits {
                            assert(names[rw] == t@);
                        } else {
                            assert forall|i: int|
                                0 <= i < names.len() implies #[trigger] names[i] != t@ by {
                                assert(chain@[i]@ == names[i]);
                            }
                        }
                    }
                    chain.push(t);
                    let ghost names0 = names;
                    proof {
                        names = names.push(t@);
                        assert(names.drop_last() =~= names0);
                        assert forall|i: int|
                            0 <= i < names.len() - 1 implies self@.contains_key(
                            #[trigger] names[i],
                        ) && (self@[names[i]] matches MatlabObject::Alias(al) && al.target_path@
                            == names[i + 1]) by {
                            assert(names[i] == names0[i]);
                            if i < names0.len() - 1 {
                                assert(names0[i + 1] == names[i + 1]);
                            }
                        }
                    }
                    if revisits {
                        proof {
                            assert(chain_views(chain@) =~= names);
                            assert(names[rw] == names.last());
                        }
                        return Err(MaltError::CyclicAlias { chain });
                    }
                    proof {
                        // every visited name so far is a key and the new one
                        // is fresh, so the walk cannot outgrow the collection
                        assert forall|i: int|
                            0 <= i < names0.len() implies self@.contains_key(
                            #[trigger] names0[i],
                        ) by {
                            if i == names0.len() - 1 {
                                assert(names0[i] == names0.last());
                            }
                        }
                        lemma_distinct_keys_bound(self, names0);
                        assert(names.no_duplicates()) by {
                            assert(forall|i: int| 0 <= i < names0.len() ==> #[trigger] names0[i]
                                != t@);
                        }
                    }
                },
                _ => {
                    proof {
                        assert(self@.contains_key(names.last()));
                        assert(!(self@[names.last()] is Alias));
                    }
                    return Ok(obj);
                },
            }
        }
    }
}

/// Collecting a directory recursively includes every collected file at any
/// depth: each selected walk entry's parsed name is a key of the collection.
pub proof fn lemma_recursive_collection_complete(
    m: Map<Seq<char>, MatlabObject>,
    listings: Seq<RootListing>,
    li: int,
    ii: int,
)
    requires
        collection_matches(m, listings, true),
        sel(listings, true, li, ii),
    ensures
        m.contains_key(sel_name(listings, li, ii)),
{
}

/// A file under a path component named `private` is never collected, at any
/// depth, recursive or not.
pub proof fn lemma_private_never_selected(it: WalkItem, rec: bool)
    requires
        it matches WalkItem::File { path, .. } && has_component(path@, "private"@),
    ensures
        !item_selected(it, rec),
{
}

/// A non-recursive collection selects walk entries at depth one or less
/// only, and every collected file of such a walk is at depth one or less.
pub proof fn lemma_nonrecursive_depth_limited(it: WalkItem)
    requires
        item_selected(it, false),
    ensures
        it matches WalkItem::File { depth, .. } && depth <= 1,
{
}

/// The reserved listing file is excluded at every depth, recursive or not,
/// and as a single-file root.
pub proof fn lemma_contents_file_never_selected(it: WalkItem, rec: bool, root: Seq<char>)
    requires
        it matches WalkItem::File { path, .. } && basename(path@) == "Contents.m"@,
        basename(root) == "Contents.m"@,
    ensures
        !item_selected(it, rec),
        !file_root_selected(root),
{
}

fn listing_path_of(l: &RootListing) -> (r: String)
    ensures
        r@ == listing_path(*l),
{
    match l {
        RootListing::Missing { path } => path.clone(),
        RootListing::FileRoot { path, .. } => path.clone(),
        RootListing::DirRoot { path, .. } => path.clone(),
    }
}

/// Whether a path names a namespace folder: its base name starts with the
/// package prefix `+`.
pub fn is_namespace(path: &str) -> (r: bool)
    ensures
        r == (basename(path@).len() > 0 && basename(path@)[0] == '+'),
{
    first_of_basename_is(path, '+')
}

/// Whether a path names a class-folder bundle: its base name starts with the
/// class prefix `@`.
pub fn is_class_folder(path: &str) -> (r: bool)
    ensures
        r == (basename(path@).len() > 0 && basename(path@)[0] == '@'),
{
    first_of_basename_is(path, '@')
}

fn first_of_basename_is(path: &str, c: char) -> (r: bool)
    ensures
        r == (basename(path@).len() > 0 && basename(path@)[0] == c),
{
    proof {
        crate::paths::lemma_last_index_of(path@, '/');
    }
    let n = path.unicode_len();
    let bstart = match crate::paths::find_last_char(path, '/') {
        Some(li) => li + 1,
        None => 0,
    };
    proof {
        assert(basename(path@) =~= path@.subrange(bstart as int, n as int));
    }
    if bstart == n {
        return false;
    }
    path.get_char(bstart) == c
}

} // verus!
