//! Catalogs of duplicate-candidate books, and the ordered table of picks.

use vstd::prelude::*;

verus! {

/// One page of a book.
pub struct Page {
    pub path: String,
    pub name: String,
    /// Size on disk in bytes.
    pub len: u64,
}

/// A candidate book: a directory of pages.
pub struct Book {
    pub dir: String,
    pub name: String,
    pub pages: Vec<Page>,
    /// Page numbers seen in the scan, to show gaps and duplicates.
    pub numbers: std::collections::BTreeSet<u32>,
}

/// Sum of the page sizes.
pub open spec fn total_len(pages: Seq<Page>) -> nat
    decreases pages.len(),
{
    if pages.len() == 0 {
        0
    } else {
        total_len(pages.drop_last()) + pages.last().len as nat
    }
}

impl Book {
    /// The key books sort by: name, then directory.
    pub fn key(&self) -> (r: (&str, &str))
        ensures
            r.0@ == self.name@,
            r.1@ == self.dir@,
    {
        (self.name.as_str(), self.dir.as_str())
    }

    /// Total size of all pages in bytes.
    pub fn bytes(&self) -> (r: u64)
        requires
            total_len(self.pages@) <= u64::MAX,
        ensures
            r == total_len(self.pages@),
    {
        let mut sum: u64 = 0;
        let mut i: usize = 0;
        while i < self.pages.len()
            invariant
                i <= self.pages@.len(),
                sum == total_len(self.pages@.take(i as int)),
                total_len(self.pages@) <= u64::MAX,
            decreases self.pages@.len() - i,
        {
            assert(self.pages@.take(i + 1).drop_last() =~= self.pages@.take(i as int));
            proof {
                lemma_total_prefix(self.pages@, i + 1);
            }
            sum = sum + self.pages[i].len;
            i = i + 1;
        }
        assert(self.pages@.take(i as int) =~= self.pages@);
        sum
    }
}

proof fn lemma_total_prefix(pages: Seq<Page>, k: int)
    requires
        0 <= k <= pages.len(),
    ensures
        total_len(pages.take(k)) <= total_len(pages),
    decreases pages.len() - k,
{
    if k < pages.len() {
        lemma_total_prefix(pages, k + 1);
        assert(pages.take(k + 1).drop_last() =~= pages.take(k));
    } else {
        assert(pages.take(k) =~= pages);
    }
}

/// A group of duplicate candidates of which exactly one is to be picked.
pub struct Catalog {
    /// Identity of the catalog, unique across a scan.
    pub number: u32,
    pub books: Vec<Book>,
    /// Index of the picked book.
    pub picked: Option<usize>,
}

impl Catalog {
    /// The picked index, if any, is an index of `books`.
    pub open spec fn wf(&self) -> bool {
        self.picked matches Some(i) ==> i < self.books@.len()
    }

    /// Returns the selected book, if any.
    pub fn selected(&self) -> (r: Option<&Book>)
        ensures
            r is Some <==> (self.picked matches Some(i) && i < self.books@.len()),
            r matches Some(b) ==> *b == self.books@[self.picked->0 as int],
    {
        match self.picked {
            Some(i) => if i < self.books.len() {
                Some(&self.books[i])
            } else {
                None
            },
            None => None,
        }
    }
}

/// Number of catalogs with a picked book.
pub open spec fn count_picked(cs: Seq<Catalog>) -> nat
    decreases cs.len(),
{
    if cs.len() == 0 {
        0
    } else {
        count_picked(cs.drop_last()) + if cs.last().picked is Some {
            1nat
        } else {
            0nat
        }
    }
}

/// The scanned catalogs.
pub struct State {
    pub name: Option<String>,
    pub names: std::collections::BTreeSet<String>,
    pub catalogs: Vec<Catalog>,
}

impl State {
    /// Counts the catalogs which have a picked book.
    pub fn picked(&self) -> (r: usize)
        ensures
            r == count_picked(self.catalogs@),
    {
        let mut n: usize = 0;
        let mut i: usize = 0;
        while i < self.catalogs.len()
            invariant
                i <= self.catalogs@.len(),
                n == count_picked(self.catalogs@.take(i as int)),
                n <= i,
            decreases self.catalogs@.len() - i,
        {
            assert(self.catalogs@.take(i + 1).drop_last() =~= self.catalogs@.take(i as int));
            if self.catalogs[i].picked.is_some() {
                n = n + 1;
            }
            i = i + 1;
        }
        assert(self.catalogs@.take(i as int) =~= self.catalogs@);
        n
    }
}

/// `k` is the largest key of `m` below `n`.
pub open spec fn is_before(m: Map<u32, usize>, n: u32, k: u32) -> bool {
    &&& m.contains_key(k)
    &&& k < n
    &&& forall|j: u32| #[trigger] m.contains_key(j) && j < n ==> j <= k
}

/// `k` is the smallest key of `m` above `n`.
pub open spec fn is_after(m: Map<u32, usize>, n: u32, k: u32) -> bool {
    &&& m.contains_key(k)
    &&& n < k
    &&& forall|j: u32| #[trigger] m.contains_key(j) && n < j ==> k <= j
}

/// `k` is the smallest key of `m`.
pub open spec fn is_first(m: Map<u32, usize>, k: u32) -> bool {
    &&& m.contains_key(k)
    &&& forall|j: u32| #[trigger] m.contains_key(j) ==> k <= j
}

/// The picks made so far: for each resolved catalog number, the index of its
/// chosen book. Kept in order of catalog number.
pub struct PickTable {
    entries: Vec<(u32, usize)>,
    map: Ghost<Map<u32, usize>>,
}

impl View for PickTable {
    type V = Map<u32, usize>;

    closed spec fn view(&self) -> Map<u32, usize> {
        self.map@
    }
}

impl PickTable {
    /// Entries strictly ordered by number, and exactly those of the map.
    pub closed spec fn wf(&self) -> bool {
        let e = self.entries@;
        &&& forall|i: int, j: int| 0 <= i < j < e.len() ==> e[i].0 < e[j].0
        &&& forall|i: int|
            0 <= i < e.len() ==> self.map@.contains_key(#[trigger] e[i].0) && self.map@[e[i].0]
                == e[i].1
        &&& forall|k: u32| #[trigger]
            self.map@.contains_key(k) ==> exists|i: int| 0 <= i < e.len() && e[i].0 == k
    }

    /// An empty table.
    pub fn new() -> (r: Self)
        ensures
            r.wf(),
            r@ == Map::<u32, usize>::empty(),
    {
        PickTable { entries: Vec::new(), map: Ghost(Map::empty()) }
    }

    /// Number of resolved catalogs.
    pub fn len(&self) -> (r: usize)
        requires
            self.wf(),
        ensures
            r == self@.len(),
    {
        proof {
            self.lemma_dom();
        }
        self.entries.len()
    }

    /// Whether no catalog is resolved.
    pub fn is_empty(&self) -> (r: bool)
        requires
            self.wf(),
        ensures
            r == (self@.len() == 0),
    {
        self.len() == 0
    }

    proof fn lemma_dom(&self)
        requires
            self.wf(),
        ensures
            self@.dom() == self.entries@.map_values(|e: (u32, usize)| e.0).to_set(),
            self@.len() == self.entries@.len(),
    {
        let e = self.entries@;
        let keys = e.map_values(|x: (u32, usize)| x.0);
        assert forall|k: u32| #[trigger] self@.dom().contains(k) <==> keys.to_set().contains(k) by {
            if self@.dom().contains(k) {
                let i = choose|i: int| 0 <= i < e.len() && e[i].0 == k;
                assert(keys[i] == k);
            }
            if keys.to_set().contains(k) {
                let i = choose|i: int| 0 <= i < keys.len() && keys[i] == k;
                assert(self.map@.contains_key(e[i].0));
            }
        }
        assert(self@.dom() =~= keys.to_set());
        assert(keys.no_duplicates()) by {
            assert forall|i: int, j: int| 0 <= i < keys.len() && 0 <= j < keys.len() && i != j
                implies keys[i] != keys[j] by {
                if i < j {
                    assert(e[i].0 < e[j].0);
                } else {
                    assert(e[j].0 < e[i].0);
                }
            }
        }
        keys.unique_seq_to_set();
    }

    /// Index of the first entry whose number is at least `n`.
    fn lower_bound(&self, n: u32) -> (p: usize)
        requires
            self.wf(),
        ensures
            p <= self.entries@.len(),
            forall|i: int| 0 <= i < p ==> self.entries@[i].0 < n,
            forall|i: int| p <= i < self.entries@.len() ==> self.entries@[i].0 >= n,
    {
        let mut p: usize = 0;
        while p < self.entries.len() && self.entries[p].0 < n
            invariant
                self.wf(),
                p <= self.entries@.len(),
                forall|i: int| 0 <= i < p ==> self.entries@[i].0 < n,
            decreases self.entries@.len() - p,
        {
            p = p + 1;
        }
        proof {
            assert forall|i: int| p <= i < self.entries@.len() implies self.entries@[i].0 >= n by {
                if i > p {
                    assert(self.entries@[p as int].0 < self.entries@[i].0);
                }
            }
        }
        p
    }

    /// The chosen book of catalog `n`, if it is resolved.
    pub fn get(&self, n: u32) -> (r: Option<usize>)
        requires
            self.wf(),
        ensures
            r == (if self@.contains_key(n) {
                Some(self@[n])
            } else {
                None
            }),
    {
        let p = self.lower_bound(n);
        if p < self.entries.len() && self.entries[p].0 == n {
            Some(self.entries[p].1)
        } else {
            proof {
                if self@.contains_key(n) {
                    let i = choose|i: int| 0 <= i < self.entries@.len() && self.entries@[i].0 == n;
                    if i > p {
                        assert(self.entries@[p as int].0 < self.entries@[i].0);
                    }
                }
            }
            None
        }
    }

    /// Records book `b` as the pick of catalog `n`.
    pub fn insert(&mut self, n: u32, b: usize)
        requires
            old(self).wf(),
        ensures
            final(self).wf(),
            final(self)@ == old(self)@.insert(n, b),
    {
        let p = self.lower_bound(n);
        let ghost old_e = self.entries@;
        let ghost m = self.map@.insert(n, b);
        if p < self.entries.len() && self.entries[p].0 == n {
            self.entries.set(p, (n, b));
            self.map = Ghost(m);
            proof {
                let e = self.entries@;
                assert forall|k: u32| #[trigger] m.contains_key(k) implies exists|i: int|
                    0 <= i < e.len() && e[i].0 == k by {
                    if k == n {
                        assert(e[p as int].0 == k);
                    } else {
                        let i = choose|i: int| 0 <= i < old_e.len() && old_e[i].0 == k;
                        assert(e[i].0 == k);
                    }
                }
                assert forall|i: int| 0 <= i < e.len() implies m.contains_key(#[trigger] e[i].0)
                    && m[e[i].0] == e[i].1 by {
                    if i != p {
                        assert(e[i] == old_e[i]);
                        assert(old_e[i].0 != n);
                    }
                }
            }
        } else {
            self.entries.insert(p, (n, b));
            self.map = Ghost(m);
            proof {
                let e = self.entries@;
                assert(e =~= old_e.insert(p as int, (n, b)));
                assert forall|i: int| 0 <= i < e.len() implies #[trigger] e[i] == (if i < p {
                    old_e[i]
                } else if i == p {
                    (n, b)
                } else {
                    old_e[i - 1]
                }) by {}
                assert forall|i: int, j: int| 0 <= i < j < e.len() implies e[i].0 < e[j].0 by {
                    if j == p {
                        assert(e[i] == old_e[i]);
                    } else if i == p {
                        assert(e[j] == old_e[j - 1]);
                    } else if i < p && j > p {
                        assert(e[i] == old_e[i]);
                        assert(e[j] == old_e[j - 1]);
                    }
                }
                assert forall|k: u32| #[trigger] m.contains_key(k) implies exists|i: int|
                    0 <= i < e.len() && e[i].0 == k by {
                    if k == n {
                        assert(e[p as int].0 == k);
                    } else {
                        let i = choose|i: int| 0 <= i < old_e.len() && old_e[i].0 == k;
                        if i < p {
                            assert(e[i].0 == k);
                        } else {
                            assert(e[i + 1].0 == k);
                        }
                    }
                }
                assert forall|i: int| 0 <= i < e.len() implies m.contains_key(#[trigger] e[i].0)
                    && m[e[i].0] == e[i].1 by {
                    if i < p {
                        assert(e[i] == old_e[i]);
                    } else if i > p {
                        assert(e[i] == old_e[i - 1]);
                        assert(old_e[i - 1].0 >= n);
                        if p < old_e.len() {
                            assert(old_e[p as int].0 != n);
                            if i - 1 > p {
                                assert(old_e[p as int].0 < old_e[i - 1].0);
                            }
                        }
                    }
                }
            }
        }
    }

    /// Forgets the pick of catalog `n`.
    pub fn remove(&mut self, n: u32)
        requires
            old(self).wf(),
        ensures
            final(self).wf(),
            final(self)@ == old(self)@.remove(n),
    {
        let p = self.lower_bound(n);
        let ghost old_e = self.entries@;
        let ghost m = self.map@.remove(n);
        if p < self.entries.len() && self.entries[p].0 == n {
            self.entries.remove(p);
            self.map = Ghost(m);
            proof {
                let e = self.entries@;
                assert(e =~= old_e.remove(p as int));
                assert forall|i: int, j: int| 0 <= i < j < e.len() implies e[i].0 < e[j].0 by {
                    if i < p && j >= p {
                        assert(e[j] == old_e[j + 1]);
                    } else if i >= p {
                        assert(e[j] == old_e[j + 1]);
                        assert(e[i] == old_e[i + 1]);
                    }
                }
                assert forall|k: u32| #[trigger] m.contains_key(k) implies exists|i: int|
                    0 <= i < e.len() && e[i].0 == k by {
                    let i = choose|i: int| 0 <= i < old_e.len() && old_e[i].0 == k;
                    if i < p {
                        assert(e[i].0 == k);
                    } else {
                        assert(i != p);
                        assert(e[i - 1].0 == k);
                    }
                }
                assert forall|i: int| 0 <= i < e.len() implies m.contains_key(#[trigger] e[i].0)
                    && m[e[i].0] == e[i].1 by {
                    if i < p {
                        assert(e[i] == old_e[i]);
                    } else {
                        assert(e[i] == old_e[i + 1]);
                        assert(old_e[p as int].0 < old_e[i + 1].0);
                    }
                }
            }
        } else {
            proof {
                if self.map@.contains_key(n) {
                    let i = choose|i: int| 0 <= i < old_e.len() && old_e[i].0 == n;
                    if i > p {
                        assert(old_e[p as int].0 < old_e[i].0);
                    }
                }
                assert(m =~= self.map@);
            }
        }
    }

    /// The resolved catalog number just below `n`.
    pub fn before(&self, n: u32) -> (r: Option<u32>)
        requires
            self.wf(),
        ensures
            r matches Some(k) ==> is_before(self@, n, k),
            r is None ==> forall|j: u32| #[trigger] self@.contains_key(j) ==> j >= n,
    {
        let p = self.lower_bound(n);
        proof {
            assert forall|j: u32| #[trigger] self@.contains_key(j) && j < n implies p > 0 && j
                <= self.entries@[p - 1].0 by {
                let i = choose|i: int| 0 <= i < self.entries@.len() && self.entries@[i].0 == j;
                if i < p - 1 {
                    assert(self.entries@[i].0 < self.entries@[p - 1].0);
                }
            }
        }
        if p > 0 {
            Some(self.entries[p - 1].0)
        } else {
            None
        }
    }

    /// The resolved catalog number just above `n`.
    pub fn after(&self, n: u32) -> (r: Option<u32>)
        requires
            self.wf(),
        ensures
            r matches Some(k) ==> is_after(self@, n, k),
            r is None ==> forall|j: u32| #[trigger] self@.contains_key(j) ==> j <= n,
    {
        let mut p = self.lower_bound(n);
        if p < self.entries.len() && self.entries[p].0 == n {
            p = p + 1;
        }
        proof {
            assert forall|i: int| p <= i < self.entries@.len() implies self.entries@[i].0 > n by {
                if i > p {
                    assert(self.entries@[p as int].0 < self.entries@[i].0);
                }
            }
            assert forall|j: u32| #[trigger] self@.contains_key(j) && n < j implies p
                < self.entries@.len() && self.entries@[p as int].0 <= j by {
                let i = choose|i: int| 0 <= i < self.entries@.len() && self.entries@[i].0 == j;
                if i > p {
                    assert(self.entries@[p as int].0 < self.entries@[i].0);
                }
            }
        }
        if p < self.entries.len() {
            Some(self.entries[p].0)
        } else {
            None
        }
    }

    /// The smallest resolved catalog number.
    pub fn first(&self) -> (r: Option<u32>)
        requires
            self.wf(),
        ensures
            r matches Some(k) ==> is_first(self@, k),
            r is None ==> self@.dom() == Set::<u32>::empty(),
    {
        if self.entries.len() > 0 {
            proof {
                assert forall|j: u32| #[trigger] self@.contains_key(j) implies self.entries@[0].0
                    <= j by {
                    let i = choose|i: int| 0 <= i < self.entries@.len() && self.entries@[i].0 == j;
                    if i > 0 {
                        assert(self.entries@[0].0 < self.entries@[i].0);
                    }
                }
            }
            Some(self.entries[0].0)
        } else {
            proof {
                assert(self@.dom() =~= Set::<u32>::empty());
            }
            None
        }
    }
}

} // verus!
