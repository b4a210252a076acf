//! The library of books: registration, opening, and eviction of the least
//! recently opened books under count and byte budgets.
use vstd::prelude::*;

use crate::epub::{capped, EpubInfo, BYTES_CAP};
use crate::paths::{
    decimal_string, lemma_some_candidate_free, lemma_suffixed_names_distinct, suffixed_name,
};
use crate::style::Style;

verus! {

broadcast use vstd::std_specs::vec::group_vec_axioms;

/// A point in time: seconds since the Unix epoch and nanoseconds past them.
#[derive(Clone, Copy, Debug, PartialEq, Eq, Structural)]
pub struct Timestamp {
    pub seconds: i64,
    pub nanos: u32,
}

/// The files of one rendition, as handed to a viewer.
#[derive(Clone, Debug)]
pub struct LibraryBookRenditionInfo {
    pub dir_path_from_library_root: String,
    pub file_path_from_library_root: String,
    pub bytes: u64,
}

/// What to launch to open a rendition: the file, and the viewer command when
/// one was chosen (else the system's default opener).
#[derive(Clone, Debug)]
pub struct OpenRequest {
    pub path: String,
    pub browser: Option<String>,
}

impl LibraryBookRenditionInfo {
    /// The rendition's entry file under the library root, with the viewer to
    /// open it with.
    pub fn open_in_browser(&self, library_path: &String, browser: &Option<String>) -> (r: OpenRequest)
        ensures
            r.path@ == crate::paths::path_join(library_path@, self.file_path_from_library_root@),
            crate::style::opt_str(r.browser) == crate::style::opt_str(*browser),
    {
        OpenRequest {
            path: crate::paths::join_path(library_path.as_str(), self.file_path_from_library_root.as_str()),
            browser: match browser {
                Some(b) => Some(b.clone()),
                None => None,
            },
        }
    }
}

/// A book of the library, by its container format.
#[derive(Debug)]
pub enum LibraryBookInfo {
    Epub(EpubInfo),
}

impl LibraryBookInfo {
    pub open spec fn spec_id(&self) -> Seq<char> {
        match self {
            LibraryBookInfo::Epub(e) => e.id@,
        }
    }

    pub open spec fn spec_path(&self) -> Seq<char> {
        match self {
            LibraryBookInfo::Epub(e) => e.path_from_library_root@,
        }
    }

    pub open spec fn spec_last_opened(&self) -> Timestamp {
        match self {
            LibraryBookInfo::Epub(e) => e.last_opened_time,
        }
    }

    pub open spec fn spec_bytes(&self) -> nat {
        match self {
            LibraryBookInfo::Epub(e) => e.spec_bytes(),
        }
    }

    pub fn id(&self) -> (r: &String)
        ensures
            r@ == self.spec_id(),
    {
        match self {
            LibraryBookInfo::Epub(e) => &e.id,
        }
    }

    pub fn path_from_library_root(&self) -> (r: &String)
        ensures
            r@ == self.spec_path(),
    {
        match self {
            LibraryBookInfo::Epub(e) => &e.path_from_library_root,
        }
    }

    pub fn last_opened_time(&self) -> (r: Timestamp)
        ensures
            r == self.spec_last_opened(),
    {
        match self {
            LibraryBookInfo::Epub(e) => e.last_opened_time,
        }
    }

    /// The book's bytes over all its renditions, counted up to `2^64`.
    pub fn size_in_bytes(&self) -> (r: u128)
        ensures
            r == capped(self.spec_bytes()),
    {
        match self {
            LibraryBookInfo::Epub(e) => e.size_in_bytes(),
        }
    }
}

/// All known books, their on-disk root and the index file that records them.
#[derive(Debug)]
pub struct Library {
    pub library_path: String,
    pub index_path: String,
    pub books: Vec<LibraryBookInfo>,
}

/// No two books share an id.
pub open spec fn ids_unique(books: Seq<LibraryBookInfo>) -> bool {
    forall|i: int, j: int|
        0 <= i < books.len() && 0 <= j < books.len() && i != j ==> (#[trigger] books[i].spec_id())
            != (#[trigger] books[j].spec_id())
}

/// The bytes of the first `n` books.
pub open spec fn books_bytes(books: Seq<LibraryBookInfo>, n: int) -> nat
    decreases n,
{
    if n <= 0 || n > books.len() {
        0
    } else {
        books_bytes(books, n - 1) + books[n - 1].spec_bytes()
    }
}

pub open spec fn total_bytes(books: Seq<LibraryBookInfo>) -> nat {
    books_bytes(books, books.len() as int)
}

/// Over a budget: more books than `max_books`, or more bytes than `max_bytes`.
pub open spec fn oversized(books: Seq<LibraryBookInfo>, max_books: Option<usize>, max_bytes: Option<u64>) -> bool {
    (match max_books {
        Some(m) => books.len() > m,
        None => false,
    }) || (match max_bytes {
        Some(m) => total_bytes(books) > m,
        None => false,
    })
}

pub open spec fn is_protected(ids: Seq<String>, b: LibraryBookInfo) -> bool {
    exists|k: int| 0 <= k < ids.len() && (#[trigger] ids[k])@ == b.spec_id()
}

/// The order of eviction: last opened, then larger first, then position.
pub type EvictionKey = (i64, u32, u128, usize);

pub open spec fn key_lt(a: EvictionKey, b: EvictionKey) -> bool {
    a.0 < b.0 || (a.0 == b.0 && (a.1 < b.1 || (a.1 == b.1 && (a.2 < b.2 || (a.2 == b.2 && a.3 < b.3)))))
}

pub open spec fn key_le(a: EvictionKey, b: EvictionKey) -> bool {
    key_lt(a, b) || a == b
}

pub open spec fn eviction_key(b: LibraryBookInfo, i: int) -> EvictionKey {
    (b.spec_last_opened().seconds, b.spec_last_opened().nanos, (BYTES_CAP - capped(b.spec_bytes())) as u128, i as usize)
}

/// The books whose flag is not set, in order.
pub open spec fn kept(books: Seq<LibraryBookInfo>, removed: Seq<bool>) -> Seq<LibraryBookInfo>
    decreases books.len(),
{
    if books.len() == 0 {
        Seq::empty()
    } else if removed[books.len() - 1] {
        kept(books.drop_last(), removed)
    } else {
        kept(books.drop_last(), removed).push(books.last())
    }
}

/// The books whose flag is set, in order.
pub open spec fn dropped(books: Seq<LibraryBookInfo>, removed: Seq<bool>) -> Seq<LibraryBookInfo>
    decreases books.len(),
{
    if books.len() == 0 {
        Seq::empty()
    } else if removed[books.len() - 1] {
        dropped(books.drop_last(), removed).push(books.last())
    } else {
        dropped(books.drop_last(), removed)
    }
}

/// What an eviction that removed the flagged books must satisfy: only
/// unprotected books go; afterwards the budgets hold or every unprotected
/// book is gone; every removed book is staler than every unprotected kept one;
/// nothing goes when the budgets already held; and the library was still over
/// budget before the last removal.
pub open spec fn eviction_ok(
    books: Seq<LibraryBookInfo>,
    removed: Seq<bool>,
    max_books: Option<usize>,
    max_bytes: Option<u64>,
    protected: Seq<String>,
) -> bool {
    &&& removed.len() == books.len()
    &&& forall|i: int| 0 <= i < books.len() && #[trigger] removed[i] ==> !is_protected(protected, books[i])
    &&& (!oversized(kept(books, removed), max_books, max_bytes) || forall|i: int|
        0 <= i < books.len() && !is_protected(protected, books[i]) ==> #[trigger] removed[i])
    &&& forall|i: int, j: int|
        0 <= i < books.len() && 0 <= j < books.len() && #[trigger] removed[i] && !#[trigger] removed[j]
            && !is_protected(protected, books[j]) ==> key_lt(eviction_key(books[i], i), eviction_key(books[j], j))
    &&& (!oversized(books, max_books, max_bytes) ==> forall|i: int| 0 <= i < books.len() ==> !#[trigger] removed[i])
    &&& ((exists|i: int| 0 <= i < books.len() && #[trigger] removed[i]) ==> exists|i: int|
        0 <= i < books.len() && #[trigger] removed[i] && oversized(kept(books, removed.update(i, false)), max_books, max_bytes)
            && forall|j: int| 0 <= j < books.len() && #[trigger] removed[j] ==> key_le(eviction_key(books[j], j), eviction_key(books[i], i)))
}

/// Relies on `itertools::Itertools::sorted_unstable`: the same items in
/// ascending order, tuples compared field by field as `std` orders them.
#[verifier::external_body]
fn sort_keys(v: Vec<EvictionKey>) -> (r: Vec<EvictionKey>)
    ensures
        r@.to_multiset() == v@.to_multiset(),
        forall|i: int, j: int| 0 <= i < j < r.len() ==> key_le(#[trigger] r[i], #[trigger] r[j]),
{
    itertools::Itertools::sorted_unstable(v.into_iter()).collect()
}

/// Relies on `sanitize_filename::sanitize`: a name usable as a file name.
/// What it replaces depends on the platform, so nothing more is stated.
#[verifier::external_body]
fn sanitize(id: &str) -> (r: String) {
    sanitize_filename::sanitize(id)
}

/// A book other than `id` already lives at `dir`.
pub open spec fn path_taken(books: Seq<LibraryBookInfo>, id: Seq<char>, dir: Seq<char>) -> bool {
    exists|i: int| 0 <= i < books.len() && (#[trigger] books[i].spec_path()) == dir && books[i].spec_id() != id
}

/// The first name from `k` on that no other book holds.
pub open spec fn first_free_name(books: Seq<LibraryBookInfo>, id: Seq<char>, stem: Seq<char>, k: nat) -> nat
    decreases books.len() + 2 - k,
{
    if k > books.len() + 1 || !path_taken(books, id, suffixed_name(stem, k)) {
        k
    } else {
        first_free_name(books, id, stem, k + 1)
    }
}

pub open spec fn other_book_paths(books: Seq<LibraryBookInfo>, id: Seq<char>) -> Seq<Seq<char>>
    decreases books.len(),
{
    if books.len() == 0 {
        Seq::empty()
    } else if books.last().spec_id() != id {
        other_book_paths(books.drop_last(), id).push(books.last().spec_path())
    } else {
        other_book_paths(books.drop_last(), id)
    }
}

proof fn lemma_other_book_paths(books: Seq<LibraryBookInfo>, id: Seq<char>, dir: Seq<char>)
    ensures
        other_book_paths(books, id).len() <= books.len(),
        other_book_paths(books, id).contains(dir) == path_taken(books, id, dir),
    decreases books.len(),
{
    if books.len() > 0 {
        let init = books.drop_last();
        lemma_other_book_paths(init, id, dir);
        let last = books.last();
        let oi = other_book_paths(init, id);
        assert(books =~= init.push(last));
        if path_taken(books, id, dir) {
            let i = choose|i: int| 0 <= i < books.len() && (#[trigger] books[i].spec_path()) == dir && books[i].spec_id() != id;
            if i < books.len() - 1 {
                assert(init[i] == books[i]);
                assert(path_taken(init, id, dir));
            }
        }
        if path_taken(init, id, dir) {
            let i = choose|i: int| 0 <= i < init.len() && (#[trigger] init[i].spec_path()) == dir && init[i].spec_id() != id;
            assert(books[i] == init[i]);
        }
        if last.spec_id() != id {
            let p = oi.push(last.spec_path());
            assert(p[oi.len() as int] == last.spec_path());
            if p.contains(dir) {
                let w = choose|w: int| 0 <= w < p.len() && p[w] == dir;
                if w < oi.len() {
                    assert(oi[w] == dir);
                } else {
                    assert(books[books.len() - 1].spec_path() == dir);
                }
            }
            if oi.contains(dir) {
                let w = choose|w: int| 0 <= w < oi.len() && oi[w] == dir;
                assert(p[w] == dir);
            }
        }
    }
}

proof fn lemma_first_free_name(books: Seq<LibraryBookInfo>, id: Seq<char>, stem: Seq<char>, k: nat)
    requires
        1 <= k <= books.len() + 1,
        forall|j: nat| 1 <= j < k ==> path_taken(books, id, #[trigger] suffixed_name(stem, j)),
    ensures
        first_free_name(books, id, stem, k) <= books.len() + 1,
        !path_taken(books, id, suffixed_name(stem, first_free_name(books, id, stem, k))),
    decreases books.len() + 2 - k,
{
    if path_taken(books, id, suffixed_name(stem, k)) {
        if k == books.len() + 1 {
            let taken = other_book_paths(books, id);
            let names = |j: int| suffixed_name(stem, j as nat);
            assert forall|j: int, i: int| 1 <= j < i <= taken.len() + 1 implies #[trigger] names(j) != #[trigger] names(i) by {
                lemma_suffixed_names_distinct(stem, j as nat, i as nat);
            }
            lemma_other_book_paths(books, id, Seq::empty());
            lemma_some_candidate_free(taken, names);
            let f = choose|f: int| 1 <= f <= taken.len() + 1 && !taken.contains(#[trigger] names(f));
            lemma_other_book_paths(books, id, names(f));
            if f < k {
                assert(path_taken(books, id, suffixed_name(stem, f as nat)));
            }
            assert(false);
        } else {
            lemma_first_free_name(books, id, stem, k + 1);
        }
    }
}

proof fn lemma_books_bytes_step(books: Seq<LibraryBookInfo>, n: int)
    requires
        0 <= n < books.len(),
    ensures
        books_bytes(books, n + 1) == books_bytes(books, n) + books[n].spec_bytes(),
{
}

proof fn lemma_books_bytes_prefix(books: Seq<LibraryBookInfo>, b: LibraryBookInfo, n: int)
    requires
        0 <= n <= books.len(),
    ensures
        books_bytes(books.push(b), n) == books_bytes(books, n),
    decreases n,
{
    if n > 0 {
        lemma_books_bytes_prefix(books, b, n - 1);
    }
}

proof fn lemma_total_bytes_push(books: Seq<LibraryBookInfo>, b: LibraryBookInfo)
    ensures
        total_bytes(books.push(b)) == total_bytes(books) + b.spec_bytes(),
{
    lemma_books_bytes_prefix(books, b, books.len() as int);
}

proof fn lemma_kept_prefix_step(books: Seq<LibraryBookInfo>, flags: Seq<bool>, i: int)
    requires
        0 <= i < books.len(),
    ensures
        kept(books.subrange(0, i + 1), flags) == if flags[i] {
            kept(books.subrange(0, i), flags)
        } else {
            kept(books.subrange(0, i), flags).push(books[i])
        },
        dropped(books.subrange(0, i + 1), flags) == if flags[i] {
            dropped(books.subrange(0, i), flags).push(books[i])
        } else {
            dropped(books.subrange(0, i), flags)
        },
{
    assert(books.subrange(0, i + 1).drop_last() =~= books.subrange(0, i));
}

proof fn lemma_kept_none_removed(books: Seq<LibraryBookInfo>, flags: Seq<bool>)
    requires
        forall|i: int| 0 <= i < books.len() ==> !#[trigger] flags[i],
    ensures
        kept(books, flags) == books,
        dropped(books, flags) == Seq::<LibraryBookInfo>::empty(),
    decreases books.len(),
{
    if books.len() > 0 {
        lemma_kept_none_removed(books.drop_last(), flags);
        assert(books.drop_last().push(books.last()) =~= books);
    }
}

impl Library {
    pub open spec fn wf(&self) -> bool {
        ids_unique(self.books@)
    }

    /// An empty library rooted at `library_path`.
    pub fn new(library_path: String, index_path: String) -> (r: Self)
        ensures
            r.library_path == library_path,
            r.index_path == index_path,
            r.books@.len() == 0,
            r.wf(),
    {
        Library { library_path, index_path, books: Vec::new() }
    }

    /// The same books under other paths.
    pub fn with_paths(self, library_path: String, index_path: String) -> (r: Self)
        ensures
            r.library_path == library_path,
            r.index_path == index_path,
            r.books == self.books,
    {
        Library { library_path, index_path, books: self.books }
    }

    /// The position of the book with this id.
    pub fn position_of(&self, id: &String) -> (r: Option<usize>)
        ensures
            match r {
                Some(i) => i < self.books.len() && self.books@[i as int].spec_id() == id@,
                None => forall|i: int| 0 <= i < self.books.len() ==> (#[trigger] self.books@[i]).spec_id() != id@,
            },
    {
        let mut i: usize = 0;
        while i < self.books.len()
            invariant
                i <= self.books.len(),
                forall|j: int| 0 <= j < i ==> (#[trigger] self.books@[j]).spec_id() != id@,
            decreases self.books.len() - i,
        {
            if *self.books[i].id() == *id {
                return Some(i);
            }
            i = i + 1;
        }
        None
    }

    /// The library's total bytes, counted up to `2^64`.
    pub fn size_in_bytes(&self) -> (r: u128)
        ensures
            r == capped(total_bytes(self.books@)),
    {
        let mut total: u128 = 0;
        let mut i: usize = 0;
        while i < self.books.len()
            invariant
                i <= self.books.len(),
                total == capped(books_bytes(self.books@, i as int)),
            decreases self.books.len() - i,
        {
            let b = self.books[i].size_in_bytes();
            proof {
                lemma_books_bytes_step(self.books@, i as int);
            }
            total = if total + b < BYTES_CAP {
                total + b
            } else {
                BYTES_CAP
            };
            i = i + 1;
        }
        total
    }

    pub fn is_oversized(&self, max_books: Option<usize>, max_bytes: Option<u64>) -> (r: bool)
        ensures
            r == oversized(self.books@, max_books, max_bytes),
    {
        let too_many_books = match max_books {
            Some(m) => self.books.len() > m,
            None => false,
        };
        let too_many_bytes = match max_bytes {
            Some(m) => self.size_in_bytes() > m as u128,
            None => false,
        };
        too_many_books || too_many_bytes
    }
}

impl Library {
    /// Whether the books without the flagged ones are over budget.
    fn oversized_without(&self, flags: &Vec<bool>, max_books: Option<usize>, max_bytes: Option<u64>) -> (r: bool)
        requires
            flags.len() == self.books.len(),
        ensures
            r == oversized(kept(self.books@, flags@), max_books, max_bytes),
    {
        let ghost books = self.books@;
        let mut count: usize = 0;
        let mut total: u128 = 0;
        let mut i: usize = 0;
        while i < self.books.len()
            invariant
                books == self.books@,
                flags.len() == books.len(),
                i <= books.len(),
                count == kept(books.subrange(0, i as int), flags@).len(),
                count <= i,
                total == capped(total_bytes(kept(books.subrange(0, i as int), flags@))),
            decreases books.len() - i,
        {
            proof {
                lemma_kept_prefix_step(books, flags@, i as int);
            }
            if !flags[i] {
                let b = self.books[i].size_in_bytes();
                proof {
                    lemma_total_bytes_push(kept(books.subrange(0, i as int), flags@), books[i as int]);
                }
                total = if total + b < BYTES_CAP {
                    total + b
                } else {
                    BYTES_CAP
                };
                count = count + 1;
            }
            i = i + 1;
        }
        assert(books.subrange(0, books.len() as int) =~= books);
        let too_many_books = match max_books {
            Some(m) => count > m,
            None => false,
        };
        let too_many_bytes = match max_bytes {
            Some(m) => total > m as u128,
            None => false,
        };
        too_many_books || too_many_bytes
    }

    /// The eviction keys of the books not protected, in library order.
    fn eviction_candidates(&self, protected: &Vec<String>) -> (r: Vec<EvictionKey>)
        ensures
            forall|k: int| 0 <= k < r.len() ==> (#[trigger] r[k]).3 < self.books.len()
                && r[k] == eviction_key(self.books@[r[k].3 as int], r[k].3 as int)
                && !is_protected(protected@, self.books@[r[k].3 as int]),
            forall|i: int| 0 <= i < self.books.len() && !is_protected(protected@, #[trigger] self.books@[i])
                ==> r@.contains(eviction_key(self.books@[i], i)),
            forall|a: int, b: int| 0 <= a < b < r.len() ==> (#[trigger] r[a]).3 < (#[trigger] r[b]).3,
    {
        let mut out: Vec<EvictionKey> = Vec::new();
        let mut i: usize = 0;
        while i < self.books.len()
            invariant
                i <= self.books.len(),
                forall|k: int| 0 <= k < out.len() ==> (#[trigger] out[k]).3 < i
                    && out[k] == eviction_key(self.books@[out[k].3 as int], out[k].3 as int)
                    && !is_protected(protected@, self.books@[out[k].3 as int]),
                forall|j: int| 0 <= j < i && !is_protected(protected@, #[trigger] self.books@[j])
                    ==> out@.contains(eviction_key(self.books@[j], j)),
                forall|a: int, b: int| 0 <= a < b < out.len() ==> (#[trigger] out[a]).3 < (#[trigger] out[b]).3,
            decreases self.books.len() - i,
        {
            let book = &self.books[i];
            let mut is_prot = false;
            let mut k: usize = 0;
            while k < protected.len()
                invariant
                    k <= protected.len(),
                    is_prot == exists|m: int| 0 <= m < k && (#[trigger] protected@[m])@ == book.spec_id(),
                decreases protected.len() - k,
            {
                if protected[k] == *book.id() {
                    is_prot = true;
                }
                k = k + 1;
            }
            if !is_prot {
                let t = book.last_opened_time();
                let size = book.size_in_bytes();
                let ghost before = out@;
                out.push((t.seconds, t.nanos, BYTES_CAP - size, i));
                assert(out@[out.len() - 1] == eviction_key(self.books@[i as int], i as int));
                assert forall|j: int| 0 <= j <= i && !is_protected(protected@, #[trigger] self.books@[j])
                    implies out@.contains(eviction_key(self.books@[j], j)) by {
                    if j < i {
                        let w = choose|w: int| 0 <= w < before.len() && before[w] == eviction_key(self.books@[j], j);
                        assert(out@[w] == before[w]);
                    } else {
                        assert(out@[out.len() - 1] == eviction_key(self.books@[j], j));
                    }
                }
            } else {
                assert forall|j: int| 0 <= j <= i && !is_protected(protected@, #[trigger] self.books@[j])
                    implies out@.contains(eviction_key(self.books@[j], j)) by {
                    if j == i {
                        assert(is_protected(protected@, self.books@[j]));
                    }
                }
            }
            i = i + 1;
        }
        out
    }

    /// Evicts books while the library is over either budget: unprotected
    /// books only, least recently opened first, the larger first among those
    /// opened at the same time, stopping as soon as the budgets hold.
    /// Returns the removed books, whose directories the caller deletes.
    pub fn truncate(&mut self, max_books: Option<usize>, max_bytes: Option<u64>, ids_to_exclude: &Vec<String>) -> (r: Vec<LibraryBookInfo>)
        requires
            old(self).wf(),
        ensures
            final(self).wf(),
            final(self).library_path == old(self).library_path,
            final(self).index_path == old(self).index_path,
            exists|removed: Seq<bool>|
                eviction_ok(old(self).books@, removed, max_books, max_bytes, ids_to_exclude@)
                    && final(self).books@ == kept(old(self).books@, removed)
                    && r@ == dropped(old(self).books@, removed),
    {
        let ghost books = self.books@;
        let n = self.books.len();
        let mut flags: Vec<bool> = Vec::new();
        let mut i: usize = 0;
        while i < n
            invariant
                i <= n,
                flags.len() == i,
                forall|j: int| 0 <= j < i ==> !#[trigger] flags@[j],
            decreases n - i,
        {
            flags.push(false);
            i = i + 1;
        }
        proof {
            lemma_kept_none_removed(books, flags@);
        }
        let mut over = self.oversized_without(&flags, max_books, max_bytes);
        if over {
            let candidates = self.eviction_candidates(ids_to_exclude);
            let sorted = sort_keys(candidates);
            proof {
                candidates@.to_multiset_ensures();
                sorted@.to_multiset_ensures();
                assert(candidates@.no_duplicates()) by {
                    assert forall|a: int, b: int| 0 <= a < candidates.len() && 0 <= b < candidates.len() && a != b
                        implies candidates@[a] != candidates@[b] by {
                        if a < b {
                            assert(candidates[a].3 < candidates[b].3);
                        } else {
                            assert(candidates[b].3 < candidates[a].3);
                        }
                    }
                }
                candidates@.lemma_multiset_has_no_duplicates();
                sorted@.lemma_multiset_has_no_duplicates_conv();
            }
            assert forall|k: int| 0 <= k < sorted.len() implies (#[trigger] sorted[k]).3 < n
                && sorted[k] == eviction_key(books[sorted[k].3 as int], sorted[k].3 as int)
                && !is_protected(ids_to_exclude@, books[sorted[k].3 as int]) by {
                assert(sorted@.contains(sorted[k]));
                assert(candidates@.to_multiset().count(sorted[k]) > 0);
                let w = choose|w: int| 0 <= w < candidates.len() && candidates@[w] == sorted[k];
                assert(candidates[w] == sorted[k]);
            }
            assert forall|j: int| 0 <= j < n && !is_protected(ids_to_exclude@, #[trigger] books[j])
                implies sorted@.contains(eviction_key(books[j], j)) by {
                assert(candidates@.contains(eviction_key(books[j], j)));
                assert(candidates@.to_multiset().count(eviction_key(books[j], j)) > 0);
                assert(sorted@.to_multiset().count(eviction_key(books[j], j)) > 0);
            }
            let mut t: usize = 0;
            while over && t < sorted.len()
                invariant
                    books == self.books@,
                    n == books.len(),
                    t <= sorted.len(),
                    flags.len() == n,
                    forall|k: int| 0 <= k < sorted.len() ==> (#[trigger] sorted[k]).3 < n
                        && sorted[k] == eviction_key(books[sorted[k].3 as int], sorted[k].3 as int)
                        && !is_protected(ids_to_exclude@, books[sorted[k].3 as int]),
                    forall|a: int, b: int| 0 <= a < b < sorted.len() ==> key_le(#[trigger] sorted[a], #[trigger] sorted[b]),
                    sorted@.no_duplicates(),
                    forall|j: int| 0 <= j < n ==> (#[trigger] flags@[j] <==> exists|s: int| 0 <= s < t && sorted[s].3 == j),
                    over == oversized(kept(books, flags@), max_books, max_bytes),
                    t > 0 ==> oversized(kept(books, flags@.update(sorted[t - 1].3 as int, false)), max_books, max_bytes),
                    t == 0 ==> over,
                decreases sorted.len() - t,
            {
                let ghost before = flags@;
                let idx = sorted[t].3;
                assert(!before[idx as int]) by {
                    if before[idx as int] {
                        let s = choose|s: int| 0 <= s < t && sorted[s].3 == idx;
                        assert(key_le(sorted[s], sorted[t as int]));
                        assert(sorted[s] == eviction_key(books[idx as int], idx as int));
                    }
                }
                flags.set(idx, true);
                assert(flags@.update(idx as int, false) =~= before);
                assert forall|j: int| 0 <= j < n implies (#[trigger] flags@[j] <==> exists|s: int| 0 <= s < t + 1 && sorted[s].3 == j) by {
                    if j == idx {
                        assert(sorted[t as int].3 == j);
                    } else if flags@[j] {
                        let s = choose|s: int| 0 <= s < t && sorted[s].3 == j;
                    } else {
                        if exists|s: int| 0 <= s < t + 1 && sorted[s].3 == j {
                            let s = choose|s: int| 0 <= s < t + 1 && sorted[s].3 == j;
                            if s < t {
                            }
                        }
                    }
                }
                t = t + 1;
                over = self.oversized_without(&flags, max_books, max_bytes);
            }
            let ghost removed = flags@;
            assert(eviction_ok(books, removed, max_books, max_bytes, ids_to_exclude@)) by {
                assert forall|j: int| 0 <= j < n && #[trigger] removed[j] implies !is_protected(ids_to_exclude@, books[j]) by {
                    let s = choose|s: int| 0 <= s < t && sorted[s].3 == j;
                }
                if over {
                    assert forall|j: int| 0 <= j < n && !is_protected(ids_to_exclude@, books[j]) implies #[trigger] removed[j] by {
                        assert(sorted@.contains(eviction_key(books[j], j)));
                        let s = choose|s: int| 0 <= s < sorted.len() && sorted@[s] == eviction_key(books[j], j);
                        assert(sorted[s].3 == j);
                    }
                }
                assert forall|a: int, b: int|
                    0 <= a < n && 0 <= b < n && #[trigger] removed[a] && !#[trigger] removed[b]
                        && !is_protected(ids_to_exclude@, books[b]) implies key_lt(eviction_key(books[a], a), eviction_key(books[b], b)) by {
                    let sa = choose|s: int| 0 <= s < t && sorted[s].3 == a;
                    assert(sorted@.contains(eviction_key(books[b], b)));
                    let sb = choose|s: int| 0 <= s < sorted.len() && sorted@[s] == eviction_key(books[b], b);
                    assert(sorted[sb].3 == b);
                    if sb < t {
                        assert(removed[b]);
                    }
                    assert(key_le(sorted[sa], sorted[sb]));
                }
                if exists|j: int| 0 <= j < n && #[trigger] removed[j] {
                    let last = sorted[t - 1].3 as int;
                    assert(removed[last]);
                    assert forall|j: int| 0 <= j < n && #[trigger] removed[j] implies key_le(eviction_key(books[j], j), eviction_key(books[last], last)) by {
                        let s = choose|s: int| 0 <= s < t && sorted[s].3 == j;
                        if s < t - 1 {
                            assert(key_le(sorted[s], sorted[t - 1]));
                        }
                    }
                    assert(oversized(kept(books, removed.update(last, false)), max_books, max_bytes));
                }
            }
        }
        self.split_off_flagged(&flags)
    }

    /// Takes the flagged books out, keeping the others in order.
    fn split_off_flagged(&mut self, flags: &Vec<bool>) -> (r: Vec<LibraryBookInfo>)
        requires
            old(self).wf(),
            flags.len() == old(self).books.len(),
        ensures
            final(self).wf(),
            final(self).library_path == old(self).library_path,
            final(self).index_path == old(self).index_path,
            final(self).books@ == kept(old(self).books@, flags@),
            r@ == dropped(old(self).books@, flags@),
    {
        let ghost books = self.books@;
        let ghost removed = flags@;
        let n = self.books.len();
        let mut source: Vec<LibraryBookInfo> = Vec::new();
        core::mem::swap(&mut self.books, &mut source);
        let mut keep: Vec<LibraryBookInfo> = Vec::new();
        let mut gone: Vec<LibraryBookInfo> = Vec::new();
        let mut i: usize = 0;
        while i < n
            invariant
                i <= n,
                n == books.len(),
                flags@ == removed,
                removed.len() == n,
                source@ == books.subrange(i as int, n as int),
                keep@ == kept(books.subrange(0, i as int), removed),
                gone@ == dropped(books.subrange(0, i as int), removed),
            decreases n - i,
        {
            proof {
                lemma_kept_prefix_step(books, removed, i as int);
            }
            let b = source.remove(0);
            assert(source@ =~= books.subrange(i as int + 1, n as int));
            if flags[i] {
                gone.push(b);
            } else {
                keep.push(b);
            }
            i = i + 1;
        }
        assert(books.subrange(0, n as int) =~= books);
        self.books = keep;
        proof {
            lemma_kept_unique(books, removed);
        }
        gone
    }

    /// Removes the books with the listed ids, then evicts as `truncate` does
    /// with nothing protected. Returns every removed book.
    pub fn clear(&mut self, max_books: Option<usize>, max_bytes: Option<u64>, ids: &Vec<String>) -> (r: Vec<LibraryBookInfo>)
        requires
            old(self).wf(),
        ensures
            final(self).wf(),
            final(self).library_path == old(self).library_path,
            final(self).index_path == old(self).index_path,
            exists|named: Seq<bool>, removed: Seq<bool>|
                named.len() == old(self).books.len()
                && (forall|i: int| 0 <= i < old(self).books.len() ==> (#[trigger] named[i] <==> is_protected(ids@, old(self).books@[i])))
                && eviction_ok(kept(old(self).books@, named), removed, max_books, max_bytes, Seq::empty())
                && final(self).books@ == kept(kept(old(self).books@, named), removed)
                && r@ == dropped(old(self).books@, named) + dropped(kept(old(self).books@, named), removed),
    {
        let ghost books = self.books@;
        let mut flags: Vec<bool> = Vec::new();
        let mut i: usize = 0;
        while i < self.books.len()
            invariant
                i <= self.books.len(),
                flags.len() == i,
                forall|j: int| 0 <= j < i ==> (#[trigger] flags@[j] <==> is_protected(ids@, self.books@[j])),
            decreases self.books.len() - i,
        {
            let book_id = self.books[i].id();
            let mut listed = false;
            let mut k: usize = 0;
            while k < ids.len()
                invariant
                    k <= ids.len(),
                    listed == exists|m: int| 0 <= m < k && (#[trigger] ids@[m])@ == book_id@,
                decreases ids.len() - k,
            {
                if ids[k] == *book_id {
                    listed = true;
                }
                k = k + 1;
            }
            flags.push(listed);
            i = i + 1;
        }
        let ghost named = flags@;
        let mut out = self.split_off_flagged(&flags);
        let ghost mid = self.books@;
        let nothing: Vec<String> = Vec::new();
        let mut evicted = self.truncate(max_books, max_bytes, &nothing);
        assert(nothing@ =~= Seq::<String>::empty());
        let ghost first = out@;
        out.append(&mut evicted);
        out
    }
}

impl Library {
    /// Where a new book goes, given its id and the id made safe as a file
    /// name: that name, with `_k` after it from the second candidate on, the
    /// first that no other book holds.
    pub fn internal_path_for_sanitized(&self, id: &String, sanitized: &String) -> (r: String)
        requires
            self.books.len() < u64::MAX,
        ensures
            r@ == suffixed_name(sanitized@, first_free_name(self.books@, id@, sanitized@, 1)),
            !path_taken(self.books@, id@, r@),
    {
        let ghost books = self.books@;
        let mut k: u64 = 1;
        let mut candidate = sanitized.clone();
        while self.path_in_use(id, &candidate)
            invariant
                books == self.books@,
                1 <= k <= books.len() + 1,
                books.len() < u64::MAX,
                candidate@ == suffixed_name(sanitized@, k as nat),
                first_free_name(books, id@, sanitized@, 1) == first_free_name(books, id@, sanitized@, k as nat),
                forall|j: nat| 1 <= j < k ==> path_taken(books, id@, #[trigger] suffixed_name(sanitized@, j)),
            decreases books.len() + 1 - k,
        {
            proof {
                lemma_first_free_name(books, id@, sanitized@, k as nat);
            }
            k = k + 1;
            let mut name = sanitized.clone();
            name.append("_");
            let digits = decimal_string(k);
            name.append(digits.as_str());
            proof {
                reveal_strlit("_");
                assert(name@ =~= suffixed_name(sanitized@, k as nat));
            }
            candidate = name;
        }
        proof {
            lemma_first_free_name(books, id@, sanitized@, k as nat);
        }
        candidate
    }

    fn path_in_use(&self, id: &String, dir: &String) -> (r: bool)
        ensures
            r == path_taken(self.books@, id@, dir@),
    {
        let mut i: usize = 0;
        while i < self.books.len()
            invariant
                i <= self.books.len(),
                forall|j: int| 0 <= j < i ==> !((#[trigger] self.books@[j].spec_path()) == dir@ && self.books@[j].spec_id() != id@),
            decreases self.books.len() - i,
        {
            let b = &self.books[i];
            if *b.path_from_library_root() == *dir && !(*b.id() == *id) {
                return true;
            }
            i = i + 1;
        }
        false
    }

    /// Where a new book with this id goes: under a file-name-safe form of the
    /// id, in a directory no other book holds.
    pub fn get_internal_path_from_id(&self, id: &String) -> (r: String)
        requires
            self.books.len() < u64::MAX,
        ensures
            !path_taken(self.books@, id@, r@),
    {
        let sanitized = sanitize(id.as_str());
        self.internal_path_for_sanitized(id, &sanitized)
    }

    /// Adds a book unless one with its id is known already, and gives its id.
    pub fn register_epub_and_get_id(&mut self, book: EpubInfo) -> (r: String)
        requires
            old(self).wf(),
        ensures
            final(self).wf(),
            final(self).library_path == old(self).library_path,
            final(self).index_path == old(self).index_path,
            r@ == book.id@,
            (forall|i: int| 0 <= i < old(self).books.len() ==> (#[trigger] old(self).books@[i]).spec_id() != book.id@)
                ==> final(self).books@ == old(self).books@.push(LibraryBookInfo::Epub(book)),
            (exists|i: int| 0 <= i < old(self).books.len() && (#[trigger] old(self).books@[i]).spec_id() == book.id@)
                ==> final(self).books@ == old(self).books@,
    {
        let id = book.id.clone();
        match self.position_of(&book.id) {
            Some(_) => id,
            None => {
                let ghost before = self.books@;
                self.books.push(LibraryBookInfo::Epub(book));
                assert forall|a: int, b: int| 0 <= a < self.books.len() && 0 <= b < self.books.len() && a != b
                    implies (#[trigger] self.books@[a].spec_id()) != (#[trigger] self.books@[b].spec_id()) by {
                    if a < before.len() && b < before.len() {
                        assert(self.books@[a] == before[a] && self.books@[b] == before[b]);
                    } else if a < before.len() {
                        assert(self.books@[a] == before[a]);
                    } else {
                        assert(self.books@[b] == before[b]);
                    }
                }
                id
            },
        }
    }

    /// Records that a book was opened at `time` with `style`: the time
    /// becomes its last-opened time, and the style joins the styles opened
    /// at that time (replacing those of an earlier time).
    pub fn record_open(&mut self, id: &String, style: Style, time: Timestamp) -> (r: bool)
        requires
            old(self).wf(),
        ensures
            final(self).wf(),
            final(self).library_path == old(self).library_path,
            final(self).index_path == old(self).index_path,
            final(self).books.len() == old(self).books.len(),
            r == exists|i: int| 0 <= i < old(self).books.len() && (#[trigger] old(self).books@[i]).spec_id() == id@,
            forall|i: int| 0 <= i < old(self).books.len() ==> {
                let b = #[trigger] final(self).books@[i];
                if old(self).books@[i].spec_id() == id@ {
                    &&& b.spec_id() == id@
                    &&& b.spec_last_opened() == time
                    &&& b.spec_path() == old(self).books@[i].spec_path()
                    &&& b.spec_bytes() == old(self).books@[i].spec_bytes()
                } else {
                    b == old(self).books@[i]
                }
            },
    {
        match self.position_of(id) {
            None => false,
            Some(i) => {
                let ghost before = self.books@;
                let book = self.books.remove(i);
                let LibraryBookInfo::Epub(mut e) = book;
                if e.last_opened_time != time {
                    e.last_opened_styles = Vec::new();
                }
                e.last_opened_styles.push(style);
                e.last_opened_time = time;
                self.books.insert(i, LibraryBookInfo::Epub(e));
                assert(self.books@ =~= before.update(i as int, self.books@[i as int]));
                assert forall|a: int, b: int| 0 <= a < self.books.len() && 0 <= b < self.books.len() && a != b
                    implies (#[trigger] self.books@[a].spec_id()) != (#[trigger] self.books@[b].spec_id()) by {
                    assert(self.books@[a].spec_id() == before[a].spec_id());
                    assert(self.books@[b].spec_id() == before[b].spec_id());
                }
                assert forall|j: int| 0 <= j < before.len() && (#[trigger] before[j]).spec_id() == id@ implies j == i by {
                }
                true
            },
        }
    }

    /// Removes the book with this id and hands it back, so that its
    /// directory can be deleted.
    pub fn remove_book(&mut self, id: &String) -> (r: LibraryBookInfo)
        requires
            old(self).wf(),
            exists|i: int| 0 <= i < old(self).books.len() && (#[trigger] old(self).books@[i]).spec_id() == id@,
        ensures
            final(self).wf(),
            final(self).library_path == old(self).library_path,
            final(self).index_path == old(self).index_path,
            r.spec_id() == id@,
            exists|i: int| 0 <= i < old(self).books.len() && old(self).books@[i] == r
                && final(self).books@ == old(self).books@.remove(i),
    {
        let ghost before = self.books@;
        match self.position_of(id) {
            Some(i) => {
                let r = self.books.remove(i);
                assert forall|a: int, b: int| 0 <= a < self.books.len() && 0 <= b < self.books.len() && a != b
                    implies (#[trigger] self.books@[a].spec_id()) != (#[trigger] self.books@[b].spec_id()) by {
                    let a2 = if a < i { a } else { a + 1 };
                    let b2 = if b < i { b } else { b + 1 };
                    assert(self.books@[a] == before[a2]);
                    assert(self.books@[b] == before[b2]);
                }
                r
            },
            None => {
                proof {
                    let w = choose|w: int| 0 <= w < before.len() && (#[trigger] before[w]).spec_id() == id@;
                    assert(before[w].spec_id() != id@);
                }
                self.books.remove(0)
            },
        }
    }

    /// The raw rendition of a book, as handed to a viewer, after recording
    /// the opening; `None` for an unknown id.
    pub fn open_book_raw(&mut self, id: &String, request_time: Timestamp) -> (r: Option<LibraryBookRenditionInfo>)
        requires
            old(self).wf(),
        ensures
            final(self).wf(),
            r.is_some() == exists|i: int| 0 <= i < old(self).books.len() && (#[trigger] old(self).books@[i]).spec_id() == id@,
    {
        let ghost before = self.books@;
        if !self.record_open(id, Style::raw(), request_time) {
            return None;
        }
        proof {
            let w = choose|w: int| 0 <= w < before.len() && (#[trigger] before[w]).spec_id() == id@;
            assert(self.books@[w].spec_id() == id@);
        }
        match self.position_of(id) {
            Some(i) => {
                let LibraryBookInfo::Epub(e) = &self.books[i];
                Some(LibraryBookRenditionInfo {
                    dir_path_from_library_root: e.raw_rendition.dir_path_from_library_root.clone(),
                    file_path_from_library_root: e.raw_rendition.default_file_path_from_library_root.clone(),
                    bytes: e.raw_rendition.bytes,
                })
            },
            None => {
                assert(false);
                None
            },
        }
    }
}

proof fn lemma_kept_elements(books: Seq<LibraryBookInfo>, removed: Seq<bool>)
    ensures
        kept(books, removed).len() <= books.len(),
        forall|k: int| 0 <= k < kept(books, removed).len() ==> exists|i: int|
            0 <= i < books.len() && #[trigger] kept(books, removed)[k] == books[i],
    decreases books.len(),
{
    if books.len() > 0 {
        let init = books.drop_last();
        lemma_kept_elements(init, removed);
        let ki = kept(init, removed);
        assert forall|k: int| 0 <= k < kept(books, removed).len() implies exists|i: int|
            0 <= i < books.len() && #[trigger] kept(books, removed)[k] == books[i] by {
            if k < ki.len() {
                let i = choose|i: int| 0 <= i < init.len() && ki[k] == init[i];
                assert(kept(books, removed)[k] == books[i]);
            } else {
                assert(kept(books, removed)[k] == books[books.len() - 1]);
            }
        }
    }
}

proof fn lemma_kept_unique(books: Seq<LibraryBookInfo>, removed: Seq<bool>)
    requires
        ids_unique(books),
    ensures
        ids_unique(kept(books, removed)),
    decreases books.len(),
{
    if books.len() > 0 {
        let init = books.drop_last();
        assert(ids_unique(init)) by {
            assert forall|a: int, b: int| 0 <= a < init.len() && 0 <= b < init.len() && a != b
                implies (#[trigger] init[a].spec_id()) != (#[trigger] init[b].spec_id()) by {
                assert(init[a] == books[a] && init[b] == books[b]);
            }
        }
        lemma_kept_unique(init, removed);
        lemma_kept_elements(init, removed);
        let ki = kept(init, removed);
        if !removed[books.len() - 1] {
            let kb = ki.push(books.last());
            assert forall|a: int, b: int| 0 <= a < kb.len() && 0 <= b < kb.len() && a != b
                implies (#[trigger] kb[a].spec_id()) != (#[trigger] kb[b].spec_id()) by {
                if a == ki.len() {
                    let i = choose|i: int| 0 <= i < init.len() && ki[b] == init[i];
                    assert(books[i] == init[i]);
                } else if b == ki.len() {
                    let i = choose|i: int| 0 <= i < init.len() && ki[a] == init[i];
                    assert(books[i] == init[i]);
                } else {
                    assert(kb[a] == ki[a] && kb[b] == ki[b]);
                }
            }
        }
    }
}

/// How many of the first `n` flags are set.
pub open spec fn count_set(flags: Seq<bool>, n: int) -> nat
    decreases n,
{
    if n <= 0 {
        0
    } else {
        count_set(flags, n - 1) + if flags[n - 1] { 1nat } else { 0nat }
    }
}

proof fn lemma_kept_len(books: Seq<LibraryBookInfo>, removed: Seq<bool>)
    ensures
        kept(books, removed).len() + count_set(removed, books.len() as int) == books.len(),
    decreases books.len(),
{
    if books.len() > 0 {
        lemma_kept_len(books.drop_last(), removed);
    }
}

proof fn lemma_count_two(flags: Seq<bool>, n: int, a: int, b: int)
    requires
        0 <= a < n,
        0 <= b < n,
        a != b,
        flags[a],
        flags[b],
    ensures
        count_set(flags, n) >= 2,
    decreases n,
{
    if a == n - 1 || b == n - 1 {
        let other = if a == n - 1 { b } else { a };
        lemma_count_one(flags, n - 1, other);
    } else {
        lemma_count_two(flags, n - 1, a, b);
    }
}

proof fn lemma_count_one(flags: Seq<bool>, n: int, a: int)
    requires
        0 <= a < n,
        flags[a],
    ensures
        count_set(flags, n) >= 1,
    decreases n,
{
    if a < n - 1 {
        lemma_count_one(flags, n - 1, a);
    }
}

proof fn lemma_count_update(flags: Seq<bool>, n: int, i: int)
    requires
        0 <= i < n <= flags.len(),
        flags[i],
    ensures
        count_set(flags.update(i, false), n) + 1 == count_set(flags, n),
    decreases n,
{
    if i < n - 1 {
        lemma_count_update(flags, n - 1, i);
    } else {
        assert forall|k: int| 0 <= k < n - 1 implies flags.update(i, false)[k] == flags[k] by {}
        lemma_count_same(flags.update(i, false), flags, n - 1);
    }
}

proof fn lemma_count_same(a: Seq<bool>, b: Seq<bool>, n: int)
    requires
        forall|k: int| 0 <= k < n ==> a[k] == b[k],
    ensures
        count_set(a, n) == count_set(b, n),
    decreases n,
{
    if n > 0 {
        lemma_count_same(a, b, n - 1);
    }
}

/// With room for one book fewer than the library holds and nothing
/// protected, eviction removes exactly one book: the one that was opened
/// least recently, the larger of two opened at the same time.
pub proof fn lemma_one_over_evicts_the_stalest(books: Seq<LibraryBookInfo>, removed: Seq<bool>)
    requires
        books.len() >= 1,
        books.len() <= usize::MAX,
        eviction_ok(books, removed, Some((books.len() - 1) as usize), None, Seq::empty()),
    ensures
        exists|i: int|
            0 <= i < books.len() && #[trigger] removed[i] && forall|j: int|
                0 <= j < books.len() && j != i ==> !#[trigger] removed[j] && key_lt(
                    eviction_key(books[i], i),
                    eviction_key(books[j], j),
                ),
{
    let n = books.len() as int;
    let m = Some((n - 1) as usize);
    let none: Seq<String> = Seq::empty();
    assert forall|i: int| 0 <= i < n implies !is_protected(none, #[trigger] books[i]) by {}
    lemma_kept_len(books, removed);
    if forall|i: int| 0 <= i < n ==> !#[trigger] removed[i] {
        lemma_count_same(removed, Seq::new(n as nat, |k: int| false), n);
        lemma_count_zero(n);
        assert(oversized(kept(books, removed), m, None));
        assert(removed[0]);
    }
    let i = choose|i: int|
        0 <= i < n && #[trigger] removed[i] && oversized(kept(books, removed.update(i, false)), m, None)
            && forall|j: int| 0 <= j < n && #[trigger] removed[j] ==> key_le(eviction_key(books[j], j), eviction_key(books[i], i));
    lemma_kept_len(books, removed.update(i, false));
    lemma_count_update(removed, n, i);
    assert forall|j: int| 0 <= j < n && j != i implies !#[trigger] removed[j] && key_lt(
        eviction_key(books[i], i),
        eviction_key(books[j], j),
    ) by {
        if removed[j] {
            lemma_count_two(removed, n, i, j);
        }
    }
}

proof fn lemma_count_zero(n: int)
    ensures
        count_set(Seq::new(n as nat, |k: int| false), n) == 0,
    decreases n,
{
    if n > 0 {
        lemma_count_zero(n - 1);
        lemma_count_same(Seq::new(n as nat, |k: int| false), Seq::new((n - 1) as nat, |k: int| false), n - 1);
    }
}

} // verus!
