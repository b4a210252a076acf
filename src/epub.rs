//! Books: their spine, table of contents and renditions, and the registry
//! that decides where a new rendition goes and when an existing one serves.
pub mod index;
pub mod navigation;
pub mod xhtml;

use vstd::prelude::*;

use crate::library::Timestamp;
use crate::paths::{contain_path, contained_path};
use crate::paths::{
    lemma_path_join_injective, lemma_some_candidate_free, lemma_suffixed_names_distinct,
    suffixed_name, decimal, decimal_string, join_path, path_join, zero_padded, zero_padded_decimal,
    U64_DECIMAL_WIDTH,
};
use crate::style::{raw_style, Style, StyleView};

verus! {

broadcast use vstd::std_specs::vec::group_vec_axioms;

#[derive(Clone, Copy, Debug, PartialEq, Eq, Structural)]
pub enum EpubSpineItemFormat {
    Svg,
    Xhtml,
}

/// One content section of the reading order.
#[derive(Clone, Debug)]
pub struct EpubSpineItem {
    pub path: String,
    pub format: EpubSpineItemFormat,
    pub linear: bool,
}

/// A table-of-contents entry and the entries nested under it.
#[derive(Debug)]
pub struct EpubTocItem {
    pub label: String,
    pub path_without_fragment: String,
    pub path_with_fragment: String,
    /// The `#...` suffix of the target, when it has one.
    pub fragment: Option<String>,
    pub children: Vec<EpubTocItem>,
    pub nesting_level: u64,
}

/// A spine position and the name of its navigation wrapper page.
#[derive(Clone, Debug)]
pub struct SpineNavigationMap {
    pub spine_index: usize,
    pub navigation_filename: String,
}

/// One materialized rendition of a book.
#[derive(Clone, Debug)]
pub struct EpubRenditionInfo {
    pub style: Style,
    pub dir_path_from_library_root: String,
    pub default_file_path_from_library_root: String,
    pub bytes: u64,
}

/// A book of the library.
#[derive(Debug)]
pub struct EpubInfo {
    pub id: String,
    pub title: String,
    pub creators: Vec<String>,
    pub cover_path: Option<String>,
    pub first_linear_spine_item_path: String,
    pub last_linear_spine_item_path: String,
    pub path_from_library_root: String,
    pub added_time: Timestamp,
    pub last_opened_time: Timestamp,
    pub last_opened_styles: Vec<Style>,
    pub spine_items: Vec<EpubSpineItem>,
    pub nonspine_resource_paths: Vec<String>,
    pub table_of_contents: Vec<EpubTocItem>,
    pub raw_rendition: EpubRenditionInfo,
    pub nonraw_renditions: Vec<EpubRenditionInfo>,
}

/// Where a requested rendition comes from.
#[derive(Clone, Debug)]
pub enum RenditionRequest {
    /// The raw rendition serves.
    Raw,
    /// The styled rendition at this position serves as it is.
    Existing(usize),
    /// Nothing serves yet: build one in this directory.
    Build(String),
}

/// `2^64`: byte totals are counted up to this and no further.
pub const BYTES_CAP: u128 = 0x1_0000_0000_0000_0000;

pub open spec fn capped(n: nat) -> nat {
    if n < BYTES_CAP {
        n
    } else {
        BYTES_CAP as nat
    }
}

/// The bytes of the first `n` renditions.
pub open spec fn renditions_bytes(rs: Seq<EpubRenditionInfo>, n: int) -> nat
    decreases n,
{
    if n <= 0 || n > rs.len() {
        0
    } else {
        (renditions_bytes(rs, n - 1) + rs[n - 1].bytes) as nat
    }
}

/// The first styled rendition built for a style, by position.
pub open spec fn first_with_style(rs: Seq<EpubRenditionInfo>, s: StyleView) -> Option<int> {
    if exists|i: int| 0 <= i < rs.len() && (#[trigger] rs[i].style@) == s {
        let i = choose|i: int|
            0 <= i < rs.len() && (#[trigger] rs[i].style@) == s && forall|j: int|
                0 <= j < i ==> (#[trigger] rs[j].style@) != s;
        Some(i)
    } else {
        None
    }
}

/// The directory that a candidate name `k` gives: the zero-padded
/// fingerprint, with `_k` after it from the second candidate on.
pub open spec fn candidate_dir(base: Seq<char>, fingerprint: u64, k: nat) -> Seq<char> {
    path_join(base, suffixed_name(zero_padded(decimal(fingerprint as nat), U64_DECIMAL_WIDTH as nat), k))
}

/// A rendition built for another style already lives at `dir`.
pub open spec fn dir_taken(rs: Seq<EpubRenditionInfo>, s: StyleView, dir: Seq<char>) -> bool {
    exists|i: int|
        0 <= i < rs.len() && (#[trigger] rs[i].dir_path_from_library_root@) == dir && rs[i].style@
            != s
}

/// The first candidate from `k` on that no other style holds.
pub open spec fn first_free_candidate(
    rs: Seq<EpubRenditionInfo>,
    s: StyleView,
    base: Seq<char>,
    fingerprint: u64,
    k: nat,
) -> nat
    decreases rs.len() + 2 - k,
{
    if k > rs.len() + 1 || !dir_taken(rs, s, candidate_dir(base, fingerprint, k)) {
        k
    } else {
        first_free_candidate(rs, s, base, fingerprint, k + 1)
    }
}

/// Where a new rendition for style `s` goes, given the style's fingerprint.
pub open spec fn new_rendition_dir(book: EpubInfo, s: StyleView, fingerprint: u64) -> Seq<char> {
    candidate_dir(
        book.path_from_library_root@,
        fingerprint,
        first_free_candidate(
            book.nonraw_renditions@,
            s,
            book.path_from_library_root@,
            fingerprint,
            1,
        ),
    )
}

/// The position of the first linear spine item.
#[verifier::opaque]
pub open spec fn first_linear(spine: Seq<EpubSpineItem>) -> Option<int> {
    if exists|i: int| 0 <= i < spine.len() && (#[trigger] spine[i]).linear {
        Some(choose|i: int| 0 <= i < spine.len() && (#[trigger] spine[i]).linear && forall|j: int| 0 <= j < i ==> !(#[trigger] spine[j]).linear)
    } else {
        None
    }
}

/// A spine has a first linear item exactly when it has a last one.
pub proof fn lemma_linear_both(spine: Seq<EpubSpineItem>)
    ensures
        first_linear(spine).is_some() == last_linear(spine).is_some(),
{
    reveal(first_linear);
    reveal(last_linear);
}

/// The position of the last linear spine item.
#[verifier::opaque]
pub open spec fn last_linear(spine: Seq<EpubSpineItem>) -> Option<int> {
    if exists|i: int| 0 <= i < spine.len() && (#[trigger] spine[i]).linear {
        Some(choose|i: int| 0 <= i < spine.len() && (#[trigger] spine[i]).linear && forall|j: int| i < j < spine.len() ==> !(#[trigger] spine[j]).linear)
    } else {
        None
    }
}

/// The name of the navigation page of spine position `i` among `n`: the
/// position zero-padded to the digits of `n`, then `.xhtml`.
pub open spec fn navigation_filename(i: nat, n: nat) -> Seq<char> {
    zero_padded(decimal(i), decimal(n).len()) + ".xhtml"@
}

proof fn lemma_candidates_distinct(base: Seq<char>, fingerprint: u64, j: nat, k: nat)
    requires
        1 <= j < k,
    ensures
        candidate_dir(base, fingerprint, j) != candidate_dir(base, fingerprint, k),
{
    let padded = zero_padded(decimal(fingerprint as nat), U64_DECIMAL_WIDTH as nat);
    lemma_suffixed_names_distinct(padded, j, k);
    lemma_path_join_injective(base, suffixed_name(padded, j), suffixed_name(padded, k));
}

/// The directories of renditions built for a style other than `s`.
pub open spec fn other_style_dirs(rs: Seq<EpubRenditionInfo>, s: StyleView) -> Seq<Seq<char>>
    decreases rs.len(),
{
    if rs.len() == 0 {
        Seq::empty()
    } else if rs.last().style@ != s {
        other_style_dirs(rs.drop_last(), s).push(rs.last().dir_path_from_library_root@)
    } else {
        other_style_dirs(rs.drop_last(), s)
    }
}

proof fn lemma_other_style_dirs(rs: Seq<EpubRenditionInfo>, s: StyleView, dir: Seq<char>)
    ensures
        other_style_dirs(rs, s).len() <= rs.len(),
        other_style_dirs(rs, s).contains(dir) == dir_taken(rs, s, dir),
    decreases rs.len(),
{
    if rs.len() > 0 {
        let init = rs.drop_last();
        lemma_other_style_dirs(init, s, dir);
        let last = rs.last();
        let oi = other_style_dirs(init, s);
        assert(rs =~= init.push(last));
        if last.style@ != s {
            assert(other_style_dirs(rs, s) == oi.push(last.dir_path_from_library_root@));
            assert(oi.push(last.dir_path_from_library_root@)[oi.len() as int] == last.dir_path_from_library_root@);
            if oi.push(last.dir_path_from_library_root@).contains(dir) {
                let w = choose|w: int| 0 <= w < oi.len() + 1 && oi.push(last.dir_path_from_library_root@)[w] == dir;
                if w < oi.len() {
                    assert(oi[w] == dir);
                    assert(oi.contains(dir));
                } else {
                    assert(rs[rs.len() - 1].dir_path_from_library_root@ == dir);
                    assert(dir_taken(rs, s, dir));
                }
            }
            if oi.contains(dir) {
                let w = choose|w: int| 0 <= w < oi.len() && oi[w] == dir;
                assert(oi.push(last.dir_path_from_library_root@)[w] == dir);
            }
            if last.dir_path_from_library_root@ == dir {
                assert(oi.push(last.dir_path_from_library_root@)[oi.len() as int] == dir);
            }
        } else {
            assert(other_style_dirs(rs, s) == oi);
        }
        if dir_taken(rs, s, dir) {
            let i = choose|i: int|
                0 <= i < rs.len() && (#[trigger] rs[i].dir_path_from_library_root@) == dir
                    && rs[i].style@ != s;
            if i < rs.len() - 1 {
                assert(init[i] == rs[i]);
                assert(dir_taken(init, s, dir));
            }
        }
        if dir_taken(init, s, dir) {
            let i = choose|i: int|
                0 <= i < init.len() && (#[trigger] init[i].dir_path_from_library_root@) == dir
                    && init[i].style@ != s;
            assert(rs[i] == init[i]);
        }
        if other_style_dirs(rs, s).contains(dir) && !other_style_dirs(init, s).contains(dir) {
            assert(rs[rs.len() - 1].dir_path_from_library_root@ == dir);
        }
    }
}

proof fn lemma_first_free_candidate(
    rs: Seq<EpubRenditionInfo>,
    s: StyleView,
    base: Seq<char>,
    fingerprint: u64,
    k: nat,
)
    requires
        1 <= k <= rs.len() + 1,
        forall|j: nat| 1 <= j < k ==> dir_taken(rs, s, #[trigger] candidate_dir(base, fingerprint, j)),
    ensures
        first_free_candidate(rs, s, base, fingerprint, k) <= rs.len() + 1,
        !dir_taken(rs, s, candidate_dir(base, fingerprint, first_free_candidate(rs, s, base, fingerprint, k))),
    decreases rs.len() + 2 - k,
{
    if dir_taken(rs, s, candidate_dir(base, fingerprint, k)) {
        if k == rs.len() + 1 {
            let taken = other_style_dirs(rs, s);
            let names = |j: int| candidate_dir(base, fingerprint, j as nat);
            assert forall|j: int, i: int| 1 <= j < i <= taken.len() + 1 implies #[trigger] names(j) != #[trigger] names(i) by {
                lemma_candidates_distinct(base, fingerprint, j as nat, i as nat);
            }
            lemma_other_style_dirs(rs, s, Seq::empty());
            lemma_some_candidate_free(taken, names);
            let f = choose|f: int| 1 <= f <= taken.len() + 1 && !taken.contains(#[trigger] names(f));
            lemma_other_style_dirs(rs, s, names(f));
            if f < k {
                assert(dir_taken(rs, s, candidate_dir(base, fingerprint, f as nat)));
            }
            assert(false);
        } else {
            lemma_first_free_candidate(rs, s, base, fingerprint, k + 1);
        }
    }
}

impl EpubTocItem {
    /// The entry and everything nested under it, in preorder.
    pub open spec fn spec_flattened(self) -> Seq<EpubTocItem>
        decreases self, 1int, 0int,
    {
        seq![self] + flattened_children(self, self.children.len() as int)
    }
}

/// The preorder lists of the first `n` children of `t`, one after another.
pub open spec fn flattened_children(t: EpubTocItem, n: int) -> Seq<EpubTocItem>
    decreases t, 0int, n,
{
    if n <= 0 || n > t.children.len() {
        Seq::empty()
    } else if decreases_to!(t => t.children[n - 1]) {
        flattened_children(t, n - 1) + t.children[n - 1].spec_flattened()
    } else {
        Seq::empty()
    }
}

/// The preorder list of a whole table of contents, first `n` roots.
pub open spec fn flattened_toc(toc: Seq<EpubTocItem>, n: int) -> Seq<EpubTocItem>
    decreases n,
{
    if n <= 0 || n > toc.len() {
        Seq::empty()
    } else {
        flattened_toc(toc, n - 1) + toc[n - 1].spec_flattened()
    }
}

impl EpubInfo {
    /// The book's total bytes over all its renditions.
    pub open spec fn spec_bytes(&self) -> nat {
        (self.raw_rendition.bytes + renditions_bytes(
            self.nonraw_renditions@,
            self.nonraw_renditions.len() as int,
        )) as nat
    }

    /// The rendition that serves `s`: the raw one for the raw style, else the
    /// first styled one built for an equal style.
    pub open spec fn spec_find_rendition(&self, s: StyleView) -> Option<EpubRenditionInfo> {
        if s == raw_style() {
            Some(self.raw_rendition)
        } else {
            match first_with_style(self.nonraw_renditions@, s) {
                Some(i) => Some(self.nonraw_renditions@[i]),
                None => None,
            }
        }
    }

    fn position_of_style(&self, style: &Style) -> (r: Option<usize>)
        ensures
            match r {
                Some(i) => first_with_style(self.nonraw_renditions@, style@) == Some(i as int)
                    && i < self.nonraw_renditions.len(),
                None => first_with_style(self.nonraw_renditions@, style@).is_none(),
            },
    {
        let mut i: usize = 0;
        while i < self.nonraw_renditions.len()
            invariant
                i <= self.nonraw_renditions.len(),
                forall|j: int| 0 <= j < i ==> (#[trigger] self.nonraw_renditions@[j].style@) != style@,
            decreases self.nonraw_renditions.len() - i,
        {
            if self.nonraw_renditions[i].style.eq(style) {
                let ghost rs = self.nonraw_renditions@;
                assert(rs[i as int].style@ == style@);
                let ghost c = choose|c: int|
                    0 <= c < rs.len() && (#[trigger] rs[c].style@) == style@ && forall|j: int|
                        0 <= j < c ==> (#[trigger] rs[j].style@) != style@;
                assert(c == i) by {
                    if c < i {
                    } else if c > i {
                    }
                }
                return Some(i);
            }
            i = i + 1;
        }
        None
    }

    pub fn find_rendition(&self, style: &Style) -> (r: Option<&EpubRenditionInfo>)
        ensures
            match r {
                Some(x) => self.spec_find_rendition(style@) == Some(*x),
                None => self.spec_find_rendition(style@).is_none(),
            },
    {
        let raw = Style::raw();
        if style.eq(&raw) {
            Some(&self.raw_rendition)
        } else {
            match self.position_of_style(style) {
                Some(i) => Some(&self.nonraw_renditions[i]),
                None => None,
            }
        }
    }

    /// The book's total bytes, counted up to `2^64`.
    pub fn size_in_bytes(&self) -> (r: u128)
        ensures
            r == capped(self.spec_bytes()),
    {
        let mut total: u128 = if (self.raw_rendition.bytes as u128) < BYTES_CAP {
            self.raw_rendition.bytes as u128
        } else {
            BYTES_CAP
        };
        let mut i: usize = 0;
        while i < self.nonraw_renditions.len()
            invariant
                i <= self.nonraw_renditions.len(),
                total == capped(
                    (self.raw_rendition.bytes + renditions_bytes(self.nonraw_renditions@, i as int)) as nat,
                ),
            decreases self.nonraw_renditions.len() - i,
        {
            let b = self.nonraw_renditions[i].bytes as u128;
            total = if total + b < BYTES_CAP {
                total + b
            } else {
                BYTES_CAP
            };
            i = i + 1;
        }
        total
    }

    fn candidate_taken(&self, style: &Style, dir: &String) -> (r: bool)
        ensures
            r == dir_taken(self.nonraw_renditions@, style@, dir@),
    {
        let mut i: usize = 0;
        while i < self.nonraw_renditions.len()
            invariant
                i <= self.nonraw_renditions.len(),
                forall|j: int|
                    0 <= j < i ==> !((#[trigger] self.nonraw_renditions@[j].dir_path_from_library_root@)
                        == dir@ && self.nonraw_renditions@[j].style@ != style@),
            decreases self.nonraw_renditions.len() - i,
        {
            let r = &self.nonraw_renditions[i];
            if r.dir_path_from_library_root == *dir && !r.style.eq(style) {
                return true;
            }
            i = i + 1;
        }
        false
    }

    /// Where a new rendition for `style` goes when the style's fingerprint is
    /// `fingerprint`: the first candidate directory that no rendition of
    /// another style holds.
    pub fn rendition_dir_for_fingerprint(&self, style: &Style, fingerprint: u64) -> (r: String)
        requires
            self.nonraw_renditions.len() < u64::MAX,
        ensures
            r@ == new_rendition_dir(*self, style@, fingerprint),
            !dir_taken(self.nonraw_renditions@, style@, r@),
    {
        let ghost rs = self.nonraw_renditions@;
        let ghost base = self.path_from_library_root@;
        let padded = zero_padded_decimal(fingerprint, U64_DECIMAL_WIDTH);
        let mut k: u64 = 1;
        let mut candidate = join_path(self.path_from_library_root.as_str(), padded.as_str());
        assert(candidate@ == candidate_dir(base, fingerprint, 1));
        while self.candidate_taken(style, &candidate)
            invariant
                rs == self.nonraw_renditions@,
                base == self.path_from_library_root@,
                padded@ == zero_padded(decimal(fingerprint as nat), U64_DECIMAL_WIDTH as nat),
                1 <= k <= rs.len() + 1,
                self.nonraw_renditions.len() < u64::MAX,
                candidate@ == candidate_dir(base, fingerprint, k as nat),
                first_free_candidate(rs, style@, base, fingerprint, 1) == first_free_candidate(
                    rs,
                    style@,
                    base,
                    fingerprint,
                    k as nat,
                ),
                forall|j: nat| 1 <= j < k ==> dir_taken(rs, style@, #[trigger] candidate_dir(base, fingerprint, j)),
            decreases rs.len() + 1 - k,
        {
            proof {
                lemma_first_free_candidate(rs, style@, base, fingerprint, k as nat);
            }
            k = k + 1;
            let mut name = padded.clone();
            name.append("_");
            let digits = decimal_string(k);
            name.append(digits.as_str());
            proof {
                reveal_strlit("_");
                assert(name@ =~= suffixed_name(padded@, k as nat));
            }
            candidate = join_path(self.path_from_library_root.as_str(), name.as_str());
            assert(candidate@ == candidate_dir(base, fingerprint, k as nat));
        }
        candidate
    }

    /// Where a new rendition for `style` goes: the directory that
    /// `rendition_dir_for_fingerprint` gives for the style's fingerprint.
    pub fn get_new_rendition_dir_path_from_style(&self, style: &Style) -> (r: String)
        requires
            self.nonraw_renditions.len() < u64::MAX,
        ensures
            exists|fingerprint: u64| r@ == new_rendition_dir(*self, style@, fingerprint),
            !dir_taken(self.nonraw_renditions@, style@, r@),
    {
        let fingerprint = style.get_default_hash();
        self.rendition_dir_for_fingerprint(style, fingerprint)
    }

    /// Where the rendition for `style` comes from: the raw one, an existing
    /// one, or a new directory to build it in.
    pub fn rendition_request(&self, style: &Style) -> (r: RenditionRequest)
        requires
            self.nonraw_renditions.len() < u64::MAX,
        ensures
            style@ == raw_style() ==> r is Raw,
            style@ != raw_style() ==> match first_with_style(self.nonraw_renditions@, style@) {
                Some(i) => r == RenditionRequest::Existing(i as usize),
                None => r is Build && (exists|fingerprint: u64| r->Build_0@ == new_rendition_dir(*self, style@, fingerprint))
                    && !dir_taken(self.nonraw_renditions@, style@, r->Build_0@),
            },
    {
        let raw = Style::raw();
        if style.eq(&raw) {
            RenditionRequest::Raw
        } else {
            match self.position_of_style(style) {
                Some(i) => RenditionRequest::Existing(i),
                None => RenditionRequest::Build(self.get_new_rendition_dir_path_from_style(style)),
            }
        }
    }

    /// Registers a rendition built for a style that had none.
    pub fn record_rendition(&mut self, rendition: EpubRenditionInfo)
        requires
            rendition.style@ != raw_style(),
            first_with_style(old(self).nonraw_renditions@, rendition.style@).is_none(),
        ensures
            final(self).nonraw_renditions@ == old(self).nonraw_renditions@.push(rendition),
            final(self).id == old(self).id,
            final(self).path_from_library_root == old(self).path_from_library_root,
            final(self).raw_rendition == old(self).raw_rendition,
            final(self).spine_items == old(self).spine_items,
            final(self).last_opened_time == old(self).last_opened_time,
    {
        self.nonraw_renditions.push(rendition);
    }

    /// A navigation filename for each spine position: the position, zero-padded
    /// to the digits of the spine's length, then `.xhtml`.
    pub fn get_spine_navigation_maps(&self) -> (r: Vec<SpineNavigationMap>)
        requires
            self.spine_items.len() < u64::MAX,
        ensures
            r.len() == self.spine_items.len(),
            forall|i: int|
                0 <= i < r.len() ==> (#[trigger] r[i]).spine_index == i
                    && r[i].navigation_filename@ == navigation_filename(
                    i as nat,
                    self.spine_items.len() as nat,
                ),
    {
        let n = self.spine_items.len();
        let width = decimal_string(n as u64).as_str().unicode_len();
        let mut out: Vec<SpineNavigationMap> = Vec::new();
        let mut i: usize = 0;
        while i < n
            invariant
                n == self.spine_items.len(),
                n < u64::MAX,
                i <= n,
                width == decimal(n as nat).len(),
                out.len() == i,
                forall|j: int|
                    0 <= j < i ==> (#[trigger] out[j]).spine_index == j
                        && out[j].navigation_filename@ == navigation_filename(j as nat, n as nat),
            decreases n - i,
        {
            let mut name = zero_padded_decimal(i as u64, width);
            name.append(".xhtml");
            out.push(SpineNavigationMap { spine_index: i, navigation_filename: name });
            i = i + 1;
        }
        out
    }
}

/// Once a style's rendition is recorded, asking again for that style finds
/// exactly that record: the second request builds nothing.
pub proof fn lemma_request_after_record_reuses(
    before: Seq<EpubRenditionInfo>,
    rendition: EpubRenditionInfo,
)
    requires
        first_with_style(before, rendition.style@).is_none(),
    ensures
        first_with_style(before.push(rendition), rendition.style@) == Some(before.len() as int),
        before.push(rendition)[before.len() as int] == rendition,
{
    let after = before.push(rendition);
    let s = rendition.style@;
    assert(after[before.len() as int].style@ == s);
    assert forall|j: int| 0 <= j < before.len() implies (#[trigger] after[j].style@) != s by {
        assert(after[j] == before[j]);
        if before[j].style@ == s {
            assert(exists|i: int| 0 <= i < before.len() && (#[trigger] before[i].style@) == s);
        }
    }
    let c = choose|c: int|
        0 <= c < after.len() && (#[trigger] after[c].style@) == s && forall|j: int|
            0 <= j < c ==> (#[trigger] after[j].style@) != s;
    assert(c == before.len()) by {
        if c < before.len() {
        } else if c > before.len() {
            assert(after[before.len() as int].style@ == s);
        }
    }
}

/// Two different styles with the same fingerprint, registered one after the
/// other on one book, get different directories.
pub proof fn lemma_colliding_styles_get_distinct_dirs(
    book: Seq<EpubRenditionInfo>,
    base: Seq<char>,
    first: EpubRenditionInfo,
    second: StyleView,
    fingerprint: u64,
)
    requires
        first.style@ != second,
        first.dir_path_from_library_root@ == candidate_dir(
            base,
            fingerprint,
            first_free_candidate(book, first.style@, base, fingerprint, 1),
        ),
        book.len() + 1 < u64::MAX,
    ensures
        candidate_dir(
            base,
            fingerprint,
            first_free_candidate(book.push(first), second, base, fingerprint, 1),
        ) != first.dir_path_from_library_root@,
{
    let after = book.push(first);
    lemma_first_free_candidate(after, second, base, fingerprint, 1);
    let d = candidate_dir(base, fingerprint, first_free_candidate(after, second, base, fingerprint, 1));
    if d == first.dir_path_from_library_root@ {
        assert(after[book.len() as int] == first);
        assert(dir_taken(after, second, d));
    }
}

/// Why a book cannot be registered.
#[derive(Clone, Debug, PartialEq, Eq)]
pub enum BookError {
    /// The container has neither a release identifier nor a unique one.
    NoIdentifier,
    /// The container has no title.
    NoTitle,
    /// No spine item is linear.
    NoLinearItem,
    /// A spine item has a media type other than XHTML or SVG.
    UnexpectedMediaType(String),
    /// A resource would be written outside the extraction directory.
    ZipSlip(String),
    /// A table-of-contents target cannot be resolved against the book's root.
    TocPathAboveRoot(String),
}

/// The first resource, by position, that escapes `root`.
pub open spec fn first_escape(root: Seq<char>, paths: Seq<Seq<char>>) -> Option<int> {
    if exists|i: int| 0 <= i < paths.len() && contained_path(root, #[trigger] paths[i]).is_none() {
        Some(choose|i: int| 0 <= i < paths.len() && contained_path(root, #[trigger] paths[i]).is_none()
            && forall|j: int| 0 <= j < i ==> contained_path(root, #[trigger] paths[j]).is_some())
    } else {
        None
    }
}

proof fn lemma_first_escape_at(root: Seq<char>, v: Seq<Seq<char>>, i: int)
    requires
        0 <= i < v.len(),
        contained_path(root, v[i]).is_none(),
        forall|k: int| 0 <= k < i ==> (#[trigger] contained_path(root, v[k])).is_some(),
    ensures
        first_escape(root, v) == Some(i),
{
    let c = choose|c: int| 0 <= c < v.len() && contained_path(root, #[trigger] v[c]).is_none()
        && forall|j: int| 0 <= j < c ==> contained_path(root, #[trigger] v[j]).is_some();
    assert(c == i) by {
        if c < i {
        } else if c > i {
        }
    }
}

/// Where each resource is extracted under `raw_dir`, decided before anything
/// is written: an error naming the first resource that would land outside
/// `raw_dir`, so that nothing is written at all when one would.
#[verifier::spinoff_prover]
pub fn extraction_targets(raw_dir: &str, resource_paths: &Vec<String>) -> (r: Result<Vec<String>, BookError>)
    ensures
        match r {
            Ok(targets) => first_escape(raw_dir@, crate::paths::views(resource_paths@)).is_none()
                && targets.len() == resource_paths.len()
                && forall|i: int| 0 <= i < targets.len() ==> contained_path(raw_dir@, resource_paths@[i]@) == Some(#[trigger] targets@[i]@),
            Err(e) => match first_escape(raw_dir@, crate::paths::views(resource_paths@)) {
                Some(i) => e == BookError::ZipSlip(resource_paths@[i]),
                None => false,
            },
        },
{
    let ghost v = crate::paths::views(resource_paths@);
    let mut out: Vec<String> = Vec::new();
    let mut i: usize = 0;
    while i < resource_paths.len()
        invariant
            i <= resource_paths.len(),
            v == crate::paths::views(resource_paths@),
            out.len() == i,
            forall|k: int| 0 <= k < i ==> contained_path(raw_dir@, #[trigger] v[k]) == Some(out@[k]@),
        decreases resource_paths.len() - i,
    {
        assert(v[i as int] == resource_paths@[i as int]@);
        match contain_path(raw_dir, resource_paths[i].as_str()) {
            Some(p) => out.push(p),
            None => {
                proof {
                    lemma_first_escape_at(raw_dir@, v, i as int);
                }
                return Err(BookError::ZipSlip(resource_paths[i].clone()));
            },
        }
        i = i + 1;
    }
    assert forall|k: int| 0 <= k < v.len() implies (#[trigger] contained_path(raw_dir@, v[k])).is_some() by {
        assert(contained_path(raw_dir@, v[k]) == Some(out@[k]@));
    }
    assert(first_escape(raw_dir@, v).is_none());
    assert forall|k: int| 0 <= k < out.len() implies contained_path(raw_dir@, resource_paths@[k]@) == Some(#[trigger] out@[k]@) by {
        assert(v[k] == resource_paths@[k]@);
        assert(contained_path(raw_dir@, v[k]) == Some(out@[k]@));
    }
    Ok(out)
}

/// The spine format of a media type.
pub fn spine_format(media_type: &str) -> (r: Result<EpubSpineItemFormat, BookError>)
    ensures
        media_type@ == "image/svg+xml"@ ==> r == Ok::<EpubSpineItemFormat, BookError>(EpubSpineItemFormat::Svg),
        media_type@ == "application/xhtml+xml"@ ==> r == Ok::<EpubSpineItemFormat, BookError>(EpubSpineItemFormat::Xhtml),
        media_type@ != "image/svg+xml"@ && media_type@ != "application/xhtml+xml"@ ==> r is Err
            && r->Err_0 is UnexpectedMediaType && r->Err_0->UnexpectedMediaType_0@ == media_type@,
{
    proof {
        reveal_strlit("image/svg+xml");
        reveal_strlit("application/xhtml+xml");
        assert("image/svg+xml"@.len() != "application/xhtml+xml"@.len());
    }
    let m = String::from_str(media_type);
    if crate::epub::xhtml::same_text(&m, "image/svg+xml") {
        Ok(EpubSpineItemFormat::Svg)
    } else if crate::epub::xhtml::same_text(&m, "application/xhtml+xml") {
        Ok(EpubSpineItemFormat::Xhtml)
    } else {
        Err(BookError::UnexpectedMediaType(m))
    }
}

/// The book's stable identifier: the release identifier when there is one,
/// else the unique identifier.
pub fn book_id(release_identifier: Option<String>, unique_identifier: Option<String>) -> (r: Result<String, BookError>)
    ensures
        match release_identifier {
            Some(id) => r == Ok::<String, BookError>(id),
            None => match unique_identifier {
                Some(id) => r == Ok::<String, BookError>(id),
                None => r == Err::<String, BookError>(BookError::NoIdentifier),
            },
        },
{
    match release_identifier {
        Some(id) => Ok(id),
        None => match unique_identifier {
            Some(id) => Ok(id),
            None => Err(BookError::NoIdentifier),
        },
    }
}

impl EpubInfo {
    /// A newly registered book, opened at `request_time`, with its raw
    /// rendition of `raw_bytes` bytes under `<path>/raw`, entered at its
    /// first linear spine item. Fails without a title or a linear item.
    #[verifier::spinoff_prover]
    pub fn new_from_epub(
        id: String,
        title: Option<String>,
        creators: Vec<String>,
        cover_path: Option<String>,
        spine_items: Vec<EpubSpineItem>,
        nonspine_resource_paths: Vec<String>,
        table_of_contents: Vec<EpubTocItem>,
        path_from_library_root: String,
        request_time: Timestamp,
        raw_bytes: u64,
    ) -> (r: Result<EpubInfo, BookError>)
        ensures
            title.is_none() ==> r == Err::<EpubInfo, BookError>(BookError::NoTitle),
            title.is_some() && first_linear(spine_items@).is_none() ==> r == Err::<EpubInfo, BookError>(BookError::NoLinearItem),
            title.is_some() && first_linear(spine_items@).is_some() ==> r is Ok,
            match r {
                Ok(b) => {
                    &&& title == Some(b.title)
                    &&& b.id == id
                    &&& b.creators == creators
                    &&& b.cover_path == cover_path
                    &&& b.nonspine_resource_paths == nonspine_resource_paths
                    &&& b.table_of_contents == table_of_contents
                    &&& b.last_opened_styles@.len() == 0
                    &&& b.spine_items == spine_items
                    &&& b.path_from_library_root == path_from_library_root
                    &&& b.added_time == request_time
                    &&& b.last_opened_time == request_time
                    &&& b.first_linear_spine_item_path@ == spine_items@[first_linear(spine_items@).unwrap()].path@
                    &&& b.last_linear_spine_item_path@ == spine_items@[last_linear(spine_items@).unwrap()].path@
                    &&& b.raw_rendition.style@ == raw_style()
                    &&& b.raw_rendition.dir_path_from_library_root@ == path_join(path_from_library_root@, "raw"@)
                    &&& b.raw_rendition.default_file_path_from_library_root@ == path_join(path_join(path_from_library_root@, "raw"@), b.first_linear_spine_item_path@)
                    &&& b.raw_rendition.bytes == raw_bytes
                    &&& b.nonraw_renditions@.len() == 0
                },
                Err(_) => true,
            },
    {
        let title = match title {
            Some(t) => t,
            None => return Err(BookError::NoTitle),
        };
        let first = match crate::epub::navigation::first_linear_index(&spine_items) {
            Some(f) => f,
            None => return Err(BookError::NoLinearItem),
        };
        let last = match crate::epub::navigation::last_linear_index(&spine_items) {
            Some(l) => l,
            None => {
                proof {
                    lemma_linear_both(spine_items@);
                }
                return Err(BookError::NoLinearItem);
            },
        };
        let first_path = spine_items[first].path.clone();
        let last_path = spine_items[last].path.clone();
        let raw_dir = join_path(path_from_library_root.as_str(), "raw");
        proof {
            reveal_strlit("raw");
        }
        let default_file = join_path(raw_dir.as_str(), first_path.as_str());
        Ok(EpubInfo {
            id,
            title,
            creators,
            cover_path,
            first_linear_spine_item_path: first_path,
            last_linear_spine_item_path: last_path,
            path_from_library_root,
            added_time: request_time,
            last_opened_time: request_time,
            last_opened_styles: Vec::new(),
            spine_items,
            nonspine_resource_paths,
            table_of_contents,
            raw_rendition: EpubRenditionInfo {
                style: Style::raw(),
                dir_path_from_library_root: raw_dir,
                default_file_path_from_library_root: default_file,
                bytes: raw_bytes,
            },
            nonraw_renditions: Vec::new(),
        })
    }
}

impl EpubRenditionInfo {
    /// The rendition's entry file under the library root, with the viewer
    /// to open it with.
    pub fn open_in_browser(&self, library_path: &String, browser: &Option<String>) -> (r: crate::library::OpenRequest)
        ensures
            r.path@ == path_join(library_path@, self.default_file_path_from_library_root@),
            crate::style::opt_str(r.browser) == crate::style::opt_str(*browser),
    {
        crate::library::OpenRequest {
            path: join_path(library_path.as_str(), self.default_file_path_from_library_root.as_str()),
            browser: match browser {
                Some(b) => Some(b.clone()),
                None => None,
            },
        }
    }
}

/// The spine, from each item's path, media type and linear flag; paths
/// written with `/`; an error at the first unexpected media type.
pub fn get_epub_spine_items(items: &Vec<(String, String, bool)>) -> (r: Result<Vec<EpubSpineItem>, BookError>)
    ensures
        match r {
            Ok(v) => v.len() == items.len() && forall|i: int| 0 <= i < v.len() ==> (#[trigger] v@[i]).path@ == crate::paths::standard_path(items@[i].0@)
                && v@[i].linear == items@[i].2
                && (v@[i].format == EpubSpineItemFormat::Svg <==> items@[i].1@ == "image/svg+xml"@)
                && (v@[i].format == EpubSpineItemFormat::Xhtml <==> items@[i].1@ == "application/xhtml+xml"@),
            Err(e) => e is UnexpectedMediaType && exists|i: int| 0 <= i < items.len() && (#[trigger] items@[i]).1@ != "image/svg+xml"@
                && items@[i].1@ != "application/xhtml+xml"@,
        },
{
    proof {
        reveal_strlit("image/svg+xml");
        reveal_strlit("application/xhtml+xml");
        assert("image/svg+xml"@.len() != "application/xhtml+xml"@.len());
    }
    let mut out: Vec<EpubSpineItem> = Vec::new();
    let mut i: usize = 0;
    while i < items.len()
        invariant
            i <= items.len(),
            out.len() == i,
            "image/svg+xml"@ != "application/xhtml+xml"@,
            forall|k: int| 0 <= k < i ==> (#[trigger] out@[k]).path@ == crate::paths::standard_path(items@[k].0@)
                && out@[k].linear == items@[k].2
                && (out@[k].format == EpubSpineItemFormat::Svg <==> items@[k].1@ == "image/svg+xml"@)
                && (out@[k].format == EpubSpineItemFormat::Xhtml <==> items@[k].1@ == "application/xhtml+xml"@),
        decreases items.len() - i,
    {
        let format = match spine_format(items[i].1.as_str()) {
            Ok(f) => f,
            Err(e) => {
                assert(items@[i as int].1@ != "image/svg+xml"@ && items@[i as int].1@ != "application/xhtml+xml"@);
                return Err(e);
            },
        };
        out.push(
            EpubSpineItem {
                path: crate::paths::make_pathbuf_separators_consistent(items[i].0.as_str()),
                format,
                linear: items[i].2,
            },
        );
        i = i + 1;
    }
    Ok(out)
}

/// Resources that are not spine items, paths written with `/`, in order.
pub fn get_epub_nonspine_resource_paths(resources: &Vec<String>, spine: &Vec<EpubSpineItem>) -> (r: Vec<String>)
    ensures
        crate::paths::views(r@) == nonspine(crate::paths::views(resources@), spine@.map_values(|s: EpubSpineItem| s.path@), resources.len() as int),
{
    let ghost paths = spine@.map_values(|s: EpubSpineItem| s.path@);
    let mut out: Vec<String> = Vec::new();
    let mut i: usize = 0;
    while i < resources.len()
        invariant
            i <= resources.len(),
            paths == spine@.map_values(|s: EpubSpineItem| s.path@),
            crate::paths::views(out@) == nonspine(crate::paths::views(resources@), paths, i as int),
        decreases resources.len() - i,
    {
        let mut in_spine = false;
        let mut k: usize = 0;
        while k < spine.len()
            invariant
                k <= spine.len(),
                i < resources.len(),
                paths == spine@.map_values(|s: EpubSpineItem| s.path@),
                in_spine == exists|j: int| 0 <= j < k && paths[j] == resources@[i as int]@,
            decreases spine.len() - k,
        {
            assert(paths[k as int] == spine@[k as int].path@);
            if spine[k].path == resources[i] {
                in_spine = true;
            }
            proof {
                if exists|j: int| 0 <= j < k + 1 && paths[j] == resources@[i as int]@ {
                    let j = choose|j: int| 0 <= j < k + 1 && paths[j] == resources@[i as int]@;
                    if j < k {
                        assert(exists|j2: int| 0 <= j2 < k && paths[j2] == resources@[i as int]@);
                    }
                }
            }
            k = k + 1;
        }
        let ghost before = crate::paths::views(out@);
        assert(crate::paths::views(resources@)[i as int] == resources@[i as int]@);
        if !in_spine {
            out.push(crate::paths::make_pathbuf_separators_consistent(resources[i].as_str()));
            assert(crate::paths::views(out@) =~= before.push(crate::paths::standard_path(resources@[i as int]@)));
        } else {
            let ghost j = choose|j: int| 0 <= j < spine.len() && paths[j] == resources@[i as int]@;
            assert(paths.contains(resources@[i as int]@));
        }
        proof {
            if !in_spine {
                assert(!paths.contains(resources@[i as int]@)) by {
                    if paths.contains(resources@[i as int]@) {
                        let w = choose|w: int| 0 <= w < paths.len() && paths[w] == resources@[i as int]@;
                    }
                }
            }
        }
        i = i + 1;
    }
    out
}

/// The first `n` resources that no spine item has, standardized.
pub open spec fn nonspine(resources: Seq<Seq<char>>, spine_paths: Seq<Seq<char>>, n: int) -> Seq<Seq<char>>
    decreases n,
{
    if n <= 0 || n > resources.len() {
        Seq::empty()
    } else if spine_paths.contains(resources[n - 1]) {
        nonspine(resources, spine_paths, n - 1)
    } else {
        nonspine(resources, spine_paths, n - 1).push(crate::paths::standard_path(resources[n - 1]))
    }
}

/// The values of the `creator` metadata items, in order.
pub fn get_epub_creators(metadata: &Vec<(String, String)>) -> (r: Vec<String>)
    ensures
        crate::paths::views(r@) == creators_of(metadata@.map_values(|m: (String, String)| (m.0@, m.1@)), metadata.len() as int),
{
    let ghost mv = metadata@.map_values(|m: (String, String)| (m.0@, m.1@));
    let mut out: Vec<String> = Vec::new();
    let mut i: usize = 0;
    while i < metadata.len()
        invariant
            i <= metadata.len(),
            mv == metadata@.map_values(|m: (String, String)| (m.0@, m.1@)),
            crate::paths::views(out@) == creators_of(mv, i as int),
        decreases metadata.len() - i,
    {
        let ghost before = crate::paths::views(out@);
        proof {
            reveal_strlit("creator");
        }
        if crate::epub::xhtml::same_text(&metadata[i].0, "creator") {
            out.push(metadata[i].1.clone());
            assert(crate::paths::views(out@) =~= before.push(mv[i as int].1));
        }
        i = i + 1;
    }
    out
}

pub open spec fn creators_of(metadata: Seq<(Seq<char>, Seq<char>)>, n: int) -> Seq<Seq<char>>
    decreases n,
{
    if n <= 0 || n > metadata.len() {
        Seq::empty()
    } else if metadata[n - 1].0 == "creator"@ {
        creators_of(metadata, n - 1).push(metadata[n - 1].1)
    } else {
        creators_of(metadata, n - 1)
    }
}

/// The URL that table-of-contents targets are resolved against.
pub const TOC_BASE_URL: &'static str = "file:///";

/// The target of a table-of-contents entry resolved against the book's
/// root: with its fragment and without it, both relative to the root and
/// written with `/`, and the `#...` fragment itself.
pub open spec fn toc_targets(content: Seq<char>) -> Option<(Seq<char>, Seq<char>, Option<Seq<char>>)> {
    match crate::markup::url_join_of(TOC_BASE_URL@, content) {
        None => None,
        Some(u) => match (
            crate::markup::url_relative_of(TOC_BASE_URL@, u),
            crate::markup::url_relative_of(TOC_BASE_URL@, crate::markup::without_suffixes(u)),
        ) {
            (Some(with), Some(without)) => Some((
                crate::paths::standard_path(with),
                crate::paths::standard_path(without),
                fragment_of(u),
            )),
            _ => None,
        },
    }
}

/// The part of a URL from its first `#` on, if it has one.
pub open spec fn fragment_of(u: Seq<char>) -> Option<Seq<char>>
    decreases u.len(),
{
    if u.len() == 0 {
        None
    } else if u[0] == '#' {
        Some(u)
    } else {
        fragment_of(u.drop_first())
    }
}

fn fragment_exec(u: &str) -> (r: Option<String>)
    ensures
        match r {
            Some(f) => fragment_of(u@) == Some(f@),
            None => fragment_of(u@).is_none(),
        },
{
    let n = u.unicode_len();
    let mut i: usize = 0;
    assert(u@.subrange(0, n as int) =~= u@);
    while i < n
        invariant
            n == u@.len(),
            i <= n,
            fragment_of(u@) == fragment_of(u@.subrange(i as int, n as int)),
        decreases n - i,
    {
        assert(u@.subrange(i as int, n as int).drop_first() =~= u@.subrange(i as int + 1, n as int));
        if u.get_char(i) == '#' {
            return Some(String::from_str(u.substring_char(i, n)));
        }
        i = i + 1;
    }
    assert(u@.subrange(n as int, n as int).len() == 0);
    None
}

impl EpubTocItem {
    /// An entry from its label, its target as the table of contents gives
    /// it, its children and its depth; an error when the target cannot be
    /// resolved against the book's root.
    pub fn from_epub_library_representation(label: String, content: &str, children: Vec<EpubTocItem>, nesting_level: u64) -> (r: Result<Self, BookError>)
        ensures
            match r {
                Ok(t) => toc_targets(content@) == Some((t.path_with_fragment@, t.path_without_fragment@, crate::style::opt_str(t.fragment)))
                    && t.label == label && t.children == children && t.nesting_level == nesting_level,
                Err(e) => toc_targets(content@).is_none() && e is TocPathAboveRoot,
            },
    {
        let joined = match crate::markup::url_join(TOC_BASE_URL, content) {
            Some(u) => u,
            None => return Err(BookError::TocPathAboveRoot(String::from_str(content))),
        };
        let stripped = crate::markup::strip_suffixes(joined.as_str());
        let with = crate::markup::url_make_relative(TOC_BASE_URL, joined.as_str());
        let without = crate::markup::url_make_relative(TOC_BASE_URL, stripped.as_str());
        match (with, without) {
            (Some(w), Some(wo)) => Ok(EpubTocItem {
                label,
                path_without_fragment: crate::paths::make_pathbuf_separators_consistent(wo.as_str()),
                path_with_fragment: crate::paths::make_pathbuf_separators_consistent(w.as_str()),
                fragment: fragment_exec(joined.as_str()),
                children,
                nesting_level,
            }),
            _ => Err(BookError::TocPathAboveRoot(String::from_str(content))),
        }
    }

    /// The entry and everything nested under it, in preorder, as entries.
    pub fn flattened(&self) -> (r: Vec<crate::epub::index::TocEntry>)
        ensures
            crate::epub::index::entry_views(r@) == self.spec_flattened().map_values(|t: EpubTocItem| crate::epub::index::item_entry(t)),
    {
        let mut out: Vec<crate::epub::index::TocEntry> = Vec::new();
        crate::epub::index::flatten_into(self, &mut out);
        assert(crate::epub::index::entry_views(out@) =~= self.spec_flattened().map_values(|t: EpubTocItem| crate::epub::index::item_entry(t)));
        out
    }
}

/// The file a rendition in `dir` opens at: its index page when it has one,
/// else the navigation page of the first linear item when sections sit in
/// wrappers, else that item's rewritten section.
pub open spec fn rendition_entry(spine: Seq<EpubSpineItem>, maps: Seq<SpineNavigationMap>, s: StyleView, dir: Seq<char>) -> Option<Seq<char>> {
    if s.include_index {
        Some(path_join(dir, "index.xhtml"@))
    } else {
        match first_linear(spine) {
            None => None,
            Some(f) => if s.inject_navigation {
                Some(path_join(dir, maps[f].navigation_filename@))
            } else {
                Some(path_join(path_join(dir, "contents"@), spine[f].path@))
            },
        }
    }
}

impl EpubInfo {
    /// The entry file of a rendition of this book in `dir` (see `rendition_entry`).
    pub fn rendition_entry_file(&self, style: &Style, dir: &str, maps: &Vec<SpineNavigationMap>) -> (r: Option<String>)
        requires
            maps.len() == self.spine_items.len(),
        ensures
            match r {
                Some(p) => rendition_entry(self.spine_items@, maps@, style@, dir@) == Some(p@),
                None => rendition_entry(self.spine_items@, maps@, style@, dir@).is_none(),
            },
    {
        if style.include_index {
            return Some(join_path(dir, "index.xhtml"));
        }
        match crate::epub::navigation::first_linear_index(&self.spine_items) {
            None => None,
            Some(f) => if style.inject_navigation {
                Some(join_path(dir, maps[f].navigation_filename.as_str()))
            } else {
                let contents = join_path(dir, "contents");
                proof {
                    reveal_strlit("contents");
                }
                Some(join_path(contents.as_str(), self.spine_items[f].path.as_str()))
            },
        }
    }

    /// Each spine item's path with the name of its navigation page.
    pub fn navigation_targets(&self, maps: &Vec<SpineNavigationMap>) -> (r: Vec<(String, String)>)
        requires
            forall|i: int| 0 <= i < maps.len() ==> (#[trigger] maps@[i]).spine_index < self.spine_items.len(),
        ensures
            r.len() == maps.len(),
            forall|i: int| 0 <= i < r.len() ==> (#[trigger] r@[i]).0@ == self.spine_items@[maps@[i].spine_index as int].path@
                && r@[i].1@ == maps@[i].navigation_filename@,
    {
        let mut out: Vec<(String, String)> = Vec::new();
        let mut i: usize = 0;
        while i < maps.len()
            invariant
                i <= maps.len(),
                out.len() == i,
                forall|k: int| 0 <= k < maps.len() ==> (#[trigger] maps@[k]).spine_index < self.spine_items.len(),
                forall|k: int| 0 <= k < i ==> (#[trigger] out@[k]).0@ == self.spine_items@[maps@[k].spine_index as int].path@
                    && out@[k].1@ == maps@[k].navigation_filename@,
            decreases maps.len() - i,
        {
            let m = &maps[i];
            out.push((self.spine_items[m.spine_index].path.clone(), m.navigation_filename.clone()));
            i = i + 1;
        }
        out
    }
}

/// The name of a rendition's contents directory, relative to the rendition.
pub const CONTENTS_DIR_NAME: &'static str = "contents";

/// The files of a rendition in `dir`, under the library root.
#[derive(Clone, Debug)]
pub struct RenditionFiles {
    /// The rewritten sections and the other resources.
    pub contents: String,
    /// The stylesheet that the book's own rules may outrank.
    pub no_override_stylesheet: String,
    /// The stylesheet that overrides the book's rules.
    pub override_stylesheet: String,
    /// The wrapper pages' stylesheet.
    pub navigation_stylesheet: String,
    /// The index page.
    pub index_page: String,
    /// The index page's stylesheet.
    pub index_stylesheet: String,
}

/// Where each file of a rendition in `dir` lies; the wrapper pages and the
/// index page link to one another and to their stylesheets by these names.
pub fn rendition_files(dir: &str) -> (r: RenditionFiles)
    ensures
        r.contents@ == path_join(dir@, "contents"@),
        r.no_override_stylesheet@ == path_join(dir@, "no_override_styles.css"@),
        r.override_stylesheet@ == path_join(dir@, "override_styles.css"@),
        r.navigation_stylesheet@ == path_join(dir@, "navigation_styles.css"@),
        r.index_page@ == path_join(dir@, "index.xhtml"@),
        r.index_stylesheet@ == path_join(dir@, "index_styles.css"@),
{
    RenditionFiles {
        contents: join_path(dir, "contents"),
        no_override_stylesheet: join_path(dir, "no_override_styles.css"),
        override_stylesheet: join_path(dir, "override_styles.css"),
        navigation_stylesheet: join_path(dir, "navigation_styles.css"),
        index_page: join_path(dir, "index.xhtml"),
        index_stylesheet: join_path(dir, "index_styles.css"),
    }
}

} // verus!
