//! Pure path and number text: decimal digits, zero padding, joining relative
//! paths, splitting on separators, and lexical containment under a root.
use vstd::prelude::*;

verus! {

/// Width of a zero-padded `u64`: the number of digits of `u64::MAX`.
pub const U64_DECIMAL_WIDTH: usize = 20;

pub open spec fn digit_char(d: nat) -> char {
    if d == 0 { '0' }
    else if d == 1 { '1' }
    else if d == 2 { '2' }
    else if d == 3 { '3' }
    else if d == 4 { '4' }
    else if d == 5 { '5' }
    else if d == 6 { '6' }
    else if d == 7 { '7' }
    else if d == 8 { '8' }
    else { '9' }
}

/// The decimal digits of `n`, most significant first, without leading zeros.
pub open spec fn decimal(n: nat) -> Seq<char>
    decreases n,
{
    if n < 10 {
        seq![digit_char(n)]
    } else {
        decimal(n / 10).push(digit_char(n % 10))
    }
}

/// `s` preceded by zeros up to `width` characters.
pub open spec fn zero_padded(s: Seq<char>, width: nat) -> Seq<char> {
    if s.len() < width {
        Seq::new((width - s.len()) as nat, |i: int| '0') + s
    } else {
        s
    }
}

/// A path relative to `base`: `name` under it, or `name` alone when `base` is empty.
pub open spec fn path_join(base: Seq<char>, name: Seq<char>) -> Seq<char> {
    if base.len() == 0 {
        name
    } else {
        base + seq!['/'] + name
    }
}

pub open spec fn is_separator(c: char) -> bool {
    c == '/' || c == '\\'
}

/// The pieces of `s` between separators (an empty piece where two meet).
pub open spec fn split_segments(s: Seq<char>) -> Seq<Seq<char>>
    decreases s.len(),
{
    if s.len() == 0 {
        seq![Seq::empty()]
    } else {
        let r = split_segments(s.drop_last());
        if is_separator(s.last()) {
            r.push(Seq::empty())
        } else {
            r.update(r.len() - 1, r.last().push(s.last()))
        }
    }
}

pub open spec fn is_current_dir(seg: Seq<char>) -> bool {
    seg == seq!['.']
}

pub open spec fn is_parent_dir(seg: Seq<char>) -> bool {
    seg == seq!['.', '.']
}

/// The segments that name something: not empty, not `.`.
pub open spec fn named_segments(segs: Seq<Seq<char>>) -> Seq<Seq<char>>
    decreases segs.len(),
{
    if segs.len() == 0 {
        Seq::empty()
    } else {
        let r = named_segments(segs.drop_last());
        if segs.last().len() == 0 || is_current_dir(segs.last()) {
            r
        } else {
            r.push(segs.last())
        }
    }
}

/// Segments joined by `/`.
pub open spec fn slash_joined(segs: Seq<Seq<char>>) -> Seq<char>
    decreases segs.len(),
{
    if segs.len() == 0 {
        Seq::empty()
    } else if segs.len() == 1 {
        segs[0]
    } else {
        slash_joined(segs.drop_last()) + seq!['/'] + segs.last()
    }
}

/// A path written with `/` alone: separators of either kind become one `/`,
/// empty and `.` segments go, and a leading separator stays.
pub open spec fn standard_path(s: Seq<char>) -> Seq<char> {
    let body = slash_joined(named_segments(split_segments(s)));
    if s.len() > 0 && is_separator(s[0]) {
        seq!['/'] + body
    } else {
        body
    }
}

/// The segments of a relative path after each `..` has removed the segment
/// before it; `None` when a `..` would climb above the start.
pub open spec fn resolved_segments(segs: Seq<Seq<char>>) -> Option<Seq<Seq<char>>>
    decreases segs.len(),
{
    if segs.len() == 0 {
        Some(Seq::empty())
    } else {
        match resolved_segments(segs.drop_last()) {
            None => None,
            Some(r) => if is_parent_dir(segs.last()) {
                if r.len() == 0 {
                    None
                } else {
                    Some(r.drop_last())
                }
            } else {
                Some(r.push(segs.last()))
            },
        }
    }
}

/// Where a path given relative to `root` lands, lexically: `None` when it is
/// absolute or climbs out of `root`.
pub open spec fn contained_path(root: Seq<char>, rel: Seq<char>) -> Option<Seq<char>> {
    if rel.len() > 0 && is_separator(rel[0]) {
        None
    } else {
        match resolved_segments(named_segments(split_segments(rel))) {
            Some(r) => Some(path_join(root, slash_joined(r))),
            None => None,
        }
    }
}

fn digit_str(d: u64) -> (r: &'static str)
    requires
        d < 10,
    ensures
        r@ == seq![digit_char(d as nat)],
{
    proof {
        reveal_strlit("0");
        reveal_strlit("1");
        reveal_strlit("2");
        reveal_strlit("3");
        reveal_strlit("4");
        reveal_strlit("5");
        reveal_strlit("6");
        reveal_strlit("7");
        reveal_strlit("8");
        reveal_strlit("9");
    }
    if d == 0 { "0" }
    else if d == 1 { "1" }
    else if d == 2 { "2" }
    else if d == 3 { "3" }
    else if d == 4 { "4" }
    else if d == 5 { "5" }
    else if d == 6 { "6" }
    else if d == 7 { "7" }
    else if d == 8 { "8" }
    else { "9" }
}

fn append_decimal(out: &mut String, n: u64)
    ensures
        final(out)@ == old(out)@ + decimal(n as nat),
    decreases n,
{
    if n >= 10 {
        append_decimal(out, n / 10);
    }
    out.append(digit_str(n % 10));
}

/// The decimal text of `n`.
pub fn decimal_string(n: u64) -> (r: String)
    ensures
        r@ == decimal(n as nat),
{
    let mut out = String::new();
    append_decimal(&mut out, n);
    assert(out@ =~= decimal(n as nat));
    out
}

/// The decimal text of `n`, preceded by zeros up to `width` characters.
pub fn zero_padded_decimal(n: u64, width: usize) -> (r: String)
    ensures
        r@ == zero_padded(decimal(n as nat), width as nat),
{
    let digits = decimal_string(n);
    let len = digits.as_str().unicode_len();
    let mut out = String::new();
    if len < width {
        let mut i: usize = 0;
        while i < width - len
            invariant
                len < width,
                i <= width - len,
                out@ == Seq::new(i as nat, |k: int| '0'),
            decreases width - len - i,
        {
            out.append("0");
            proof {
                reveal_strlit("0");
                assert(out@ =~= Seq::new((i + 1) as nat, |k: int| '0'));
            }
            i = i + 1;
        }
    }
    out.append(digits.as_str());
    assert(out@ =~= zero_padded(decimal(n as nat), width as nat));
    out
}

/// `name` under `base`, or `name` alone when `base` is empty.
pub fn join_path(base: &str, name: &str) -> (r: String)
    ensures
        r@ == path_join(base@, name@),
{
    let mut out = String::from_str(base);
    if base.unicode_len() > 0 {
        out.append("/");
        proof {
            reveal_strlit("/");
        }
    }
    out.append(name);
    out
}

fn char_is_separator(c: char) -> (r: bool)
    ensures
        r == is_separator(c),
{
    c == '/' || c == '\\'
}

/// The pieces of `s` between separators.
pub fn split_on_separators(s: &str) -> (r: Vec<String>)
    ensures
        r@.map_values(|x: String| x@) == split_segments(s@),
{
    let n = s.unicode_len();
    let mut segs: Vec<String> = Vec::new();
    let mut start: usize = 0;
    let mut i: usize = 0;
    assert(s@.subrange(0, 0).len() == 0);
    assert(split_segments(s@.subrange(0, 0)) == seq![Seq::<char>::empty()]);
    assert(segs@.map_values(|x: String| x@) =~= Seq::<Seq<char>>::empty());
    assert(s@.subrange(0, 0) =~= Seq::<char>::empty());
    assert(segs@.map_values(|x: String| x@).push(s@.subrange(0, 0)) =~= split_segments(
        s@.subrange(0, 0),
    ));
    while i < n
        invariant
            n == s@.len(),
            start <= i <= n,
            segs@.map_values(|x: String| x@).push(s@.subrange(start as int, i as int))
                == split_segments(s@.subrange(0, i as int)),
        decreases n - i,
    {
        let c = s.get_char(i);
        let ghost before = segs@.map_values(|x: String| x@);
        assert(s@.subrange(0, i as int + 1).drop_last() =~= s@.subrange(0, i as int));
        if char_is_separator(c) {
            let piece = s.substring_char(start, i);
            let ghost old_start = start;
            segs.push(String::from_str(piece));
            start = i + 1;
            assert(segs@.map_values(|x: String| x@) =~= before.push(
                s@.subrange(old_start as int, i as int),
            ));
            assert(s@.subrange(start as int, i as int + 1) =~= Seq::<char>::empty());
            assert(segs@.map_values(|x: String| x@).push(s@.subrange(start as int, i as int + 1))
                =~= split_segments(s@.subrange(0, i as int + 1)));
        } else {
            assert(s@.subrange(start as int, i as int + 1) =~= s@.subrange(start as int, i as int).push(c));
            assert(segs@.map_values(|x: String| x@).push(s@.subrange(start as int, i as int + 1))
                =~= split_segments(s@.subrange(0, i as int + 1)));
        }
        i = i + 1;
    }
    let piece = s.substring_char(start, n);
    segs.push(String::from_str(piece));
    assert(s@.subrange(0, n as int) =~= s@);
    assert(segs@.map_values(|x: String| x@) =~= split_segments(s@));
    segs
}

pub open spec fn views(v: Seq<String>) -> Seq<Seq<char>> {
    v.map_values(|x: String| x@)
}

fn segment_is_current_dir(seg: &String) -> (r: bool)
    ensures
        r == is_current_dir(seg@),
{
    let t = seg.as_str();
    let r = t.unicode_len() == 1 && t.get_char(0) == '.';
    assert(r ==> t@ =~= seq!['.']);
    r
}

fn segment_is_parent_dir(seg: &String) -> (r: bool)
    ensures
        r == is_parent_dir(seg@),
{
    let t = seg.as_str();
    let r = t.unicode_len() == 2 && t.get_char(0) == '.' && t.get_char(1) == '.';
    assert(r ==> t@ =~= seq!['.', '.']);
    r
}

fn keep_named(segs: &Vec<String>) -> (r: Vec<String>)
    ensures
        views(r@) == named_segments(views(segs@)),
{
    let mut out: Vec<String> = Vec::new();
    let mut i: usize = 0;
    while i < segs.len()
        invariant
            i <= segs.len(),
            views(out@) == named_segments(views(segs@.subrange(0, i as int))),
        decreases segs.len() - i,
    {
        assert(views(segs@.subrange(0, i as int + 1)).drop_last() =~= views(
            segs@.subrange(0, i as int),
        ));
        let seg = &segs[i];
        if seg.as_str().unicode_len() == 0 || segment_is_current_dir(seg) {
        } else {
            out.push(seg.clone());
        }
        assert(views(out@) =~= named_segments(views(segs@.subrange(0, i as int + 1))));
        i = i + 1;
    }
    assert(segs@.subrange(0, segs.len() as int) =~= segs@);
    out
}

fn join_with_slash(segs: &Vec<String>) -> (r: String)
    ensures
        r@ == slash_joined(views(segs@)),
{
    let mut out = String::new();
    let mut i: usize = 0;
    proof {
        reveal_strlit("/");
    }
    while i < segs.len()
        invariant
            i <= segs.len(),
            out@ == slash_joined(views(segs@.subrange(0, i as int))),
        decreases segs.len() - i,
    {
        assert(views(segs@.subrange(0, i as int + 1)).drop_last() =~= views(
            segs@.subrange(0, i as int),
        ));
        let ghost prev = out@;
        proof {
            reveal_strlit("/");
        }
        if i > 0 {
            out.append("/");
        }
        out.append(segs[i].as_str());
        assert(views(segs@.subrange(0, i as int + 1)).last() == segs@[i as int]@);
        if i == 0 {
            assert(out@ =~= slash_joined(views(segs@.subrange(0, i as int + 1))));
        } else {
            assert(out@ =~= prev + seq!['/'] + segs@[i as int]@);
        }
        i = i + 1;
    }
    assert(segs@.subrange(0, segs.len() as int) =~= segs@);
    out
}

/// The path written with `/` alone (see `standard_path`).
pub fn make_pathbuf_separators_consistent(path: &str) -> (r: String)
    ensures
        r@ == standard_path(path@),
{
    let segs = split_on_separators(path);
    let named = keep_named(&segs);
    let body = join_with_slash(&named);
    if path.unicode_len() > 0 && char_is_separator(path.get_char(0)) {
        let mut out = String::from_str("/");
        proof {
            reveal_strlit("/");
        }
        out.append(body.as_str());
        out
    } else {
        body
    }
}

fn resolve_parents(segs: &Vec<String>) -> (r: Option<Vec<String>>)
    ensures
        match r {
            Some(v) => resolved_segments(views(segs@)) == Some(views(v@)),
            None => resolved_segments(views(segs@)).is_none(),
        },
{
    let mut out: Vec<String> = Vec::new();
    let mut i: usize = 0;
    while i < segs.len()
        invariant
            i <= segs.len(),
            resolved_segments(views(segs@.subrange(0, i as int))) == Some(views(out@)),
        decreases segs.len() - i,
    {
        assert(views(segs@.subrange(0, i as int + 1)).drop_last() =~= views(
            segs@.subrange(0, i as int),
        ));
        if segment_is_parent_dir(&segs[i]) {
            if out.len() == 0 {
                proof {
                    assert(views(segs@).subrange(0, i as int + 1) =~= views(
                        segs@.subrange(0, i as int + 1),
                    ));
                    lemma_resolved_none_extends(views(segs@), i as int + 1);
                }
                return None;
            }
            out.pop();
        } else {
            out.push(segs[i].clone());
        }
        assert(resolved_segments(views(segs@.subrange(0, i as int + 1))) =~= Some(views(out@)));
        i = i + 1;
    }
    assert(segs@.subrange(0, segs.len() as int) =~= segs@);
    Some(out)
}

proof fn lemma_resolved_none_extends(s: Seq<Seq<char>>, i: int)
    requires
        0 <= i <= s.len(),
        resolved_segments(s.subrange(0, i)).is_none(),
    ensures
        resolved_segments(s).is_none(),
    decreases s.len() - i,
{
    if i < s.len() {
        assert(s.subrange(0, i + 1).drop_last() =~= s.subrange(0, i));
        lemma_resolved_none_extends(s, i + 1);
    } else {
        assert(s.subrange(0, i) =~= s);
    }
}

/// Where `rel`, taken relative to `root`, lands; `None` when it is absolute
/// or climbs out of `root` (see `contained_path`).
pub fn contain_path(root: &str, rel: &str) -> (r: Option<String>)
    ensures
        match r {
            Some(p) => contained_path(root@, rel@) == Some(p@),
            None => contained_path(root@, rel@).is_none(),
        },
{
    if rel.unicode_len() > 0 && char_is_separator(rel.get_char(0)) {
        return None;
    }
    let segs = split_on_separators(rel);
    let named = keep_named(&segs);
    match resolve_parents(&named) {
        Some(resolved) => {
            let body = join_with_slash(&resolved);
            Some(join_path(root, body.as_str()))
        },
        None => None,
    }
}

proof fn lemma_decimal_len(n: nat)
    ensures
        decimal(n).len() >= 1,
        n >= 10 ==> decimal(n).len() >= 2,
    decreases n,
{
    if n >= 10 {
        lemma_decimal_len(n / 10);
    }
}

proof fn lemma_digit_injective(a: nat, b: nat)
    requires
        a < 10,
        b < 10,
        digit_char(a) == digit_char(b),
    ensures
        a == b,
{
}

pub proof fn lemma_decimal_injective(a: nat, b: nat)
    requires
        decimal(a) == decimal(b),
    ensures
        a == b,
    decreases a + b,
{
    lemma_decimal_len(a);
    lemma_decimal_len(b);
    if a < 10 && b < 10 {
        assert(decimal(a)[0] == digit_char(a));
        assert(decimal(b)[0] == digit_char(b));
        lemma_digit_injective(a, b);
    } else if a >= 10 && b >= 10 {
        assert(decimal(a).last() == digit_char(a % 10));
        assert(decimal(b).last() == digit_char(b % 10));
        lemma_digit_injective(a % 10, b % 10);
        assert(decimal(a).last() == decimal(b).last());
        assert(decimal(a).drop_last() =~= decimal(a / 10));
        assert(decimal(b).drop_last() =~= decimal(b / 10));
        lemma_decimal_injective(a / 10, b / 10);
    }
}

/// `stem`, with `_k` after it from the second name on.
pub open spec fn suffixed_name(stem: Seq<char>, k: nat) -> Seq<char> {
    if k <= 1 {
        stem
    } else {
        stem + seq!['_'] + decimal(k)
    }
}

pub proof fn lemma_suffixed_names_distinct(stem: Seq<char>, j: nat, k: nat)
    requires
        1 <= j < k,
    ensures
        suffixed_name(stem, j) != suffixed_name(stem, k),
{
    let nj = suffixed_name(stem, j);
    let nk = suffixed_name(stem, k);
    lemma_decimal_len(k);
    if nj == nk && j > 1 {
        assert(decimal(j) =~= nj.subrange(stem.len() as int + 1, nj.len() as int));
        assert(decimal(k) =~= nk.subrange(stem.len() as int + 1, nk.len() as int));
        lemma_decimal_injective(j, k);
    }
}

pub proof fn lemma_path_join_injective(base: Seq<char>, a: Seq<char>, b: Seq<char>)
    requires
        a != b,
    ensures
        path_join(base, a) != path_join(base, b),
{
    let pre = if base.len() == 0 {
        0
    } else {
        base.len() + 1
    };
    assert(a =~= path_join(base, a).subrange(pre as int, path_join(base, a).len() as int));
    assert(b =~= path_join(base, b).subrange(pre as int, path_join(base, b).len() as int));
}

/// Among `n + 1` pairwise different names, one is missing from `n` taken names.
pub proof fn lemma_some_candidate_free(taken: Seq<Seq<char>>, names: spec_fn(int) -> Seq<char>)
    requires
        forall|j: int, k: int| 1 <= j < k <= taken.len() + 1 ==> #[trigger] names(j) != #[trigger] names(k),
    ensures
        exists|k: int| 1 <= k <= taken.len() + 1 && !taken.contains(#[trigger] names(k)),
{
    if forall|k: int| 1 <= k <= taken.len() + 1 ==> taken.contains(#[trigger] names(k)) {
        let ks = Set::new(|k: int| 1 <= k <= taken.len() + 1);
        vstd::set_lib::lemma_int_range(1, taken.len() as int + 2);
        assert(ks =~= vstd::set_lib::set_int_range(1, taken.len() as int + 2));
        let img = ks.map(names);
        assert(vstd::relations::injective_on(names, ks)) by {
            assert forall|a: int, b: int| ks.contains(a) && ks.contains(b) && #[trigger] names(a)
                == #[trigger] names(b) implies a == b by {
                if a < b {
                } else if b < a {
                }
            }
        }
        vstd::set_lib::lemma_map_size(ks, img, names);
        assert(img.subset_of(taken.to_set())) by {
            assert forall|x: Seq<char>| img.contains(x) implies taken.to_set().contains(x) by {
                let k = choose|k: int| ks.contains(k) && names(k) == x;
                assert(taken.contains(names(k)));
            }
        }
        taken.lemma_cardinality_of_set();
        vstd::set_lib::lemma_len_subset(img, taken.to_set());
        assert(false);
    }
}

} // verus!
