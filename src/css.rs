//! A small CSS writer: blocks of declaration lines, optionally nested, that
//! render with tab indentation and a blank line between blocks.
use vstd::prelude::*;

use crate::style::{
    style_link_color, style_max_image_height, style_max_image_width, PropertyView, Style,
    StylesheetValue,
};

verus! {

broadcast use vstd::std_specs::vec::group_vec_axioms;

#[derive(Debug)]
pub enum CssBlockContents {
    Line(String),
    Block(CssBlock),
}

#[derive(Debug)]
pub struct CssBlock {
    pub prefix: String,
    pub contents: Vec<CssBlockContents>,
}

#[derive(Debug)]
pub struct CssFile {
    pub blocks: Vec<CssBlock>,
}

/// What was written last inside a block.
#[derive(Clone, Copy, Debug, PartialEq, Eq, Structural)]
pub enum CssBlockMostRecentContents {
    Nothing,
    Line,
    Block,
}

/// A block renders to nothing when it holds no line, directly or in a
/// nested block.
pub open spec fn block_is_empty(b: CssBlock) -> bool
    decreases b, 1int, 0int,
{
    contents_empty(b, b.contents.len() as int)
}

/// The first `n` contents of `b` hold no line, directly or nested.
pub open spec fn contents_empty(b: CssBlock, n: int) -> bool
    decreases b, 0int, n,
{
    if n <= 0 || n > b.contents.len() {
        true
    } else {
        contents_empty(b, n - 1) && match b.contents[n - 1] {
            CssBlockContents::Line(_) => false,
            CssBlockContents::Block(c) => {
                &&& decreases_to!(b => c)
                &&& block_is_empty(c)
            },
        }
    }
}

pub open spec fn tabs(n: nat) -> Seq<char> {
    Seq::new(n, |i: int| '\t')
}

/// What was written last among the first `n` contents of `b`.
pub open spec fn last_written(b: CssBlock, n: int) -> CssBlockMostRecentContents
    decreases b, 0int, n,
{
    if n <= 0 || n > b.contents.len() {
        CssBlockMostRecentContents::Nothing
    } else {
        match b.contents[n - 1] {
            CssBlockContents::Line(_) => CssBlockMostRecentContents::Line,
            CssBlockContents::Block(c) => if decreases_to!(b => c) && !block_is_empty(c) {
                CssBlockMostRecentContents::Block
            } else {
                last_written(b, n - 1)
            },
        }
    }
}

/// The text of the first `n` contents of `b`, at indentation `indent`:
/// a line goes on a new line, after a blank one when a block came just before;
/// a nested block goes on a new line, after a blank one unless it comes first;
/// an empty nested block writes nothing.
pub open spec fn contents_text(b: CssBlock, n: int, indent: nat) -> Seq<char>
    decreases b, 0int, n,
{
    if n <= 0 || n > b.contents.len() {
        Seq::empty()
    } else {
        let before = contents_text(b, n - 1, indent);
        let last = last_written(b, n - 1);
        match b.contents[n - 1] {
            CssBlockContents::Line(l) => before + (if last == CssBlockMostRecentContents::Block {
                "\n\n"@
            } else {
                "\n"@
            }) + tabs(indent + 1) + l@,
            CssBlockContents::Block(c) => if decreases_to!(b => c) {
                match block_text(c, indent + 1) {
                    Some(t) => before + (if last == CssBlockMostRecentContents::Nothing {
                        "\n"@
                    } else {
                        "\n\n"@
                    }) + t,
                    None => before,
                }
            } else {
                before
            },
        }
    }
}

/// The text of a block at indentation `indent`, or nothing when it is empty.
pub open spec fn block_text(b: CssBlock, indent: nat) -> Option<Seq<char>>
    decreases b, 1int, 0int,
{
    if block_is_empty(b) {
        None
    } else {
        Some(
            tabs(indent) + b.prefix@ + " {"@ + contents_text(b, b.contents.len() as int, indent)
                + "\n"@ + tabs(indent) + "}"@,
        )
    }
}

/// The texts of the non-empty blocks among the first `n`.
pub open spec fn nonempty_texts(blocks: Seq<CssBlock>, n: int) -> Seq<Seq<char>>
    decreases n,
{
    if n <= 0 || n > blocks.len() {
        Seq::empty()
    } else {
        match block_text(blocks[n - 1], 0) {
            Some(t) => nonempty_texts(blocks, n - 1).push(t),
            None => nonempty_texts(blocks, n - 1),
        }
    }
}

/// Texts joined by `sep`.
pub open spec fn joined(parts: Seq<Seq<char>>, sep: Seq<char>) -> Seq<char>
    decreases parts.len(),
{
    if parts.len() == 0 {
        Seq::empty()
    } else if parts.len() == 1 {
        parts[0]
    } else {
        joined(parts.drop_last(), sep) + sep + parts.last()
    }
}

/// The text of a file: its non-empty blocks, a blank line between two, and a
/// final newline; nothing when every block is empty.
pub open spec fn file_text(blocks: Seq<CssBlock>) -> Option<Seq<char>> {
    let parts = nonempty_texts(blocks, blocks.len() as int);
    if parts.len() == 0 {
        None
    } else {
        Some(joined(parts, "\n\n"@) + "\n"@)
    }
}

/// `n` tab characters.
fn tab_string(n: usize) -> (r: String)
    ensures
        r@ == tabs(n as nat),
{
    let mut out = String::new();
    let mut i: usize = 0;
    while i < n
        invariant
            i <= n,
            out@ == tabs(i as nat),
        decreases n - i,
    {
        out.append("\t");
        proof {
            reveal_strlit("\t");
            assert(out@ =~= tabs((i + 1) as nat));
        }
        i = i + 1;
    }
    out
}

impl CssBlockContents {
    pub fn line(contents: String) -> (r: Self)
        ensures
            r == CssBlockContents::Line(contents),
    {
        CssBlockContents::Line(contents)
    }
}

impl CssBlock {
    pub fn empty() -> (r: Self)
        ensures
            r.prefix@ == Seq::<char>::empty(),
            r.contents@ == Seq::<CssBlockContents>::empty(),
    {
        CssBlock { prefix: String::new(), contents: Vec::new() }
    }

    pub fn new(prefix: String, contents: Vec<CssBlockContents>) -> (r: Self)
        ensures
            r.prefix == prefix,
            r.contents == contents,
    {
        CssBlock { prefix, contents }
    }

    pub fn is_empty(&self) -> (r: bool)
        ensures
            r == block_is_empty(*self),
        decreases *self,
    {
        let n = self.contents.len();
        let mut i: usize = 0;
        while i < n
            invariant
                n == self.contents.len(),
                i <= n,
                contents_empty(*self, i as int),
            decreases n - i,
        {
            match &self.contents[i] {
                CssBlockContents::Line(_) => {
                    proof {
                        lemma_contents_empty_prefix(*self, i as int + 1, n as int);
                    }
                    return false;
                },
                CssBlockContents::Block(c) => {
                    assert(decreases_to!(*self => self.contents@[i as int]));
                    if !c.is_empty() {
                        proof {
                            lemma_contents_empty_prefix(*self, i as int + 1, n as int);
                        }
                        return false;
                    }
                },
            }
            i = i + 1;
        }
        true
    }

    /// The block's text at `indentation` tabs, or `None` when it is empty.
    pub fn to_string(&self, indentation: usize) -> (r: Option<String>)
        requires
            indentation < usize::MAX - depth_bound(*self),
        ensures
            match r {
                Some(s) => block_text(*self, indentation as nat) == Some(s@),
                None => block_text(*self, indentation as nat).is_none(),
            },
        decreases *self,
    {
        if self.is_empty() {
            return None;
        }
        proof {
            lemma_depth_nonneg(*self, self.contents.len() as int);
        }
        let wrapper_tabs = tab_string(indentation);
        let contents_tabs = tab_string(indentation + 1);
        let mut last = CssBlockMostRecentContents::Nothing;
        let mut output = wrapper_tabs.clone();
        output.append(self.prefix.as_str());
        output.append(" {");
        let ghost head = tabs(indentation as nat) + self.prefix@ + " {"@;
        let n = self.contents.len();
        let mut i: usize = 0;
        while i < n
            invariant
                n == self.contents.len(),
                i <= n,
                indentation < usize::MAX - depth_bound(*self),
                contents_tabs@ == tabs(indentation as nat + 1),
                last == last_written(*self, i as int),
                output@ == head + contents_text(*self, i as int, indentation as nat),
            decreases n - i,
        {
            match &self.contents[i] {
                CssBlockContents::Line(l) => {
                    if last == CssBlockMostRecentContents::Block {
                        output.append("\n\n");
                    } else {
                        output.append("\n");
                    }
                    output.append(contents_tabs.as_str());
                    output.append(l.as_str());
                    last = CssBlockMostRecentContents::Line;
                },
                CssBlockContents::Block(c) => {
                    assert(decreases_to!(*self => self.contents@[i as int]));
                    proof {
                        lemma_depth_bound_nested(*self, i as int);
                    }
                    match c.to_string(indentation + 1) {
                        Some(t) => {
                            if last == CssBlockMostRecentContents::Nothing {
                                output.append("\n");
                            } else {
                                output.append("\n\n");
                            }
                            output.append(t.as_str());
                            last = CssBlockMostRecentContents::Block;
                        },
                        None => {},
                    }
                },
            }
            i = i + 1;
            assert(output@ == head + contents_text(*self, i as int, indentation as nat));
        }
        output.append("\n");
        output.append(wrapper_tabs.as_str());
        output.append("}");
        assert(output@ =~= tabs(indentation as nat) + self.prefix@ + " {"@ + contents_text(
            *self,
            n as int,
            indentation as nat,
        ) + "\n"@ + tabs(indentation as nat) + "}"@);
        Some(output)
    }
}

/// How deeply blocks nest inside `b`.
pub open spec fn depth_bound(b: CssBlock) -> int
    decreases b, 1int, 0int,
{
    depth_of_contents(b, b.contents.len() as int)
}

pub open spec fn depth_of_contents(b: CssBlock, n: int) -> int
    decreases b, 0int, n,
{
    if n <= 0 || n > b.contents.len() {
        0
    } else {
        let rest = depth_of_contents(b, n - 1);
        match b.contents[n - 1] {
            CssBlockContents::Line(_) => rest,
            CssBlockContents::Block(c) => if decreases_to!(b => c) {
                let d = 1 + depth_bound(c);
                if d > rest {
                    d
                } else {
                    rest
                }
            } else {
                rest
            },
        }
    }
}

proof fn lemma_depth_of_contents_monotone(b: CssBlock, i: int, n: int)
    requires
        0 <= i <= n <= b.contents.len(),
    ensures
        depth_of_contents(b, i) <= depth_of_contents(b, n),
        depth_of_contents(b, n) >= 0,
    decreases n - i,
{
    if i < n {
        lemma_depth_of_contents_monotone(b, i, n - 1);
        lemma_depth_nonneg(b, n);
    } else {
        lemma_depth_nonneg(b, n);
    }
}

proof fn lemma_depth_nonneg(b: CssBlock, n: int)
    ensures
        depth_of_contents(b, n) >= 0,
    decreases n,
{
    if n > 0 && n <= b.contents.len() {
        lemma_depth_nonneg(b, n - 1);
    }
}

proof fn lemma_depth_bound_nested(b: CssBlock, i: int)
    requires
        0 <= i < b.contents.len(),
        b.contents[i] is Block,
    ensures
        depth_bound(b.contents[i]->Block_0) + 1 <= depth_bound(b),
        depth_bound(b.contents[i]->Block_0) >= 0,
{
    let c = b.contents[i]->Block_0;
    assert(decreases_to!(b => b.contents@[i]));
    lemma_depth_of_contents_monotone(b, i + 1, b.contents.len() as int);
    lemma_depth_nonneg(c, c.contents.len() as int);
}

proof fn lemma_contents_empty_prefix(b: CssBlock, i: int, n: int)
    requires
        0 <= i <= n <= b.contents.len(),
        !contents_empty(b, i),
    ensures
        !contents_empty(b, n),
    decreases n - i,
{
    if i < n {
        lemma_contents_empty_prefix(b, i, n - 1);
    }
}

impl CssFile {
    pub fn new(blocks: Vec<CssBlock>) -> (r: Self)
        ensures
            r.blocks == blocks,
    {
        CssFile { blocks }
    }

    /// The file's text, or `None` when every block is empty.
    pub fn to_string(&self) -> (r: Option<String>)
        requires
            forall|i: int| 0 <= i < self.blocks.len() ==> depth_bound(#[trigger] self.blocks[i]) < usize::MAX,
        ensures
            match r {
                Some(s) => file_text(self.blocks@) == Some(s@),
                None => file_text(self.blocks@).is_none(),
            },
    {
        let mut output = String::new();
        let mut count: usize = 0;
        let n = self.blocks.len();
        let mut i: usize = 0;
        while i < n
            invariant
                n == self.blocks.len(),
                i <= n,
                forall|j: int| 0 <= j < self.blocks.len() ==> depth_bound(#[trigger] self.blocks[j]) < usize::MAX,
                count == nonempty_texts(self.blocks@, i as int).len(),
                count <= i,
                output@ == joined(nonempty_texts(self.blocks@, i as int), "\n\n"@),
            decreases n - i,
        {
            match self.blocks[i].to_string(0) {
                Some(t) => {
                    if count > 0 {
                        output.append("\n\n");
                    }
                    output.append(t.as_str());
                    count = count + 1;
                    proof {
                        let parts = nonempty_texts(self.blocks@, i as int + 1);
                        assert(parts.drop_last() == nonempty_texts(self.blocks@, i as int));
                    }
                },
                None => {},
            }
            i = i + 1;
        }
        if count == 0 {
            None
        } else {
            output.append("\n");
            Some(output)
        }
    }
}

/// A block of lines only, as prefix and lines.
pub type FlatBlock = (Seq<char>, Seq<Seq<char>>);

pub open spec fn is_flat(b: CssBlock) -> bool {
    forall|i: int| 0 <= i < b.contents.len() ==> (#[trigger] b.contents[i]) is Line
}

pub open spec fn flat_model(b: CssBlock) -> FlatBlock {
    (b.prefix@, b.contents@.map_values(|c: CssBlockContents| match c {
        CssBlockContents::Line(l) => l@,
        CssBlockContents::Block(_) => Seq::empty(),
    }))
}

/// Each line on a new line after one tab.
pub open spec fn lines_text(lines: Seq<Seq<char>>) -> Seq<char>
    decreases lines.len(),
{
    if lines.len() == 0 {
        Seq::empty()
    } else {
        lines_text(lines.drop_last()) + "\n"@ + tabs(1) + lines.last()
    }
}

/// The text of a block of lines at the top level; nothing without lines.
pub open spec fn flat_text(b: FlatBlock) -> Option<Seq<char>> {
    if b.1.len() == 0 {
        None
    } else {
        Some(b.0 + " {"@ + lines_text(b.1) + "\n"@ + tabs(0) + "}"@)
    }
}

pub open spec fn nonempty_flat_texts(blocks: Seq<FlatBlock>) -> Seq<Seq<char>>
    decreases blocks.len(),
{
    if blocks.len() == 0 {
        Seq::empty()
    } else {
        match flat_text(blocks.last()) {
            Some(t) => nonempty_flat_texts(blocks.drop_last()).push(t),
            None => nonempty_flat_texts(blocks.drop_last()),
        }
    }
}

/// The text of a stylesheet of line blocks: the non-empty blocks, a blank
/// line between two, a final newline; nothing when all are empty.
pub open spec fn sheet_text(blocks: Seq<FlatBlock>) -> Option<Seq<char>> {
    let parts = nonempty_flat_texts(blocks);
    if parts.len() == 0 {
        None
    } else {
        Some(joined(parts, "\n\n"@) + "\n"@)
    }
}

proof fn lemma_flat_contents(b: CssBlock, n: int)
    requires
        is_flat(b),
        0 <= n <= b.contents.len(),
    ensures
        contents_empty(b, n) == (n == 0),
        n > 0 ==> last_written(b, n) == CssBlockMostRecentContents::Line,
        n == 0 ==> last_written(b, n) == CssBlockMostRecentContents::Nothing,
        contents_text(b, n, 0) == lines_text(flat_model(b).1.subrange(0, n)),
        depth_of_contents(b, n) == 0,
    decreases n,
{
    if n > 0 {
        lemma_flat_contents(b, n - 1);
        let lines = flat_model(b).1;
        assert(lines.subrange(0, n).drop_last() =~= lines.subrange(0, n - 1));
        assert(b.contents[n - 1] is Line);
    } else {
        assert(flat_model(b).1.subrange(0, 0) =~= Seq::<Seq<char>>::empty());
    }
}

proof fn lemma_flat_block(b: CssBlock)
    requires
        is_flat(b),
    ensures
        block_text(b, 0) == flat_text(flat_model(b)),
        depth_bound(b) == 0,
{
    lemma_flat_contents(b, b.contents.len() as int);
    assert(flat_model(b).1.subrange(0, b.contents.len() as int) =~= flat_model(b).1);
}

proof fn lemma_flat_file(blocks: Seq<CssBlock>, n: int)
    requires
        0 <= n <= blocks.len(),
        forall|i: int| 0 <= i < blocks.len() ==> is_flat(#[trigger] blocks[i]),
    ensures
        nonempty_texts(blocks, n) == nonempty_flat_texts(blocks.subrange(0, n).map_values(|b: CssBlock| flat_model(b))),
    decreases n,
{
    if n > 0 {
        lemma_flat_file(blocks, n - 1);
        lemma_flat_block(blocks[n - 1]);
        let ms = blocks.subrange(0, n).map_values(|b: CssBlock| flat_model(b));
        assert(ms.drop_last() =~= blocks.subrange(0, n - 1).map_values(|b: CssBlock| flat_model(b)));
    } else {
        assert(blocks.subrange(0, 0).map_values(|b: CssBlock| flat_model(b)) =~= Seq::<FlatBlock>::empty());
    }
}

impl CssFile {
    /// The text of a file whose blocks hold lines only.
    pub fn flat_text(&self) -> (r: Option<String>)
        requires
            forall|i: int| 0 <= i < self.blocks.len() ==> is_flat(#[trigger] self.blocks[i]),
        ensures
            match r {
                Some(s) => sheet_text(self.blocks@.map_values(|b: CssBlock| flat_model(b))) == Some(s@),
                None => sheet_text(self.blocks@.map_values(|b: CssBlock| flat_model(b))).is_none(),
            },
    {
        proof {
            assert forall|i: int| 0 <= i < self.blocks.len() implies depth_bound(#[trigger] self.blocks[i]) < usize::MAX by {
                lemma_flat_block(self.blocks[i]);
            }
            lemma_flat_file(self.blocks@, self.blocks.len() as int);
            assert(self.blocks@.subrange(0, self.blocks.len() as int) =~= self.blocks@);
        }
        self.to_string()
    }
}

/// A block of the given lines.
pub fn line_block(prefix: &str, lines: Vec<String>) -> (r: CssBlock)
    ensures
        is_flat(r),
        flat_model(r) == (prefix@, lines@.map_values(|l: String| l@)),
{
    let mut contents: Vec<CssBlockContents> = Vec::new();
    let mut i: usize = 0;
    while i < lines.len()
        invariant
            i <= lines.len(),
            contents.len() == i,
            forall|k: int| 0 <= k < contents.len() ==> (#[trigger] contents[k]) is Line,
            forall|k: int| 0 <= k < contents.len() ==> (#[trigger] contents[k])->Line_0@ == lines@[k]@,
        decreases lines.len() - i,
    {
        contents.push(CssBlockContents::Line(lines[i].clone()));
        i = i + 1;
    }
    assert(contents@.map_values(|c: CssBlockContents| match c {
        CssBlockContents::Line(l) => l@,
        CssBlockContents::Block(_) => Seq::empty(),
    }) =~= lines@.map_values(|l: String| l@));
    CssBlock { prefix: String::from_str(prefix), contents }
}

/// `a`, then `b`, then `c`.
pub fn concat3(a: &str, b: &str, c: &str) -> (r: String)
    ensures
        r@ == a@ + b@ + c@,
{
    let mut s = String::from_str(a);
    s.append(b);
    s.append(c);
    s
}

/// A sheet with a block that has lines has some text.
pub proof fn lemma_sheet_has_text(blocks: Seq<FlatBlock>, i: int)
    requires
        0 <= i < blocks.len(),
        blocks[i].1.len() > 0,
    ensures
        sheet_text(blocks).is_some(),
        nonempty_flat_texts(blocks).len() > 0,
    decreases blocks.len(),
{
    if i < blocks.len() - 1 {
        lemma_sheet_has_text(blocks.drop_last(), i);
    }
}

/// `name`, the property's value, then `tail`, when the property is set.
pub open spec fn opt_line(p: Option<PropertyView>, name: Seq<char>, tail: Seq<char>) -> Seq<Seq<char>> {
    match p {
        Some(v) => seq![name + v.0 + tail],
        None => Seq::empty(),
    }
}

/// The property's value when it is set, else `fallback`.
pub open spec fn value_or(p: Option<PropertyView>, fallback: Seq<char>) -> Seq<char> {
    match p {
        Some(v) => v.0,
        None => fallback,
    }
}

/// Appends `name`, the property's value and `tail` as a line when the
/// property is set.
pub fn push_opt_line(lines: &mut Vec<String>, p: Option<&StylesheetValue>, name: &str, tail: &str)
    ensures
        final(lines)@.map_values(|l: String| l@) == old(lines)@.map_values(|l: String| l@) + opt_line(
            crate::style::opt_ref_view(p),
            name@,
            tail@,
        ),
{
    let ghost before = lines@.map_values(|l: String| l@);
    match p {
        Some(v) => {
            lines.push(concat3(name, v.value.as_str(), tail));
        },
        None => {},
    }
    assert(lines@.map_values(|l: String| l@) =~= before + opt_line(crate::style::opt_ref_view(p), name@, tail@));
}

/// Appends a line.
pub fn push_text(lines: &mut Vec<String>, line: String)
    ensures
        final(lines)@.map_values(|l: String| l@) == old(lines)@.map_values(|l: String| l@).push(line@),
{
    let ghost before = lines@.map_values(|l: String| l@);
    let ghost v = line@;
    lines.push(line);
    assert(lines@.map_values(|l: String| l@) =~= before.push(v));
}

/// Appends a fixed line.
pub fn push_line(lines: &mut Vec<String>, line: &str)
    ensures
        final(lines)@.map_values(|l: String| l@) == old(lines)@.map_values(|l: String| l@).push(line@),
{
    let ghost before = lines@.map_values(|l: String| l@);
    lines.push(String::from_str(line));
    assert(lines@.map_values(|l: String| l@) =~= before.push(line@));
}

/// The property's value when it is set, else `fallback`.
pub fn value_or_str<'a>(p: Option<&'a StylesheetValue>, fallback: &'a str) -> (r: &'a str)
    ensures
        r@ == value_or(crate::style::opt_ref_view(p), fallback@),
{
    match p {
        Some(v) => v.value.as_str(),
        None => fallback,
    }
}

pub open spec fn unified_link_block(s: crate::style::StyleView) -> FlatBlock {
    (":any-link"@, opt_line(style_link_color(s), "color: "@, ";"@))
}

pub open spec fn unified_img_block(s: crate::style::StyleView) -> FlatBlock {
    ("img"@, opt_line(style_max_image_height(s), "max-height: "@, ";"@) + opt_line(
        style_max_image_width(s),
        "max-width: "@,
        ";"@,
    ))
}

/// Link colour for generated pages, where the book's own styling is absent.
pub fn generate_stylesheet_link_block_unified(style: &Style) -> (r: CssBlock)
    ensures
        is_flat(r),
        flat_model(r) == unified_link_block(style@),
{
    let mut lines: Vec<String> = Vec::new();
    push_opt_line(&mut lines, style.link_color(), "color: ", ";");
    line_block(":any-link", lines)
}

/// Image bounds for generated pages.
pub fn generate_stylesheet_img_block_unified(style: &Style) -> (r: CssBlock)
    ensures
        is_flat(r),
        flat_model(r) == unified_img_block(style@),
{
    let mut lines: Vec<String> = Vec::new();
    push_opt_line(&mut lines, style.max_image_height(), "max-height: ", ";");
    push_opt_line(&mut lines, style.max_image_width(), "max-width: ", ";");
    line_block("img", lines)
}

} // verus!
