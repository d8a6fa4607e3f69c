//! Reading bitmap-font descriptions in the text format of the BMFont tool.
//!
//! A description is a sequence of lines; each line starts with a tag
//! (`info`, `common`, `chars`, `char`, ...) followed by `key=value` pairs.
//! Only the values the renderer needs are read, in font pixels; scaling them
//! to screen units is left to the caller.

use std::collections::HashMap;
use vstd::prelude::*;
use vstd::string::StringSliceAdditionalSpecFns;

verus! {

broadcast use vstd::std_specs::hash::group_hash_axioms;

// ---------------------------------------------------------------------------
// Lines
// ---------------------------------------------------------------------------

/// The index of the first `'\n'` at or after `from`, or `s.len()` when there is none.
pub open spec fn newline_from(s: Seq<u8>, from: int) -> int
    decreases s.len() - from,
{
    if from >= s.len() {
        s.len() as int
    } else if s[from] == 10 {
        from
    } else {
        newline_from(s, from + 1)
    }
}

/// Where the line after the one starting at `from` starts.
pub open spec fn next_line_start(s: Seq<u8>, from: int) -> int {
    let e = newline_from(s, from);
    if e < s.len() {
        e + 1
    } else {
        s.len() as int
    }
}

/// The line starting at `from`, without its `'\n'` and without a `'\r'`
/// just before that `'\n'`.
pub open spec fn line_at(s: Seq<u8>, from: int) -> Seq<u8> {
    let e = newline_from(s, from);
    if e < s.len() && e > from && s[e - 1] == 13 {
        s.subrange(from, e - 1)
    } else {
        s.subrange(from, e)
    }
}

pub proof fn lemma_newline_from_bounds(s: Seq<u8>, from: int)
    requires
        0 <= from <= s.len(),
    ensures
        from <= newline_from(s, from) <= s.len(),
        newline_from(s, from) < s.len() ==> s[newline_from(s, from)] == 10,
    decreases s.len() - from,
{
    if from < s.len() && s[from] != 10 {
        lemma_newline_from_bounds(s, from + 1);
    }
}

/// The lines of `s` from byte `from` on, as `str::lines` splits them: at each
/// `'\n'`, dropping a `'\r'` just before it, with no empty line after a final
/// `'\n'`.
pub open spec fn lines_from(s: Seq<u8>, from: int) -> Seq<Seq<u8>>
    decreases s.len() - from,
{
    if from < 0 || from >= s.len() {
        Seq::empty()
    } else {
        proof {
            lemma_newline_from_bounds(s, from);
        }
        seq![line_at(s, from)] + lines_from(s, next_line_start(s, from))
    }
}

/// The lines of `s`.
pub open spec fn lines(s: Seq<u8>) -> Seq<Seq<u8>> {
    lines_from(s, 0)
}

/// `prefix` is a prefix of `l`.
pub open spec fn starts_with(l: Seq<u8>, prefix: Seq<u8>) -> bool {
    prefix.len() <= l.len() && l.subrange(0, prefix.len() as int) == prefix
}

/// The first of `lines` that starts with `prefix`.
pub open spec fn first_starting_with(lines: Seq<Seq<u8>>, prefix: Seq<u8>) -> Option<Seq<u8>>
    decreases lines.len(),
{
    if lines.len() == 0 {
        None
    } else if starts_with(lines[0], prefix) {
        Some(lines[0])
    } else {
        first_starting_with(lines.drop_first(), prefix)
    }
}

proof fn lemma_lines_step(s: Seq<u8>, from: int)
    requires
        0 <= from < s.len(),
    ensures
        lines_from(s, from).len() > 0,
        lines_from(s, from)[0] == line_at(s, from),
        lines_from(s, from).drop_first() == lines_from(s, next_line_start(s, from)),
        from < next_line_start(s, from) <= s.len(),
{
    lemma_newline_from_bounds(s, from);
    let rest = lines_from(s, next_line_start(s, from));
    assert((seq![line_at(s, from)] + rest).drop_first() =~= rest);
}

/// The end of the line starting at `from`, without its line ending, and the
/// start of the next line.
fn line_bounds(s: &[u8], from: usize) -> (r: (usize, usize))
    requires
        from < s@.len(),
    ensures
        from <= r.0 <= s@.len(),
        s@.subrange(from as int, r.0 as int) == line_at(s@, from as int),
        r.1 == next_line_start(s@, from as int),
{
    let len = s.len();
    let mut e = from;
    while e < len && s[e] != 10u8
        invariant
            from <= e <= len,
            len == s@.len(),
            newline_from(s@, from as int) == newline_from(s@, e as int),
        decreases len - e,
    {
        e = e + 1;
    }
    proof {
        lemma_newline_from_bounds(s@, e as int);
    }
    if e < len {
        if e > from && s[e - 1] == 13u8 {
            (e - 1, e + 1)
        } else {
            (e, e + 1)
        }
    } else {
        (e, len)
    }
}

/// Whether `l` starts with `prefix`.
fn has_prefix(l: &[u8], prefix: &[u8]) -> (r: bool)
    ensures
        r == starts_with(l@, prefix@),
{
    if prefix.len() > l.len() {
        return false;
    }
    let mut i: usize = 0;
    while i < prefix.len()
        invariant
            prefix@.len() <= l@.len(),
            i <= prefix@.len(),
            forall|j: int| 0 <= j < i ==> l@[j] == prefix@[j],
        decreases prefix@.len() - i,
    {
        if l[i] != prefix[i] {
            assert(l@.subrange(0, prefix@.len() as int)[i as int] != prefix@[i as int]);
            return false;
        }
        i = i + 1;
    }
    assert(l@.subrange(0, prefix@.len() as int) =~= prefix@);
    true
}

/// An optional slice, by its contents.
pub open spec fn slice_option_view(o: Option<&[u8]>) -> Option<Seq<u8>> {
    match o {
        Some(l) => Some(l@),
        None => None,
    }
}

/// The first line of `file` that starts with `name`.
pub fn find_line<'a>(file: &'a [u8], name: &[u8]) -> (r: Option<&'a [u8]>)
    ensures
        slice_option_view(r) == first_starting_with(lines(file@), name@),
{
    let len = file.len();
    let mut pos: usize = 0;
    while pos < len
        invariant
            pos <= len,
            len == file@.len(),
            first_starting_with(lines(file@), name@) == first_starting_with(
                lines_from(file@, pos as int),
                name@,
            ),
        decreases len - pos,
    {
        proof {
            lemma_lines_step(file@, pos as int);
        }
        let (end, next) = line_bounds(file, pos);
        let line = &file[pos..end];
        if has_prefix(line, name) {
            return Some(line);
        }
        pos = next;
    }
    None
}

// ---------------------------------------------------------------------------
// Numbers
// ---------------------------------------------------------------------------

pub open spec fn is_digit(b: u8) -> bool {
    48 <= b <= 57
}

/// The number that a run of decimal digits spells.
pub open spec fn digits_value(d: Seq<u8>) -> nat
    decreases d.len(),
{
    if d.len() == 0 {
        0
    } else {
        digits_value(d.drop_last()) * 10 + (d.last() - 48) as nat
    }
}

/// What `str::parse` makes of `d` as an unsigned number no larger than
/// `limit`: its value when `d` is a non-empty run of digits spelling at most
/// `limit`.
pub open spec fn parse_digits(d: Seq<u8>, limit: nat) -> Option<nat> {
    if d.len() > 0 && (forall|i: int| 0 <= i < d.len() ==> is_digit(#[trigger] d[i]))
        && digits_value(d) <= limit {
        Some(digits_value(d))
    } else {
        None
    }
}

/// What `str::parse::<isize>` makes of `d`, which holds digits and `'-'`s.
pub open spec fn parse_signed(d: Seq<u8>) -> Option<isize> {
    if d.len() > 0 && d[0] == 45 {
        match parse_digits(d.drop_first(), isize::MAX as nat + 1) {
            Some(v) => Some((-v) as isize),
            None => None,
        }
    } else {
        match parse_digits(d, isize::MAX as nat) {
            Some(v) => Some(v as isize),
            None => None,
        }
    }
}

/// The first index at or after `i` at which `pattern` occurs in `s`.
pub open spec fn find_from(s: Seq<u8>, pattern: Seq<u8>, i: int) -> Option<int>
    decreases s.len() + 1 - i,
{
    if i < 0 || i + pattern.len() > s.len() {
        None
    } else if s.subrange(i, i + pattern.len()) == pattern {
        Some(i)
    } else {
        find_from(s, pattern, i + 1)
    }
}

/// The end of the run of digits starting at `i`.
pub open spec fn digit_run_end(s: Seq<u8>, i: int) -> int
    decreases s.len() - i,
{
    if i < 0 || i >= s.len() || !is_digit(s[i]) {
        i
    } else {
        digit_run_end(s, i + 1)
    }
}

/// The end of the run of digits and `'-'`s starting at `i`.
pub open spec fn signed_run_end(s: Seq<u8>, i: int) -> int
    decreases s.len() - i,
{
    if i < 0 || i >= s.len() || !(is_digit(s[i]) || s[i] == 45) {
        i
    } else {
        signed_run_end(s, i + 1)
    }
}

/// The unsigned number written right after the first occurrence of `name` in `line`.
pub open spec fn spec_find_usize(line: Seq<u8>, name: Seq<u8>) -> Option<usize> {
    match find_from(line, name, 0) {
        None => None,
        Some(p) => {
            let start = p + name.len();
            match parse_digits(line.subrange(start, digit_run_end(line, start)), usize::MAX as nat) {
                Some(v) => Some(v as usize),
                None => None,
            }
        },
    }
}

/// The signed number written right after the first occurrence of `name` in `line`.
pub open spec fn spec_find_isize(line: Seq<u8>, name: Seq<u8>) -> Option<isize> {
    match find_from(line, name, 0) {
        None => None,
        Some(p) => {
            let start = p + name.len();
            parse_signed(line.subrange(start, signed_run_end(line, start)))
        },
    }
}

/// Whether `pattern` occurs in `s` at `i`.
fn occurs_at(s: &[u8], pattern: &[u8], i: usize) -> (r: bool)
    requires
        i + pattern@.len() <= s@.len(),
    ensures
        r == (s@.subrange(i as int, i + pattern@.len()) == pattern@),
{
    assert(s@.len() <= usize::MAX) by {
        assert(s.len() == s@.len());
    }
    let mut j: usize = 0;
    while j < pattern.len()
        invariant
            i + pattern@.len() <= s@.len() <= usize::MAX,
            j <= pattern@.len(),
            forall|k: int| 0 <= k < j ==> s@[i + k] == pattern@[k],
        decreases pattern@.len() - j,
    {
        if s[i + j] != pattern[j] {
            assert(s@.subrange(i as int, i + pattern@.len())[j as int] != pattern@[j as int]);
            return false;
        }
        j = j + 1;
    }
    assert(s@.subrange(i as int, i + pattern@.len()) =~= pattern@);
    true
}

/// The first index at which `pattern` occurs in `s`.
fn find(s: &[u8], pattern: &[u8]) -> (r: Option<usize>)
    ensures
        match r {
            Some(p) => find_from(s@, pattern@, 0) == Some(p as int) && p + pattern@.len()
                <= s@.len(),
            None => find_from(s@, pattern@, 0) is None,
        },
{
    if pattern.len() > s.len() {
        return None;
    }
    let last = s.len() - pattern.len();
    let mut i: usize = 0;
    while i <= last
        invariant
            last + pattern@.len() == s@.len(),
            i <= last + 1,
            find_from(s@, pattern@, 0) == find_from(s@, pattern@, i as int),
        decreases last + 1 - i,
    {
        if occurs_at(s, pattern, i) {
            return Some(i);
        }
        if i == last {
            assert(find_from(s@, pattern@, i + 1) is None);
            return None;
        }
        i = i + 1;
    }
    None
}

/// The end of the run of digits (or, with `signed`, of digits and `'-'`s)
/// starting at `start`.
fn run_end(s: &[u8], start: usize, signed: bool) -> (r: usize)
    requires
        start <= s@.len(),
    ensures
        r == if signed {
            signed_run_end(s@, start as int)
        } else {
            digit_run_end(s@, start as int)
        },
        start <= r <= s@.len(),
{
    let mut j = start;
    while j < s.len() && ((48u8 <= s[j] && s[j] <= 57u8) || (signed && s[j] == 45u8))
        invariant
            start <= j <= s@.len(),
            if signed {
                signed_run_end(s@, start as int) == signed_run_end(s@, j as int)
            } else {
                digit_run_end(s@, start as int) == digit_run_end(s@, j as int)
            },
        decreases s@.len() - j,
    {
        j = j + 1;
    }
    j
}

/// The value of the digits `s[lo..hi]` if they are all digits, there is at
/// least one, and they spell at most `limit`.
fn parse_digits_in(s: &[u8], lo: usize, hi: usize, limit: usize) -> (r: Option<usize>)
    requires
        lo <= hi <= s@.len(),
    ensures
        match r {
            Some(v) => parse_digits(s@.subrange(lo as int, hi as int), limit as nat) == Some(
                v as nat,
            ),
            None => parse_digits(s@.subrange(lo as int, hi as int), limit as nat) is None,
        },
{
    let ghost d = s@.subrange(lo as int, hi as int);
    if lo >= hi {
        return None;
    }
    let mut value: u128 = 0;
    let mut fits = true;
    let mut i = lo;
    while i < hi
        invariant
            lo <= i <= hi <= s@.len(),
            d == s@.subrange(lo as int, hi as int),
            forall|k: int| lo <= k < i ==> is_digit(#[trigger] s@[k]),
            fits ==> value == digits_value(s@.subrange(lo as int, i as int)) && value <= limit,
            !fits ==> digits_value(s@.subrange(lo as int, i as int)) > limit,
        decreases hi - i,
    {
        let b = s[i];
        assert(s@.subrange(lo as int, i + 1).drop_last() =~= s@.subrange(lo as int, i as int));
        if !(48u8 <= b && b <= 57u8) {
            assert(d[i - lo] == b);
            assert(!is_digit(d[i - lo]));
            return None;
        }
        if fits {
            let next = value * 10 + (b - 48u8) as u128;
            if next > limit as u128 {
                fits = false;
            } else {
                value = next;
            }
        }
        i = i + 1;
    }
    assert(s@.subrange(lo as int, i as int) =~= d);
    assert forall|k: int| 0 <= k < d.len() implies is_digit(#[trigger] d[k]) by {
        assert(d[k] == s@[lo + k]);
    }
    if fits {
        Some(value as usize)
    } else {
        None
    }
}

/// The unsigned number written right after the first occurrence of `name` in
/// `line`: the run of digits there, parsed.
pub fn find_usize(line: &[u8], name: &[u8]) -> (r: Option<usize>)
    ensures
        r == spec_find_usize(line@, name@),
{
    assert(line@.len() <= usize::MAX) by {
        assert(line.len() == line@.len());
    }
    match find(line, name) {
        None => None,
        Some(p) => {
            let start = p + name.len();
            let end = run_end(line, start, false);
            match parse_digits_in(line, start, end, usize::MAX) {
                Some(v) => Some(v),
                None => None,
            }
        },
    }
}

/// The signed number written right after the first occurrence of `name` in
/// `line`: the run of digits and `'-'`s there, parsed.
pub fn find_isize(line: &[u8], name: &[u8]) -> (r: Option<isize>)
    ensures
        r == spec_find_isize(line@, name@),
{
    assert(line@.len() <= usize::MAX) by {
        assert(line.len() == line@.len());
    }
    match find(line, name) {
        None => None,
        Some(p) => {
            let start = p + name.len();
            let end = run_end(line, start, true);
            let ghost d = line@.subrange(start as int, end as int);
            if start < end && line[start] == 45u8 {
                assert(d[0] == 45);
                assert(d.drop_first() =~= line@.subrange(start + 1, end as int));
                let magnitude_limit = (isize::MAX as usize) + 1;
                match parse_digits_in(line, start + 1, end, magnitude_limit) {
                    Some(v) => if v == magnitude_limit {
                        Some(isize::MIN)
                    } else {
                        Some(-(v as isize))
                    },
                    None => None,
                }
            } else {
                match parse_digits_in(line, start, end, isize::MAX as usize) {
                    Some(v) => Some(v as isize),
                    None => None,
                }
            }
        },
    }
}

// ---------------------------------------------------------------------------
// Font descriptions
// ---------------------------------------------------------------------------

/// The placement of one glyph, in font pixels.
#[derive(Clone, Copy, Debug)]
pub struct Character {
    /// Left edge of the glyph in its page.
    pub x: usize,
    /// Top edge of the glyph in its page.
    pub y: usize,
    pub width: usize,
    pub height: usize,
    /// Offset from the cursor to the left edge of the glyph.
    pub xoffset: isize,
    /// Offset from the top of the line to the top edge of the glyph.
    pub yoffset: isize,
    /// How far the cursor moves after the glyph.
    pub advance: usize,
    /// The page (image) that holds the glyph.
    pub page: usize,
}

/// The tagged lines of a description that must be present.
#[derive(Clone, Copy, Debug)]
pub enum FontLine {
    Info,
    Common,
    Chars,
}

/// The values of a description that must be present.
#[derive(Clone, Copy, Debug)]
pub enum FontField {
    Size,
    Unicode,
    StretchH,
    LineHeight,
    Base,
    ScaleW,
    ScaleH,
    Pages,
    Count,
    Id,
    X,
    Y,
    Width,
    Height,
    XOffset,
    YOffset,
    XAdvance,
    Page,
}

/// Why a description cannot be used.
#[derive(Clone, Copy, Debug)]
pub enum FontError {
    /// No line starts with the tag.
    MissingLine(FontLine),
    /// The value is not given, or is not a number of its kind.
    MissingValue(FontField),
    /// The font is not unicode (`unicode=` is not 1).
    UnsupportedEncoding(usize),
    /// The glyphs are stretched (`stretchH=` is not 100).
    UnsupportedStretch(usize),
    /// The description names another number of pages than there are images.
    PageCountMismatch { pages: usize, images: usize },
    /// A glyph id that is not a unicode scalar value.
    InvalidCharacterId(usize),
}

/// A glyph id names a `char`.
pub open spec fn valid_char_id(id: usize) -> bool {
    id <= 0x10FFFF && !(0xD800 <= id <= 0xDFFF)
}

/// What a `char` line describes: the glyph's code point and placement.
pub open spec fn spec_char_line(l: Seq<u8>) -> Result<(u32, Character), FontError> {
    let id = spec_find_usize(l, "id=".spec_bytes());
    let x = spec_find_usize(l, "x=".spec_bytes());
    let y = spec_find_usize(l, "y=".spec_bytes());
    let width = spec_find_usize(l, "width=".spec_bytes());
    let height = spec_find_usize(l, "height=".spec_bytes());
    let xoffset = spec_find_isize(l, "xoffset=".spec_bytes());
    let yoffset = spec_find_isize(l, "yoffset=".spec_bytes());
    let advance = spec_find_usize(l, "xadvance=".spec_bytes());
    let page = spec_find_usize(l, "page=".spec_bytes());
    if id is None {
        Err(FontError::MissingValue(FontField::Id))
    } else if x is None {
        Err(FontError::MissingValue(FontField::X))
    } else if y is None {
        Err(FontError::MissingValue(FontField::Y))
    } else if width is None {
        Err(FontError::MissingValue(FontField::Width))
    } else if height is None {
        Err(FontError::MissingValue(FontField::Height))
    } else if xoffset is None {
        Err(FontError::MissingValue(FontField::XOffset))
    } else if yoffset is None {
        Err(FontError::MissingValue(FontField::YOffset))
    } else if advance is None {
        Err(FontError::MissingValue(FontField::XAdvance))
    } else if page is None {
        Err(FontError::MissingValue(FontField::Page))
    } else if !valid_char_id(id->0) {
        Err(FontError::InvalidCharacterId(id->0))
    } else {
        Ok(
            (
                id->0 as u32,
                Character {
                    x: x->0,
                    y: y->0,
                    width: width->0,
                    height: height->0,
                    xoffset: xoffset->0,
                    yoffset: yoffset->0,
                    advance: advance->0,
                    page: page->0,
                },
            ),
        )
    }
}

/// The glyph table after reading the `char` lines among `lines` into `table`
/// in order; a later line for the same code point replaces an earlier one.
pub open spec fn spec_chars(lines: Seq<Seq<u8>>, table: Map<u32, Character>) -> Result<
    Map<u32, Character>,
    FontError,
>
    decreases lines.len(),
{
    if lines.len() == 0 {
        Ok(table)
    } else if starts_with(lines[0], "char ".spec_bytes()) {
        match spec_char_line(lines[0]) {
            Err(e) => Err(e),
            Ok((code, c)) => spec_chars(lines.drop_first(), table.insert(code, c)),
        }
    } else {
        spec_chars(lines.drop_first(), table)
    }
}

/// The mathematical state of a [`Font`]: its metrics in font pixels and its glyphs.
pub struct FontView {
    /// The font size, the pixels per unit of height.
    pub size: usize,
    pub line_height: usize,
    /// Distance from the top of a line to the baseline.
    pub base: usize,
    /// Width of a page image.
    pub scale_width: usize,
    /// Height of a page image.
    pub scale_height: usize,
    pub characters: Map<u32, Character>,
}

/// What a description says, given the number of page images at hand; the
/// checks are made in the order of the lines and values below.
pub open spec fn spec_font(file: Seq<u8>, image_count: usize) -> Result<FontView, FontError> {
    let ls = lines(file);
    let info = first_starting_with(ls, "info ".spec_bytes());
    let size = spec_find_usize(info->0, "size=".spec_bytes());
    let unicode = spec_find_usize(info->0, "unicode=".spec_bytes());
    let stretch = spec_find_usize(info->0, "stretchH=".spec_bytes());
    let common = first_starting_with(ls, "common ".spec_bytes());
    let line_height = spec_find_usize(common->0, "lineHeight=".spec_bytes());
    let base = spec_find_usize(common->0, "base=".spec_bytes());
    let scale_width = spec_find_usize(common->0, "scaleW=".spec_bytes());
    let scale_height = spec_find_usize(common->0, "scaleH=".spec_bytes());
    let pages = spec_find_usize(common->0, "pages=".spec_bytes());
    let chars = first_starting_with(ls, "chars ".spec_bytes());
    let count = spec_find_usize(chars->0, "count=".spec_bytes());
    if info is None {
        Err(FontError::MissingLine(FontLine::Info))
    } else if size is None {
        Err(FontError::MissingValue(FontField::Size))
    } else if unicode is None {
        Err(FontError::MissingValue(FontField::Unicode))
    } else if unicode->0 != 1 {
        Err(FontError::UnsupportedEncoding(unicode->0))
    } else if stretch is None {
        Err(FontError::MissingValue(FontField::StretchH))
    } else if stretch->0 != 100 {
        Err(FontError::UnsupportedStretch(stretch->0))
    } else if common is None {
        Err(FontError::MissingLine(FontLine::Common))
    } else if line_height is None {
        Err(FontError::MissingValue(FontField::LineHeight))
    } else if base is None {
        Err(FontError::MissingValue(FontField::Base))
    } else if scale_width is None {
        Err(FontError::MissingValue(FontField::ScaleW))
    } else if scale_height is None {
        Err(FontError::MissingValue(FontField::ScaleH))
    } else if pages is None {
        Err(FontError::MissingValue(FontField::Pages))
    } else if pages->0 != image_count {
        Err(FontError::PageCountMismatch { pages: pages->0, images: image_count })
    } else if chars is None {
        Err(FontError::MissingLine(FontLine::Chars))
    } else if count is None {
        Err(FontError::MissingValue(FontField::Count))
    } else {
        match spec_chars(ls, Map::empty()) {
            Err(e) => Err(e),
            Ok(table) => Ok(
                FontView {
                    size: size->0,
                    line_height: line_height->0,
                    base: base->0,
                    scale_width: scale_width->0,
                    scale_height: scale_height->0,
                    characters: table,
                },
            ),
        }
    }
}

/// The metrics and glyphs of a bitmap font.
pub struct Font {
    size: usize,
    line_height: usize,
    base: usize,
    scale_width: usize,
    scale_height: usize,
    characters: HashMap<u32, Character>,
}

impl View for Font {
    type V = FontView;

    closed spec fn view(&self) -> FontView {
        FontView {
            size: self.size,
            line_height: self.line_height,
            base: self.base,
            scale_width: self.scale_width,
            scale_height: self.scale_height,
            characters: self.characters@,
        }
    }
}

/// A font result, by its view.
pub open spec fn font_result_view(r: Result<Font, FontError>) -> Result<FontView, FontError> {
    match r {
        Ok(f) => Ok(f@),
        Err(e) => Err(e),
    }
}

/// A value that must be present.
fn require(v: Option<usize>, field: FontField) -> (r: Result<usize, FontError>)
    ensures
        match v {
            Some(x) => r == Ok::<usize, FontError>(x),
            None => r == Err::<usize, FontError>(FontError::MissingValue(field)),
        },
{
    match v {
        Some(x) => Ok(x),
        None => Err(FontError::MissingValue(field)),
    }
}

/// A signed value that must be present.
fn require_signed(v: Option<isize>, field: FontField) -> (r: Result<isize, FontError>)
    ensures
        match v {
            Some(x) => r == Ok::<isize, FontError>(x),
            None => r == Err::<isize, FontError>(FontError::MissingValue(field)),
        },
{
    match v {
        Some(x) => Ok(x),
        None => Err(FontError::MissingValue(field)),
    }
}

/// Reads a `char` line.
pub fn parse_char_line(l: &[u8]) -> (r: Result<(u32, Character), FontError>)
    ensures
        r == spec_char_line(l@),
{
    let id = require(find_usize(l, "id=".as_bytes()), FontField::Id)?;
    let x = require(find_usize(l, "x=".as_bytes()), FontField::X)?;
    let y = require(find_usize(l, "y=".as_bytes()), FontField::Y)?;
    let width = require(find_usize(l, "width=".as_bytes()), FontField::Width)?;
    let height = require(find_usize(l, "height=".as_bytes()), FontField::Height)?;
    let xoffset = require_signed(find_isize(l, "xoffset=".as_bytes()), FontField::XOffset)?;
    let yoffset = require_signed(find_isize(l, "yoffset=".as_bytes()), FontField::YOffset)?;
    let advance = require(find_usize(l, "xadvance=".as_bytes()), FontField::XAdvance)?;
    let page = require(find_usize(l, "page=".as_bytes()), FontField::Page)?;
    if id > 0x10FFFF || (0xD800 <= id && id <= 0xDFFF) {
        return Err(FontError::InvalidCharacterId(id));
    }
    Ok((id as u32, Character { x, y, width, height, xoffset, yoffset, advance, page }))
}

/// A glyph-table result, by its view.
pub open spec fn table_result_view(r: Result<HashMap<u32, Character>, FontError>) -> Result<
    Map<u32, Character>,
    FontError,
> {
    match r {
        Ok(m) => Ok(m@),
        Err(e) => Err(e),
    }
}

proof fn lemma_chars_step(s: Seq<u8>, pos: int, table: Map<u32, Character>)
    requires
        0 <= pos < s.len(),
    ensures
        spec_chars(lines_from(s, pos), table) == if starts_with(
            line_at(s, pos),
            "char ".spec_bytes(),
        ) {
            match spec_char_line(line_at(s, pos)) {
                Err(e) => Err(e),
                Ok((code, c)) => spec_chars(
                    lines_from(s, next_line_start(s, pos)),
                    table.insert(code, c),
                ),
            }
        } else {
            spec_chars(lines_from(s, next_line_start(s, pos)), table)
        },
{
    lemma_lines_step(s, pos);
}

/// Reads the `char` lines of `bytes` into a glyph table made with room for
/// `count` glyphs.
fn read_characters(bytes: &[u8], count: usize) -> (r: Result<HashMap<u32, Character>, FontError>)
    ensures
        table_result_view(r) == spec_chars(lines(bytes@), Map::empty()),
{
    let mut characters: HashMap<u32, Character> = HashMap::with_capacity(count);
    let prefix = "char ".as_bytes();
    let len = bytes.len();
    let mut pos: usize = 0;
    while pos < len
        invariant
            pos <= len,
            len == bytes@.len(),
            prefix@ == "char ".spec_bytes(),
            spec_chars(lines(bytes@), Map::empty()) == spec_chars(
                lines_from(bytes@, pos as int),
                characters@,
            ),
        decreases len - pos,
    {
        proof {
            lemma_chars_step(bytes@, pos as int, characters@);
            lemma_lines_step(bytes@, pos as int);
        }
        let (end, next) = line_bounds(bytes, pos);
        let line = &bytes[pos..end];
        if has_prefix(line, prefix) {
            match parse_char_line(line) {
                Err(e) => return Err(e),
                Ok((code, c)) => {
                    characters.insert(code, c);
                },
            }
        }
        pos = next;
    }
    Ok(characters)
}

impl Font {
    /// Reads a usable font description for which `image_count` page images
    /// are at hand. A description with a missing or unsupported part is left
    /// out: [`Font::try_new`] tells which part that is.
    pub fn new(file: &str, image_count: usize) -> (r: Font)
        requires
            spec_font(file.spec_bytes(), image_count) is Ok,
        ensures
            spec_font(file.spec_bytes(), image_count) == Ok::<FontView, FontError>(r@),
    {
        let r = Font::try_new(file, image_count);
        r.unwrap()
    }

    /// Reads a font description for which `image_count` page images are at
    /// hand, failing on the first missing or unsupported part.
    pub fn try_new(file: &str, image_count: usize) -> (r: Result<Font, FontError>)
        ensures
            font_result_view(r) == spec_font(file.spec_bytes(), image_count),
    {
        let bytes = file.as_bytes();
        let ghost ls = lines(bytes@);
        let info = match find_line(bytes, "info ".as_bytes()) {
            Some(l) => l,
            None => return Err(FontError::MissingLine(FontLine::Info)),
        };
        let size = require(find_usize(info, "size=".as_bytes()), FontField::Size)?;
        let unicode = require(find_usize(info, "unicode=".as_bytes()), FontField::Unicode)?;
        if unicode != 1 {
            return Err(FontError::UnsupportedEncoding(unicode));
        }
        let stretch = require(find_usize(info, "stretchH=".as_bytes()), FontField::StretchH)?;
        if stretch != 100 {
            return Err(FontError::UnsupportedStretch(stretch));
        }
        let common = match find_line(bytes, "common ".as_bytes()) {
            Some(l) => l,
            None => return Err(FontError::MissingLine(FontLine::Common)),
        };
        let line_height = require(
            find_usize(common, "lineHeight=".as_bytes()),
            FontField::LineHeight,
        )?;
        let base = require(find_usize(common, "base=".as_bytes()), FontField::Base)?;
        let scale_width = require(find_usize(common, "scaleW=".as_bytes()), FontField::ScaleW)?;
        let scale_height = require(find_usize(common, "scaleH=".as_bytes()), FontField::ScaleH)?;
        let pages = require(find_usize(common, "pages=".as_bytes()), FontField::Pages)?;
        if pages != image_count {
            return Err(FontError::PageCountMismatch { pages, images: image_count });
        }
        let chars = match find_line(bytes, "chars ".as_bytes()) {
            Some(l) => l,
            None => return Err(FontError::MissingLine(FontLine::Chars)),
        };
        let count = require(find_usize(chars, "count=".as_bytes()), FontField::Count)?;
        let characters = read_characters(bytes, count)?;
        Ok(Font { size, line_height, base, scale_width, scale_height, characters })
    }

    /// The font size in pixels.
    pub fn size(&self) -> (r: usize)
        ensures
            r == self@.size,
    {
        self.size
    }

    /// The distance between two lines, in font pixels.
    pub fn line_height_pixels(&self) -> (r: usize)
        ensures
            r == self@.line_height,
    {
        self.line_height
    }

    /// The distance from the top of a line to its baseline, in font pixels.
    pub fn base_pixels(&self) -> (r: usize)
        ensures
            r == self@.base,
    {
        self.base
    }

    /// The width of a page image.
    pub fn scale_width(&self) -> (r: usize)
        ensures
            r == self@.scale_width,
    {
        self.scale_width
    }

    /// The height of a page image.
    pub fn scale_height(&self) -> (r: usize)
        ensures
            r == self@.scale_height,
    {
        self.scale_height
    }

    /// The glyph of `c`, if the font has one.
    pub fn character(&self, c: char) -> (r: Option<Character>)
        ensures
            r == if self@.characters.contains_key(c as u32) {
                Some(self@.characters[c as u32])
            } else {
                None::<Character>
            },
    {
        let code = c as u32;
        match self.characters.get(&code) {
            Some(found) => Some(*found),
            None => None,
        }
    }
}

} // verus!
