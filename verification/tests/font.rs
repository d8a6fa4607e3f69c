use renderer::font::{find_isize, find_line, find_usize, Font, FontError, FontField, FontLine};

const DESCRIPTION: &str = "info face=\"Space Mono\" size=32 bold=0 italic=0 charset=\"\" unicode=1 stretchH=100 smooth=1 aa=1 padding=0,0,0,0 spacing=1,1 outline=0
common lineHeight=47 base=35 scaleW=256 scaleH=128 pages=2 packed=0
page id=0 file=\"space_mono_0.png\"
page id=1 file=\"space_mono_1.png\"
chars count=2
char id=65   x=10    y=20    width=15    height=22    xoffset=-1    yoffset=9     xadvance=19    page=0  chnl=15
char id=66   x=30    y=21    width=14    height=23    xoffset=2     yoffset=-9    xadvance=18    page=1  chnl=15
";

#[test]
fn font_reads_metrics_and_glyphs() {
    let font = Font::new(DESCRIPTION, 2);
    assert_eq!(font.size(), 32);
    assert_eq!(font.line_height_pixels(), 47);
    assert_eq!(font.base_pixels(), 35);
    assert_eq!(font.scale_width(), 256);
    assert_eq!(font.scale_height(), 128);
    let a = font.character('A').unwrap();
    assert_eq!((a.x, a.y, a.width, a.height), (10, 20, 15, 22));
    assert_eq!((a.xoffset, a.yoffset, a.advance, a.page), (-1, 9, 19, 0));
    let b = font.character('B').unwrap();
    assert_eq!((b.x, b.y, b.width, b.height), (30, 21, 14, 23));
    assert_eq!((b.xoffset, b.yoffset, b.advance, b.page), (2, -9, 18, 1));
    assert!(font.character('C').is_none());
}

#[test]
fn font_accepts_crlf_line_endings() {
    let crlf = DESCRIPTION.replace('\n', "\r\n");
    let font = Font::new(&crlf, 2);
    assert_eq!(font.scale_height(), 128);
    assert_eq!(font.character('B').unwrap().page, 1);
}

#[test]
fn font_later_glyph_replaces_earlier() {
    let text = format!("{}char id=65 x=1 y=2 width=3 height=4 xoffset=5 yoffset=6 xadvance=7 page=1\n", DESCRIPTION);
    let font = Font::new(&text, 2);
    let a = font.character('A').unwrap();
    assert_eq!((a.x, a.advance, a.page), (1, 7, 1));
}

#[test]
fn font_requires_info_line() {
    let text = DESCRIPTION.replacen("info ", "inf ", 1);
    assert!(matches!(Font::try_new(&text, 2), Err(FontError::MissingLine(FontLine::Info))));
}

#[test]
fn font_requires_unicode() {
    let text = DESCRIPTION.replacen("unicode=1", "unicode=0", 1);
    assert!(matches!(Font::try_new(&text, 2), Err(FontError::UnsupportedEncoding(0))));
}

#[test]
fn font_requires_unstretched_glyphs() {
    let text = DESCRIPTION.replacen("stretchH=100", "stretchH=90", 1);
    assert!(matches!(Font::try_new(&text, 2), Err(FontError::UnsupportedStretch(90))));
}

#[test]
fn font_requires_one_image_per_page() {
    assert!(matches!(Font::try_new(DESCRIPTION, 1),
        Err(FontError::PageCountMismatch { pages: 2, images: 1 })
    ));
}

#[test]
fn font_reports_first_missing_value() {
    let text = DESCRIPTION.replacen("lineHeight=47", "lineHeight=", 1);
    assert!(matches!(Font::try_new(&text, 2), Err(FontError::MissingValue(FontField::LineHeight))));
    let text = DESCRIPTION.replacen("xadvance=18", "advance=18", 1);
    assert!(matches!(Font::try_new(&text, 2), Err(FontError::MissingValue(FontField::XAdvance))));
    let text = DESCRIPTION.replacen("chars count=2", "chars", 1);
    assert!(matches!(Font::try_new(&text, 2), Err(FontError::MissingLine(FontLine::Chars))));
}

#[test]
fn font_rejects_surrogate_glyph_ids() {
    let text = DESCRIPTION.replacen("char id=66", "char id=55296", 1);
    assert!(matches!(Font::try_new(&text, 2), Err(FontError::InvalidCharacterId(55296))));
}

#[test]
fn find_line_picks_first_line_with_prefix() {
    let file = b"alpha 1\nbeta 2\r\nbeta 3\ngamma";
    assert_eq!(find_line(file, b"beta "), Some(&b"beta 2"[..]));
    assert_eq!(find_line(file, b"gamma"), Some(&b"gamma"[..]));
    assert_eq!(find_line(file, b"delta"), None);
    assert_eq!(find_line(b"", b""), None);
}

#[test]
fn find_line_keeps_lone_carriage_return_at_end() {
    assert_eq!(find_line(b"a\r", b"a"), Some(&b"a\r"[..]));
}

#[test]
fn find_usize_reads_digits_after_name() {
    assert_eq!(find_usize(b"a=12 b=x c=007", b"a="), Some(12));
    assert_eq!(find_usize(b"a=12 b=x c=007", b"b="), None);
    assert_eq!(find_usize(b"a=12 b=x c=007", b"c="), Some(7));
    assert_eq!(find_usize(b"a=12 b=x c=007", b"d="), None);
    assert_eq!(find_usize(b"a=99999999999999999999999", b"a="), None);
    assert_eq!(find_usize(b"a=5-", b"a="), Some(5));
}

#[test]
fn find_isize_reads_signed_numbers() {
    assert_eq!(find_isize(b"x=-5 y=7", b"x="), Some(-5));
    assert_eq!(find_isize(b"x=-5 y=7", b"y="), Some(7));
    assert_eq!(find_isize(b"x=- y=7", b"x="), None);
    assert_eq!(find_isize(b"x=3-4", b"x="), None);
    assert_eq!(find_isize(b"x=--3", b"x="), None);
    let min = format!("x={}", isize::MIN);
    assert_eq!(find_isize(min.as_bytes(), b"x="), Some(isize::MIN));
    let too_big = format!("x={}0", isize::MAX);
    assert_eq!(find_isize(too_big.as_bytes(), b"x="), None);
}

#[test]
fn font_requires_common_line() {
    let text = DESCRIPTION.replacen("common ", "uncommon ", 1);
    assert!(matches!(Font::try_new(&text, 2), Err(FontError::MissingLine(FontLine::Common))));
}

#[test]
fn font_requires_glyph_id() {
    let text = DESCRIPTION.replacen("char id=65", "char code=65", 1);
    assert!(matches!(Font::try_new(&text, 2), Err(FontError::MissingValue(FontField::Id))));
}

#[test]
fn font_try_new_accepts_complete_description() {
    let font = Font::try_new(DESCRIPTION, 2).unwrap_or_else(|_| panic!("the description is complete"));
    assert_eq!(font.size(), 32);
    assert!(font.character('A').is_some());
}
