use age::font::{
    collect_kernings, kerning_pairs, pack_glyphs, select_chars, CharPair, CharSet, GlyphBitmap,
};

#[test]
fn charset_bounds_of_ascii() {
    let (from, to) = CharSet::ascii().bounds().ok().unwrap();
    assert_eq!(from, '\0');
    assert_eq!(to, '\u{80}');
}

#[test]
fn charset_bounds_reject_surrogates_and_negatives() {
    let e = CharSet::new(0xD800..0xD900).bounds().err().unwrap();
    assert_eq!(e.to_string(), "invalid codepoint");
    assert!(e.source().is_none());
    let e = CharSet::new(-1..10).bounds().err().unwrap();
    assert_eq!(e.to_string(), "invalid codepoint");
    let e = CharSet::new(0..0x110000).bounds().err().unwrap();
    assert_eq!(e.to_string(), "invalid codepoint");
    assert!(CharSet::new(0xE000..0x10FFFF).bounds().is_ok());
}

#[test]
fn kerning_pairs_are_every_pair_in_order() {
    let pairs = kerning_pairs(&['a', 'b', 'c']);
    let expected: Vec<CharPair> = vec![
        CharPair::new('a', 'a'),
        CharPair::new('a', 'b'),
        CharPair::new('a', 'c'),
        CharPair::new('b', 'a'),
        CharPair::new('b', 'b'),
        CharPair::new('b', 'c'),
        CharPair::new('c', 'a'),
        CharPair::new('c', 'b'),
        CharPair::new('c', 'c'),
    ];
    assert_eq!(pairs, expected);
    assert!(kerning_pairs(&[]).is_empty());
}

#[test]
fn collected_kernings_keep_the_pairs_with_values() {
    let pairs = kerning_pairs(&['a', 'v']);
    let values = vec![None, Some(-1.5f32), Some(-2.0f32), None];
    let ks = collect_kernings(&pairs, &values);
    assert_eq!(ks.len(), 2);
    assert_eq!((ks[0].a, ks[0].b, ks[0].value), ('a', 'v', -1.5));
    assert_eq!((ks[1].a, ks[1].b, ks[1].value), ('v', 'a', -2.0));
    assert_eq!(age::font::find_kerning(&ks, 'a', 'v'), Some(-1.5));
    assert_eq!(age::font::find_kerning(&ks, 'v', 'a'), Some(-2.0));
    assert_eq!(age::font::find_kerning(&ks, 'v', 'v'), None);
}

fn glyph(c: char, width: u32, height: u32, fill: u8) -> GlyphBitmap {
    GlyphBitmap {
        codepoint: c,
        width,
        height,
        bitmap: vec![fill; (width * height) as usize],
    }
}

#[test]
fn glyphs_pack_one_byte_per_pixel() {
    let glyphs = vec![glyph('a', 2, 3, 7), glyph(' ', 0, 0, 0), glyph('b', 4, 2, 9)];
    let packer = pack_glyphs(4096, &glyphs).unwrap();
    let entries = packer.entries();
    assert_eq!(entries.len(), 2);
    assert_eq!(entries[0].id, 'a');
    assert_eq!(entries[1].id, 'b');
    assert_eq!(entries[0].bytes_per_pixel, 1);
    assert_eq!((entries[0].tex_rect.position.x, entries[0].tex_rect.position.y), (1, 1));
    assert_eq!((entries[1].tex_rect.position.x, entries[1].tex_rect.position.y), (5, 1));
    let pages = packer.pages();
    assert_eq!(pages.len(), 1);
    assert_eq!((pages[0].width(), pages[0].height()), (512, 512));
    assert_eq!(pages[0].pixels().len(), 512 * 512);
    assert_eq!(pages[0].pixels()[512 + 1], 7);
    assert_eq!(pages[0].pixels()[512 + 5], 9);
    assert_eq!(pages[0].pixels()[0], 0);
}

#[test]
fn glyph_pages_shrink_to_the_device_limit() {
    let glyphs = vec![glyph('a', 2, 2, 1)];
    let packer = pack_glyphs(64, &glyphs).unwrap();
    let pages = packer.pages();
    assert_eq!((pages[0].width(), pages[0].height()), (64, 64));
}

#[test]
fn a_glyph_whose_bytes_run_past_its_page_cannot_be_packed() {
    // The second glyph opens a page of its own, one pixel down: its last
    // byte would be byte 65 of a 64-byte page.
    let glyphs = vec![glyph('a', 2, 2, 1), glyph('b', 8, 7, 1)];
    assert!(pack_glyphs(8, &glyphs).is_none());
    let glyphs = vec![glyph('a', 2, 2, 1), glyph('b', 7, 6, 1)];
    assert!(pack_glyphs(8, &glyphs).is_some());
}

#[test]
fn a_glyph_as_wide_as_its_page_is_packed() {
    let glyphs = vec![glyph('a', 4, 1, 5)];
    let packer = pack_glyphs(4, &glyphs).unwrap();
    let e = &packer.entries()[0];
    assert_eq!((e.page, e.tex_rect.position.x, e.tex_rect.position.y), (0, 1, 1));
    // Its one row starts at byte 5 and runs on into the next pixel row.
    let expected: Vec<u8> = vec![0, 0, 0, 0, 0, 5, 5, 5, 5, 0, 0, 0, 0, 0, 0, 0];
    assert_eq!(packer.pages()[0].pixels(), &expected[..]);
    let glyphs = vec![glyph('a', 64, 2, 1)];
    assert!(pack_glyphs(64, &glyphs).is_some());
}

#[test]
fn selected_chars_follow_their_flags() {
    assert_eq!(select_chars('a', 'e', &[true, false, true, false]), vec!['a', 'c']);
    assert!(select_chars('e', 'a', &[]).is_empty());
    let span = 0xE001 - 0xD7FF;
    let all = vec![true; span];
    assert_eq!(select_chars('\u{D7FF}', '\u{E001}', &all), vec!['\u{D7FF}', '\u{E000}']);
}

#[test]
fn kerning_pairs_keep_the_given_order() {
    let pairs = kerning_pairs(&['b', 'a']);
    let expected: Vec<CharPair> = vec![
        CharPair::new('b', 'b'),
        CharPair::new('b', 'a'),
        CharPair::new('a', 'b'),
        CharPair::new('a', 'a'),
    ];
    assert_eq!(pairs, expected);
}
