use age::packer::{Entry, PackerInfo, TexturePacker};

fn apart(a: &Entry<u32>, b: &Entry<u32>, s: u32) -> bool {
    let (ra, rb) = (a.tex_rect, b.tex_rect);
    let (ax, ay, aw, ah) = (ra.position.x as i64, ra.position.y as i64, ra.size.x as i64, ra.size.y as i64);
    let (bx, by, bw, bh) = (rb.position.x as i64, rb.position.y as i64, rb.size.x as i64, rb.size.y as i64);
    let s = s as i64;
    ax + aw + s <= bx - s || bx + bw + s <= ax - s || ay + ah + s <= by - s || by + bh + s <= ay - s
}

fn filled(n: u32) -> TexturePacker<u32> {
    let info = PackerInfo { row_padding: 1, spacing: 1, max_size: 32, bytes_per_entry: 1 };
    let mut packer = TexturePacker::new(&info);
    for i in 0..n {
        let w = 1 + (i * 7) % 9;
        let h = 1 + (i * 5) % 11;
        packer.add(i, w, h, &vec![(i + 1) as u8; (w * h) as usize]);
    }
    packer
}

#[test]
fn packed_entries_are_inside_their_pages_and_apart() {
    let mut packer = filled(40);
    assert!(packer.is_packable());
    packer.pack();
    let entries = packer.entries();
    let pages = packer.pages().len();
    for e in entries {
        assert!(e.page < pages);
        assert!(e.tex_rect.position.x >= 1 && e.tex_rect.position.y >= 1);
        assert!(e.tex_rect.position.x + e.tex_rect.size.x + 1 <= 32);
        assert!(e.tex_rect.position.y + e.tex_rect.size.y + 1 <= 32);
    }
    for j in 0..entries.len() {
        for k in j + 1..entries.len() {
            if entries[j].page == entries[k].page {
                assert!(apart(&entries[j], &entries[k], 1));
            }
        }
    }
    assert!(pages > 1);
}

#[test]
fn packing_twice_changes_nothing() {
    let mut packer = filled(25);
    packer.pack();
    let placements: Vec<(usize, u32, u32)> =
        packer.entries().iter().map(|e| (e.page, e.tex_rect.position.x, e.tex_rect.position.y)).collect();
    let pages: Vec<Vec<u8>> = packer.pages().iter().map(|p| p.pixels().to_vec()).collect();
    packer.pack();
    let again: Vec<(usize, u32, u32)> =
        packer.entries().iter().map(|e| (e.page, e.tex_rect.position.x, e.tex_rect.position.y)).collect();
    let pages_again: Vec<Vec<u8>> = packer.pages().iter().map(|p| p.pixels().to_vec()).collect();
    assert_eq!(placements, again);
    assert_eq!(pages, pages_again);
}

#[test]
fn empty_bitmaps_are_not_added() {
    let mut packer: TexturePacker<u32> = TexturePacker::new(&PackerInfo::default());
    packer.add(1, 4, 4, &[]);
    assert_eq!(packer.entries().len(), 0);
    packer.add(2, 2, 1, &[1, 2, 3, 4, 5, 6, 7, 8]);
    assert_eq!(packer.entries().len(), 1);
    let e = &packer.entries()[0];
    assert_eq!((e.id, e.width, e.height, e.bytes_per_pixel, e.from, e.to), (2, 2, 1, 4, 0, 8));
    packer.add(3, 1, 1, &[9, 9]);
    let e = &packer.entries()[1];
    assert_eq!((e.id, e.bytes_per_pixel, e.from, e.to), (3, 2, 8, 10));
}

#[test]
fn an_empty_add_changes_no_later_packing() {
    let info = PackerInfo { row_padding: 1, spacing: 1, max_size: 8, bytes_per_entry: 1 };
    let mut a: TexturePacker<u32> = TexturePacker::new(&info);
    let mut b: TexturePacker<u32> = TexturePacker::new(&info);
    a.add(1, 2, 2, &[1, 2, 3, 4]);
    b.add(1, 2, 2, &[1, 2, 3, 4]);
    b.add(2, 0, 0, &[]);
    b.add(3, 5, 7, &[]);
    a.pack();
    b.pack();
    assert_eq!(b.entries().len(), 1);
    assert_eq!(a.pages().len(), b.pages().len());
    assert_eq!(a.pages()[0].pixels(), b.pages()[0].pixels());
    let (ea, eb) = (&a.entries()[0], &b.entries()[0]);
    assert_eq!((ea.page, ea.tex_rect.position.x, ea.tex_rect.position.y), (eb.page, eb.tex_rect.position.x, eb.tex_rect.position.y));
}

#[test]
fn clearing_removes_entries_and_pages() {
    let mut packer = filled(5);
    packer.pack();
    assert!(packer.pages().len() > 0);
    packer.clear();
    assert_eq!(packer.entries().len(), 0);
    assert_eq!(packer.pages().len(), 0);
    packer.pack();
    assert_eq!(packer.pages().len(), 0);
}

#[test]
fn default_packer_info() {
    let info = PackerInfo::default();
    assert_eq!((info.row_padding, info.spacing, info.max_size, info.bytes_per_entry), (1, 1, 512, 4));
    assert_eq!(PackerInfo::MAX_SIZE, 512);
}

#[test]
fn bitmaps_whose_bytes_run_past_the_page_are_not_packable() {
    let info = PackerInfo { row_padding: 1, spacing: 1, max_size: 10, bytes_per_entry: 1 };
    // A bitmap wider than a page runs on into the next pixel rows.
    let mut packer = TexturePacker::new(&info);
    packer.add(1, 10, 2, &vec![1; 20]);
    assert!(packer.is_packable());
    packer.pack();
    let e = &packer.entries()[0];
    assert_eq!((e.page, e.tex_rect.position.x, e.tex_rect.position.y), (0, 1, 1));
    let pixels = packer.pages()[0].pixels();
    assert_eq!(pixels.len(), 100);
    for k in 0..100 {
        assert_eq!(pixels[k], if (11..31).contains(&k) { 1 } else { 0 });
    }

    // The second bitmap opens a page of its own, one pixel down; its last
    // byte would be byte 101 of a 100-byte page.
    let mut packer = TexturePacker::new(&info);
    packer.add(1, 2, 2, &vec![1; 4]);
    packer.add(2, 10, 9, &vec![2; 90]);
    assert!(!packer.is_packable());
    let mut packer = TexturePacker::new(&info);
    packer.add(1, 2, 2, &vec![1; 4]);
    packer.add(2, 9, 9, &vec![2; 81]);
    assert!(packer.is_packable());
    packer.pack();
    assert_eq!(packer.pages().len(), 2);
    assert_eq!(packer.pages()[1].pixels()[99], 2);

    // A bitmap that fits a page with the spacing before it is packed, with
    // no spacing after it.
    let mut packer = TexturePacker::new(&info);
    packer.add(1, 9, 2, &vec![1; 18]);
    assert!(packer.is_packable());
    packer.pack();
    let e = &packer.entries()[0];
    assert_eq!((e.page, e.tex_rect.position.x, e.tex_rect.position.y), (0, 1, 1));
    assert_eq!(packer.pages()[0].pixels()[10 + 9], 1);

    // The first bitmap must fit a page with its row padding too.
    let mut packer = TexturePacker::new(&info);
    packer.add(1, 2, 8, &vec![1; 16]);
    assert!(!packer.is_packable());

    // A bitmap with fewer bytes than pixels is refused as well.
    let mut packer = TexturePacker::new(&info);
    packer.add(1, 2, 2, &vec![1; 3]);
    assert!(!packer.is_packable());

    // Larger pixels than the packer's are packed, onto a page of their size.
    let mut packer = TexturePacker::new(&info);
    packer.add(1, 2, 2, &vec![1; 8]);
    assert!(packer.is_packable());
    packer.pack();
    assert_eq!(packer.pages()[0].pixels().len(), 200);

    let mut packer = TexturePacker::new(&info);
    packer.add(1, 8, 7, &vec![1; 56]);
    assert!(packer.is_packable());
}

#[test]
fn a_tall_bitmap_goes_to_a_new_page() {
    let info = PackerInfo { row_padding: 1, spacing: 1, max_size: 10, bytes_per_entry: 1 };
    let mut packer = TexturePacker::new(&info);
    packer.add(1, 2, 2, &vec![1; 4]);
    packer.add(2, 2, 8, &vec![2; 16]);
    packer.pack();
    let entries = packer.entries();
    assert_eq!(entries[0].page, 0);
    assert_eq!(entries[1].page, 1);
    assert_eq!((entries[1].tex_rect.position.x, entries[1].tex_rect.position.y), (1, 1));
    assert_eq!(packer.pages().len(), 2);
}

#[test]
fn two_byte_pixels_side_by_side_share_a_byte() {
    // Positions are in pixels but are added to byte offsets unscaled, so
    // with two bytes per pixel the second bitmap starts inside the first.
    let info = PackerInfo { row_padding: 1, spacing: 1, max_size: 10, bytes_per_entry: 2 };
    let mut packer = TexturePacker::new(&info);
    packer.add(1u32, 3, 1, &[1; 6]);
    packer.add(2u32, 3, 1, &[2; 6]);
    packer.pack();
    let e = packer.entries();
    assert_eq!((e[0].tex_rect.position.x, e[1].tex_rect.position.x), (1, 6));
    let row: Vec<u8> = packer.pages()[0].pixels()[20..40].to_vec();
    assert_eq!(row, vec![0, 1, 1, 1, 1, 1, 2, 2, 2, 2, 2, 2, 0, 0, 0, 0, 0, 0, 0, 0]);
}

#[test]
fn one_byte_pixels_read_back() {
    let mut packer = filled(30);
    packer.pack();
    let info_max = 32usize;
    // Rebuild each bitmap's bytes as they were added.
    for e in packer.entries() {
        let page = packer.pages()[e.page].pixels();
        for yy in 0..e.height as usize {
            for xx in 0..e.width as usize {
                let k = (e.tex_rect.position.y as usize + yy) * info_max + e.tex_rect.position.x as usize + xx;
                assert_eq!(page[k], (e.id + 1) as u8);
            }
        }
    }
}
