use age::packer::{PackerInfo, TexturePacker};

#[test]
fn pack_single_bitmap() {
    let info = PackerInfo {
        row_padding: 1,
        spacing: 1,
        max_size: 10,
        bytes_per_entry: 1,
    };
    let mut packer = TexturePacker::new(&info);

    let width = 4;
    let height = 2;
    let data = vec![1; width * height * info.bytes_per_entry as usize];
    packer.add(1, width as u32, height as u32, &data);

    packer.pack();

    let entries = packer.entries().iter().collect::<Vec<_>>();

    assert_eq!(1, entries.len());

    let entry = entries[0];
    assert_eq!(0, entry.page);
    assert_eq!(info.spacing, entry.tex_rect.position.x as u32);
    assert_eq!(info.spacing, entry.tex_rect.position.y as u32);
    assert_eq!(width as u32, entry.tex_rect.size.x as u32);
    assert_eq!(height as u32, entry.tex_rect.size.y as u32);

    let pages = packer.pages().iter().collect::<Vec<_>>();

    assert_eq!(1, pages.len());

    let page = pages[0];

    let expected: [u8; 100] = [
        0, 0, 0, 0, 0, 0, 0, 0, 0, 0,
        0, 1, 1, 1, 1, 0, 0, 0, 0, 0,
        0, 1, 1, 1, 1, 0, 0, 0, 0, 0,
        0, 0, 0, 0, 0, 0, 0, 0, 0, 0,
        0, 0, 0, 0, 0, 0, 0, 0, 0, 0,
        0, 0, 0, 0, 0, 0, 0, 0, 0, 0,
        0, 0, 0, 0, 0, 0, 0, 0, 0, 0,
        0, 0, 0, 0, 0, 0, 0, 0, 0, 0,
        0, 0, 0, 0, 0, 0, 0, 0, 0, 0,
        0, 0, 0, 0, 0, 0, 0, 0, 0, 0,
    ];

    let actual = page.pixels().to_vec();

    assert_eq!(expected.len(), actual.len());
    assert_eq!(&expected, &actual.as_slice());
}

#[test]
fn pack_two_bitmaps_vertically_on_same_page() {
    let info = PackerInfo {
        row_padding: 1,
        spacing: 1,
        max_size: 10,
        bytes_per_entry: 1,
    };
    let mut packer = TexturePacker::new(&info);

    let width = 4;
    let height = 2;
    packer.add(
        1,
        width as u32,
        height as u32,
        &vec![1; width * height * info.bytes_per_entry as usize],
    );
    packer.add(
        2,
        width as u32,
        height as u32,
        &vec![2; width * height * info.bytes_per_entry as usize],
    );

    packer.pack();

    let entries = packer.entries().iter().collect::<Vec<_>>();

    assert_eq!(2, entries.len());

    let entry0 = entries[0];
    assert_eq!(0, entry0.page);
    assert_eq!(info.spacing, entry0.tex_rect.position.x as u32);
    assert_eq!(info.spacing, entry0.tex_rect.position.y as u32);
    assert_eq!(width as u32, entry0.tex_rect.size.x as u32);
    assert_eq!(height as u32, entry0.tex_rect.size.y as u32);

    let gap = info.row_padding + info.spacing * 2;
    let entry1 = entries[1];
    assert_eq!(0, entry1.page);
    assert_eq!(info.spacing, entry1.tex_rect.position.x as u32);
    assert_eq!(
        entry0.tex_rect.position.y + entry0.tex_rect.size.y + gap as u32,
        entry1.tex_rect.position.y
    );
    assert_eq!(width as u32, entry1.tex_rect.size.x as u32);
    assert_eq!(
        entry0.tex_rect.position.y + entry0.tex_rect.size.y + gap as u32 + height as u32,
        entry1.tex_rect.position.y + entry1.tex_rect.size.y
    );

    let pages = packer.pages().iter().collect::<Vec<_>>();

    assert_eq!(1, pages.len());

    let page = pages[0];

    let expected: [u8; 100] = [
        0, 0, 0, 0, 0, 0, 0, 0, 0, 0,
        0, 1, 1, 1, 1, 0, 0, 0, 0, 0,
        0, 1, 1, 1, 1, 0, 0, 0, 0, 0,
        0, 0, 0, 0, 0, 0, 0, 0, 0, 0,
        0, 0, 0, 0, 0, 0, 0, 0, 0, 0,
        0, 0, 0, 0, 0, 0, 0, 0, 0, 0,
        0, 2, 2, 2, 2, 0, 0, 0, 0, 0,
        0, 2, 2, 2, 2, 0, 0, 0, 0, 0,
        0, 0, 0, 0, 0, 0, 0, 0, 0, 0,
        0, 0, 0, 0, 0, 0, 0, 0, 0, 0,
    ];

    let actual = page.pixels().to_vec();

    assert_eq!(expected.len(), actual.len());
    assert_eq!(&expected, &actual.as_slice());
}

#[test]
fn pack_two_bitmaps_horizontally_on_same_page() {
    let info = PackerInfo {
        row_padding: 1,
        spacing: 1,
        max_size: 10,
        bytes_per_entry: 1,
    };
    let mut packer = TexturePacker::new(&info);

    let width = 3;
    let height = 2;
    packer.add(
        1,
        width as u32,
        height as u32,
        &vec![1; width * height * info.bytes_per_entry as usize],
    );
    packer.add(
        2,
        width as u32,
        height as u32,
        &vec![2; width * height * info.bytes_per_entry as usize],
    );

    packer.pack();

    let entries = packer.entries().iter().collect::<Vec<_>>();

    assert_eq!(2, entries.len());

    let entry0 = entries[0];
    assert_eq!(0, entry0.page);
    assert_eq!(info.spacing, entry0.tex_rect.position.x as u32);
    assert_eq!(info.spacing, entry0.tex_rect.position.y as u32);
    assert_eq!(width as u32, entry0.tex_rect.size.x as u32);
    assert_eq!(height as u32, entry0.tex_rect.size.y as u32);

    let gap = info.spacing * 2;
    let entry1 = entries[1];
    assert_eq!(0, entry1.page);
    assert_eq!(
        entry0.tex_rect.position.x + entry0.tex_rect.size.x + gap as u32,
        entry1.tex_rect.position.x
    );
    assert_eq!(info.spacing, entry1.tex_rect.position.y as u32);
    assert_eq!(
        entry0.tex_rect.position.x + entry0.tex_rect.size.x + gap as u32 + width as u32,
        entry1.tex_rect.position.x + entry1.tex_rect.size.x
    );
    assert_eq!(height as u32, entry1.tex_rect.size.y as u32);

    let pages = packer.pages().iter().collect::<Vec<_>>();

    assert_eq!(1, pages.len());

    let page = pages[0];

    let expected: [u8; 100] = [
        0, 0, 0, 0, 0, 0, 0, 0, 0, 0,
        0, 1, 1, 1, 0, 0, 2, 2, 2, 0,
        0, 1, 1, 1, 0, 0, 2, 2, 2, 0,
        0, 0, 0, 0, 0, 0, 0, 0, 0, 0,
        0, 0, 0, 0, 0, 0, 0, 0, 0, 0,
        0, 0, 0, 0, 0, 0, 0, 0, 0, 0,
        0, 0, 0, 0, 0, 0, 0, 0, 0, 0,
        0, 0, 0, 0, 0, 0, 0, 0, 0, 0,
        0, 0, 0, 0, 0, 0, 0, 0, 0, 0,
        0, 0, 0, 0, 0, 0, 0, 0, 0, 0,
    ];

    let actual = page.pixels().to_vec();

    assert_eq!(expected.len(), actual.len());
    assert_eq!(&expected, &actual.as_slice());
}

#[test]
fn pack_four_bitmaps_vertically_and_horizontally_on_same_page() {
    let info = PackerInfo {
        row_padding: 1,
        spacing: 1,
        max_size: 10,
        bytes_per_entry: 1,
    };
    let mut packer = TexturePacker::new(&info);

    let width = 3;
    let height = 2;
    packer.add(
        1,
        width as u32,
        height as u32,
        &vec![1; width * height * info.bytes_per_entry as usize],
    );
    packer.add(
        2,
        width as u32,
        height as u32,
        &vec![2; width * height * info.bytes_per_entry as usize],
    );
    packer.add(
        3,
        width as u32,
        height as u32,
        &vec![3; width * height * info.bytes_per_entry as usize],
    );
    packer.add(
        4,
        width as u32,
        height as u32,
        &vec![4; width * height * info.bytes_per_entry as usize],
    );

    packer.pack();

    let pages = packer.pages().iter().collect::<Vec<_>>();

    assert_eq!(1, pages.len());

    let page = pages[0];

    let expected: [u8; 100] = [
        0, 0, 0, 0, 0, 0, 0, 0, 0, 0,
        0, 1, 1, 1, 0, 0, 2, 2, 2, 0,
        0, 1, 1, 1, 0, 0, 2, 2, 2, 0,
        0, 0, 0, 0, 0, 0, 0, 0, 0, 0,
        0, 0, 0, 0, 0, 0, 0, 0, 0, 0,
        0, 0, 0, 0, 0, 0, 0, 0, 0, 0,
        0, 3, 3, 3, 0, 0, 4, 4, 4, 0,
        0, 3, 3, 3, 0, 0, 4, 4, 4, 0,
        0, 0, 0, 0, 0, 0, 0, 0, 0, 0,
        0, 0, 0, 0, 0, 0, 0, 0, 0, 0,
    ];

    let actual = page.pixels().to_vec();

    assert_eq!(expected.len(), actual.len());
    assert_eq!(&expected, &actual.as_slice());
}

#[test]
fn pack_three_bitmaps_on_row1_row2_row1() {
    let info = PackerInfo {
        row_padding: 1,
        spacing: 1,
        max_size: 10,
        bytes_per_entry: 1,
    };
    let mut packer = TexturePacker::new(&info);

    let width = 3;
    let height = 2;
    packer.add(
        1,
        width as u32,
        height as u32,
        &vec![1; width * height * info.bytes_per_entry as usize],
    );
    packer.add(2, 5, 2, &vec![2; 5 * 2 * info.bytes_per_entry as usize]);
    packer.add(
        3,
        width as u32,
        height as u32,
        &vec![3; width * height * info.bytes_per_entry as usize],
    );

    packer.pack();

    let pages = packer.pages().iter().collect::<Vec<_>>();

    assert_eq!(1, pages.len());

    let page = pages[0];

    let expected: [u8; 100] = [
        0, 0, 0, 0, 0, 0, 0, 0, 0, 0,
        0, 1, 1, 1, 0, 0, 3, 3, 3, 0,
        0, 1, 1, 1, 0, 0, 3, 3, 3, 0,
        0, 0, 0, 0, 0, 0, 0, 0, 0, 0,
        0, 0, 0, 0, 0, 0, 0, 0, 0, 0,
        0, 0, 0, 0, 0, 0, 0, 0, 0, 0,
        0, 2, 2, 2, 2, 2, 0, 0, 0, 0,
        0, 2, 2, 2, 2, 2, 0, 0, 0, 0,
        0, 0, 0, 0, 0, 0, 0, 0, 0, 0,
        0, 0, 0, 0, 0, 0, 0, 0, 0, 0,
    ];

    let actual = page.pixels().to_vec();

    assert_eq!(expected.len(), actual.len());
    assert_eq!(&expected, &actual.as_slice());
}

#[test]
fn pack_two_bitmaps_on_page1_and_page2() {
    let info = PackerInfo {
        row_padding: 1,
        spacing: 1,
        max_size: 10,
        bytes_per_entry: 1,
    };
    let mut packer = TexturePacker::new(&info);

    let width = 5;
    let height = 5;
    packer.add(
        1,
        width as u32,
        height as u32,
        &vec![1; width * height * info.bytes_per_entry as usize],
    );
    packer.add(
        2,
        width as u32,
        height as u32,
        &vec![2; width * height * info.bytes_per_entry as usize],
    );

    packer.pack();

    let pages = packer.pages().iter().collect::<Vec<_>>();

    assert_eq!(2, pages.len());

    let page1 = pages[0];
    let page2 = pages[1];

    let expected1: [u8; 100] = [
        0, 0, 0, 0, 0, 0, 0, 0, 0, 0,
        0, 1, 1, 1, 1, 1, 0, 0, 0, 0,
        0, 1, 1, 1, 1, 1, 0, 0, 0, 0,
        0, 1, 1, 1, 1, 1, 0, 0, 0, 0,
        0, 1, 1, 1, 1, 1, 0, 0, 0, 0,
        0, 1, 1, 1, 1, 1, 0, 0, 0, 0,
        0, 0, 0, 0, 0, 0, 0, 0, 0, 0,
        0, 0, 0, 0, 0, 0, 0, 0, 0, 0,
        0, 0, 0, 0, 0, 0, 0, 0, 0, 0,
        0, 0, 0, 0, 0, 0, 0, 0, 0, 0,
    ];

    let expected2: [u8; 100] = [
        0, 0, 0, 0, 0, 0, 0, 0, 0, 0,
        0, 2, 2, 2, 2, 2, 0, 0, 0, 0,
        0, 2, 2, 2, 2, 2, 0, 0, 0, 0,
        0, 2, 2, 2, 2, 2, 0, 0, 0, 0,
        0, 2, 2, 2, 2, 2, 0, 0, 0, 0,
        0, 2, 2, 2, 2, 2, 0, 0, 0, 0,
        0, 0, 0, 0, 0, 0, 0, 0, 0, 0,
        0, 0, 0, 0, 0, 0, 0, 0, 0, 0,
        0, 0, 0, 0, 0, 0, 0, 0, 0, 0,
        0, 0, 0, 0, 0, 0, 0, 0, 0, 0,
    ];

    let actual1 = page1.pixels().to_vec();
    let actual2 = page2.pixels().to_vec();

    assert_eq!(expected1.len(), actual1.len());
    assert_eq!(&expected1, &actual1.as_slice());
    assert_eq!(expected2.len(), actual2.len());
    assert_eq!(&expected2, &actual2.as_slice());
}

#[test]
fn pack_three_bitmaps_on_page1_page2_page1() {
    let info = PackerInfo {
        row_padding: 1,
        spacing: 1,
        max_size: 10,
        bytes_per_entry: 1,
    };
    let mut packer = TexturePacker::new(&info);

    packer.add(1, 5, 2, &vec![1; 5 * 2 * info.bytes_per_entry as usize]);
    packer.add(2, 5, 7, &vec![2; 5 * 7 * info.bytes_per_entry as usize]);
    packer.add(3, 5, 2, &vec![3; 5 * 2 * info.bytes_per_entry as usize]);

    packer.pack();

    let pages = packer.pages().iter().collect::<Vec<_>>();

    assert_eq!(2, pages.len());

    let page1 = pages[0];
    let page2 = pages[1];

    let expected1: [u8; 100] = [
        0, 0, 0, 0, 0, 0, 0, 0, 0, 0,
        0, 1, 1, 1, 1, 1, 0, 0, 0, 0,
        0, 1, 1, 1, 1, 1, 0, 0, 0, 0,
        0, 0, 0, 0, 0, 0, 0, 0, 0, 0,
        0, 0, 0, 0, 0, 0, 0, 0, 0, 0,
        0, 0, 0, 0, 0, 0, 0, 0, 0, 0,
        0, 3, 3, 3, 3, 3, 0, 0, 0, 0,
        0, 3, 3, 3, 3, 3, 0, 0, 0, 0,
        0, 0, 0, 0, 0, 0, 0, 0, 0, 0,
        0, 0, 0, 0, 0, 0, 0, 0, 0, 0,
    ];

    let expected2: [u8; 100] = [
        0, 0, 0, 0, 0, 0, 0, 0, 0, 0,
        0, 2, 2, 2, 2, 2, 0, 0, 0, 0,
        0, 2, 2, 2, 2, 2, 0, 0, 0, 0,
        0, 2, 2, 2, 2, 2, 0, 0, 0, 0,
        0, 2, 2, 2, 2, 2, 0, 0, 0, 0,
        0, 2, 2, 2, 2, 2, 0, 0, 0, 0,
        0, 2, 2, 2, 2, 2, 0, 0, 0, 0,
        0, 2, 2, 2, 2, 2, 0, 0, 0, 0,
        0, 0, 0, 0, 0, 0, 0, 0, 0, 0,
        0, 0, 0, 0, 0, 0, 0, 0, 0, 0,
    ];

    let actual1 = page1.pixels().to_vec();
    let actual2 = page2.pixels().to_vec();

    assert_eq!(expected1.len(), actual1.len());
    assert_eq!(&expected1, &actual1.as_slice());
    assert_eq!(expected2.len(), actual2.len());
    assert_eq!(&expected2, &actual2.as_slice());
}

#[test]
fn pack_single_bitmap_with_multiple_channels() {
    let info = PackerInfo {
        row_padding: 1,
        spacing: 1,
        max_size: 10,
        bytes_per_entry: 2,
    };
    let mut packer = TexturePacker::new(&info);

    let width = 4;
    let height = 2;
    let data = vec![[1, 2]; width * height]
        .into_iter()
        .flat_map(|i| i.into_iter())
        .collect::<Vec<_>>();
    packer.add(1, width as u32, height as u32, &data);

    packer.pack();

    let entries = packer.entries().iter().collect::<Vec<_>>();

    assert_eq!(1, entries.len());

    let entry = entries[0];
    assert_eq!(0, entry.page);
    assert_eq!(info.spacing, entry.tex_rect.position.x as u32);
    assert_eq!(info.spacing, entry.tex_rect.position.y as u32);
    assert_eq!(width as u32, entry.tex_rect.size.x as u32);
    assert_eq!(height as u32, entry.tex_rect.size.y as u32);

    let pages = packer.pages().iter().collect::<Vec<_>>();

    assert_eq!(1, pages.len());

    let page = pages[0];

    let expected: [u8; 200] = [
        0, 0, 0, 0, 0, 0, 0, 0, 0, 0, 0, 0, 0, 0, 0, 0, 0, 0, 0, 0,
        0, 1, 2, 1, 2, 1, 2, 1, 2, 0, 0, 0, 0, 0, 0, 0, 0, 0, 0, 0,
        0, 1, 2, 1, 2, 1, 2, 1, 2, 0, 0, 0, 0, 0, 0, 0, 0, 0, 0, 0,
        0, 0, 0, 0, 0, 0, 0, 0, 0, 0, 0, 0, 0, 0, 0, 0, 0, 0, 0, 0,
        0, 0, 0, 0, 0, 0, 0, 0, 0, 0, 0, 0, 0, 0, 0, 0, 0, 0, 0, 0,
        0, 0, 0, 0, 0, 0, 0, 0, 0, 0, 0, 0, 0, 0, 0, 0, 0, 0, 0, 0,
        0, 0, 0, 0, 0, 0, 0, 0, 0, 0, 0, 0, 0, 0, 0, 0, 0, 0, 0, 0,
        0, 0, 0, 0, 0, 0, 0, 0, 0, 0, 0, 0, 0, 0, 0, 0, 0, 0, 0, 0,
        0, 0, 0, 0, 0, 0, 0, 0, 0, 0, 0, 0, 0, 0, 0, 0, 0, 0, 0, 0,
        0, 0, 0, 0, 0, 0, 0, 0, 0, 0, 0, 0, 0, 0, 0, 0, 0, 0, 0, 0,
    ];

    let actual = page.pixels().to_vec();

    assert_eq!(expected.len(), actual.len());
    assert_eq!(&expected, &actual.as_slice());
}
