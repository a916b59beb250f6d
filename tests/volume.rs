use fat32_volume::{BiosParameterBlock, DirectoryEntry, Fat32Volume, FsError, format_name};

const ROOT_OFFSET: usize = 118784;
const FAT_OFFSET: usize = 16384;

fn create_mock_volume() -> Vec<u8> {
    let mut data = vec![0u8; 1024 * 1024];

    data[11] = 0x00;
    data[12] = 0x02; // 512 bytes per sector
    data[13] = 1; // 1 sector per cluster
    data[14] = 32;
    data[15] = 0; // 32 reserved
    data[16] = 2; // 2 FATs
    data[36] = 100;
    data[37] = 0;
    data[38] = 0;
    data[39] = 0; // 100 sectors per FAT
    data[44] = 2;
    data[45] = 0;
    data[46] = 0;
    data[47] = 0; // Root at 2

    data
}

fn signed_volume() -> Vec<u8> {
    let mut data = create_mock_volume();
    data[510] = 0x55;
    data[511] = 0xAA;
    data
}

fn put_record(data: &mut [u8], offset: usize, name: &[u8; 11], attr: u8, cluster: u32, size: u32) {
    data[offset..offset + 11].copy_from_slice(name);
    data[offset + 11] = attr;
    data[offset + 20..offset + 22].copy_from_slice(&((cluster >> 16) as u16).to_le_bytes());
    data[offset + 26..offset + 28].copy_from_slice(&(cluster as u16).to_le_bytes());
    data[offset + 28..offset + 32].copy_from_slice(&size.to_le_bytes());
}

fn cluster_offset(cluster: usize) -> usize {
    ROOT_OFFSET + (cluster - 2) * 512
}

/// Root holds `SUB` (cluster 5) and `README.TXT` (cluster 6); `SUB` holds
/// `.`, `..` and `FILE.TXT` (cluster 7).
fn tree_volume() -> Vec<u8> {
    let mut data = signed_volume();
    put_record(&mut data, ROOT_OFFSET, b"SUB        ", 0x10, 5, 0);
    put_record(&mut data, ROOT_OFFSET + 32, b"README  TXT", 0x20, 6, 5);
    data[cluster_offset(6)..cluster_offset(6) + 5].copy_from_slice(b"hello");
    let sub = cluster_offset(5);
    put_record(&mut data, sub, b".          ", 0x10, 5, 0);
    put_record(&mut data, sub + 32, b"..         ", 0x10, 0, 0);
    put_record(&mut data, sub + 64, b"FILE    TXT", 0x20, 7, 3);
    data[cluster_offset(7)..cluster_offset(7) + 3].copy_from_slice(b"abc");
    for c in 2..8 {
        let at = FAT_OFFSET + c * 4;
        data[at..at + 4].copy_from_slice(&0x0FFF_FFFFu32.to_le_bytes());
    }
    data
}

fn names(entries: &[DirectoryEntry]) -> Vec<String> {
    entries.iter().map(|e| e.name()).collect()
}

#[test]
fn test_volume_initialization() {
    let data = create_mock_volume();
    let volume = Fat32Volume::new(data);

    let bps = volume.boot_sector.bytes_per_sector;
    let root = volume.boot_sector.root_dir_cluster;

    assert_eq!(bps, 512);
    assert_eq!(root, 2);
    assert_eq!(volume.current_cluster, 2);
}

#[test]
fn test_offset_calculation() {
    let data = create_mock_volume();
    let volume = Fat32Volume::new(data);
    let offset = volume.offset_from_cluster(2);
    assert_eq!(offset, 118784);
}

#[test]
fn offsets_grow_with_the_cluster() {
    let volume = Fat32Volume::new(create_mock_volume());
    assert_eq!(volume.offset_from_cluster(3), 118784 + 512);
    assert_eq!(volume.offset_from_cluster(10), 118784 + 8 * 512);
    assert!(volume.offset_from_cluster(2) < volume.offset_from_cluster(3));
}

#[test]
fn low_clusters_count_as_cluster_two() {
    let volume = Fat32Volume::new(create_mock_volume());
    assert_eq!(volume.offset_from_cluster(0), 118784);
    assert_eq!(volume.offset_from_cluster(1), 118784);
}

#[test]
fn open_requires_the_boot_signature() {
    assert_eq!(Fat32Volume::open(create_mock_volume()).err(), Some(FsError::FormatError));
    assert_eq!(Fat32Volume::open(vec![0u8; 100]).err(), Some(FsError::FormatError));
    let volume = Fat32Volume::open(signed_volume()).unwrap();
    assert_eq!(volume.boot_sector.sectors_per_fat_32, 100);
    assert_eq!(volume.current_cluster, 2);
}

#[test]
fn parameter_block_reads_the_fields() {
    let mut data = signed_volume();
    data[48] = 1;
    data[50] = 6;
    let bpb = BiosParameterBlock::new(&data[..512]).unwrap();
    assert_eq!(bpb.bytes_per_sector, 512);
    assert_eq!(bpb.sectors_per_cluster, 1);
    assert_eq!(bpb.reserved_sectors, 32);
    assert_eq!(bpb.num_fats, 2);
    assert_eq!(bpb.fat_size_32, 100);
    assert_eq!(bpb.root_cluster, 2);
    assert_eq!(bpb.fs_info, 1);
    assert_eq!(bpb.backup_boot_sector, 6);
}

#[test]
fn parameter_block_rejects_a_bad_signature() {
    let data = create_mock_volume();
    assert_eq!(BiosParameterBlock::new(&data[..512]), Err(FsError::FormatError));
    let signed = signed_volume();
    assert_eq!(BiosParameterBlock::new(&signed[..511]), Err(FsError::FormatError));
}

#[test]
fn info_summarises_the_geometry() {
    let volume = Fat32Volume::new(create_mock_volume());
    assert_eq!(
        volume.get_info(),
        "Info:\n - Sector Size: 512\n - Cluster Size: 1\n - Root Cluster: 2\n - Current Cluster: 2"
    );
}

#[test]
fn names_are_trimmed_joined_and_lower_cased() {
    assert_eq!(format_name(b"README  TXT"), "readme.txt");
    assert_eq!(format_name(b"SUB        "), "sub");
    assert_eq!(format_name(b"A       B  "), "a.b");
    assert_eq!(format_name(b"..         "), "..");
}

#[test]
fn listing_shows_live_entries() {
    let volume = Fat32Volume::new(tree_volume());
    let entries = volume.list_current();
    assert_eq!(names(&entries), vec!["sub", "readme.txt"]);
    assert!(entries[0].is_directory());
    assert_eq!(entries[0].start_cluster(), 5);
    assert!(!entries[1].is_directory());
    assert_eq!(entries[1].size, 5);
    assert_eq!(entries[1].start_cluster(), 6);
}

#[test]
fn start_cluster_joins_both_halves() {
    let mut data = signed_volume();
    put_record(&mut data, ROOT_OFFSET, b"BIG        ", 0x20, 0x0001_0002, 9);
    let volume = Fat32Volume::new(data);
    let entries = volume.list_directory(2);
    assert_eq!(entries[0].cluster_high, 1);
    assert_eq!(entries[0].cluster_low, 2);
    assert_eq!(entries[0].start_cluster(), 0x0001_0002);
}

#[test]
fn end_marker_stops_the_scan_before_garbage() {
    let mut data = tree_volume();
    let after = ROOT_OFFSET + 64;
    data[after] = 0x00;
    for b in &mut data[after + 1..after + 32] {
        *b = 0x41;
    }
    put_record(&mut data, after + 32, b"GHOST   TXT", 0x20, 9, 1);
    let volume = Fat32Volume::new(data);
    assert_eq!(names(&volume.list_directory(2)), vec!["sub", "readme.txt"]);
}

#[test]
fn deleted_entries_are_skipped_without_ending_the_scan() {
    let mut data = tree_volume();
    data[ROOT_OFFSET] = 0xE5;
    put_record(&mut data, ROOT_OFFSET + 64, b"LATER   TXT", 0x20, 9, 1);
    let volume = Fat32Volume::new(data);
    assert_eq!(names(&volume.list_directory(2)), vec!["readme.txt", "later.txt"]);
}

#[test]
fn long_name_fragments_and_labels_are_hidden() {
    let mut data = signed_volume();
    put_record(&mut data, ROOT_OFFSET, b"Ab\0c\0d\0e\0f\0", 0x0F, 0, 0);
    put_record(&mut data, ROOT_OFFSET + 32, b"MYDISK     ", 0x08, 0, 0);
    put_record(&mut data, ROOT_OFFSET + 64, b"KEEP       ", 0x20, 3, 0);
    let volume = Fat32Volume::new(data);
    assert_eq!(names(&volume.list_directory(2)), vec!["keep"]);
}

#[test]
fn scan_reads_at_most_128_records() {
    let mut data = signed_volume();
    for i in 0..130 {
        put_record(&mut data, ROOT_OFFSET + 32 * i, b"F       TXT", 0x20, 3, 0);
    }
    let volume = Fat32Volume::new(data);
    assert_eq!(volume.list_directory(2).len(), 128);
}

#[test]
fn scanning_twice_gives_the_same_listing() {
    let volume = Fat32Volume::new(tree_volume());
    let first = volume.list_directory(2);
    let second = volume.list_directory(2);
    assert_eq!(first, second);
}

#[test]
fn resolve_walks_to_the_parent_of_the_leaf() {
    let volume = Fat32Volume::new(tree_volume());
    assert_eq!(volume.resolve_path(2, "/sub/file.txt"), Ok((5, Some("file.txt".to_string()))));
    assert_eq!(volume.resolve_path(2, "SUB//file.txt"), Ok((5, Some("file.txt".to_string()))));
    assert_eq!(volume.resolve_path(5, "/readme.txt"), Ok((2, Some("readme.txt".to_string()))));
    assert_eq!(volume.resolve_path(5, "../readme.txt"), Ok((2, Some("readme.txt".to_string()))));
}

#[test]
fn resolve_without_segments_is_the_directory_itself() {
    let volume = Fat32Volume::new(tree_volume());
    assert_eq!(volume.resolve_path(5, ""), Ok((5, None)));
    assert_eq!(volume.resolve_path(5, "/"), Ok((2, None)));
    assert_eq!(volume.resolve_path(5, "//"), Ok((2, None)));
}

#[test]
fn resolve_names_the_missing_segment() {
    let mut data = tree_volume();
    data[ROOT_OFFSET] = 0xE5;
    let volume = Fat32Volume::new(data);
    assert_eq!(volume.resolve_path(2, "/sub/file.txt"), Err(FsError::NotFound("sub".to_string())));
    let volume = Fat32Volume::new(tree_volume());
    assert_eq!(
        volume.resolve_path(2, "/readme.txt/x"),
        Err(FsError::NotFound("readme.txt".to_string()))
    );
}

#[test]
fn change_directory_moves_and_comes_back() {
    let mut volume = Fat32Volume::new(tree_volume());
    assert_eq!(volume.change_directory("Sub"), Ok(()));
    assert_eq!(volume.current_cluster, 5);
    assert_eq!(volume.change_directory("."), Ok(()));
    assert_eq!(volume.current_cluster, 5);
    assert_eq!(names(&volume.list_current()), vec![".", "..", "file.txt"]);
    assert_eq!(volume.change_directory(".."), Ok(()));
    assert_eq!(volume.current_cluster, 2);
}

#[test]
fn change_directory_failures_keep_the_directory() {
    let mut volume = Fat32Volume::new(tree_volume());
    assert_eq!(volume.change_directory("nope"), Err(FsError::NotFound("nope".to_string())));
    assert_eq!(volume.change_directory("readme.txt"), Err(FsError::NotADirectory));
    assert_eq!(volume.current_cluster, 2);
}

#[test]
fn find_sub_directory_gives_the_cluster() {
    let volume = Fat32Volume::new(tree_volume());
    assert_eq!(volume.find_sub_directory(2, "sub"), Ok(5));
    assert_eq!(volume.find_sub_directory(5, ".."), Ok(2));
    assert_eq!(volume.find_sub_directory(2, "readme.txt"), Err(FsError::NotADirectory));
}

#[test]
fn read_file_returns_the_content() {
    let volume = Fat32Volume::new(tree_volume());
    assert_eq!(volume.read_file("README.TXT"), Ok(b"hello".to_vec()));
    assert_eq!(volume.cat_file(5, "file.txt"), Ok(b"abc".to_vec()));
}

#[test]
fn read_file_errors() {
    let volume = Fat32Volume::new(tree_volume());
    assert_eq!(volume.read_file("sub"), Err(FsError::IsADirectory));
    assert_eq!(volume.read_file("missing.txt"), Err(FsError::NotFound("missing.txt".to_string())));
    let mut data = tree_volume();
    put_record(&mut data, ROOT_OFFSET + 64, b"HUGE    BIN", 0x20, 8, 0x0100_0000);
    let volume = Fat32Volume::new(data);
    assert_eq!(volume.read_file("huge.bin"), Err(FsError::OutOfRange));
}

#[test]
fn allocate_claims_the_first_free_entry() {
    let mut volume = Fat32Volume::new(tree_volume());
    assert_eq!(volume.allocate_cluster(), Ok(8));
    let image = volume.image_bytes();
    assert_eq!(&image[FAT_OFFSET + 32..FAT_OFFSET + 36], &[0xFF, 0xFF, 0xFF, 0x0F]);
    assert_eq!(volume.allocate_cluster(), Ok(9));
}

#[test]
fn allocate_starts_at_index_three() {
    let mut volume = Fat32Volume::new(create_mock_volume());
    assert_eq!(volume.allocate_cluster(), Ok(3));
}

#[test]
fn allocate_reports_a_full_table() {
    let mut data = create_mock_volume();
    for i in 3..(100 * 512 / 4) {
        let at = FAT_OFFSET + i * 4;
        data[at] = 1;
    }
    let mut volume = Fat32Volume::new(data);
    let before = volume.image_bytes().to_vec();
    assert_eq!(volume.allocate_cluster(), Err(FsError::OutOfSpace));
    assert_eq!(volume.image_bytes(), &before[..]);
}

#[test]
fn allocate_reports_a_table_past_the_image() {
    let mut data = create_mock_volume();
    data.truncate(FAT_OFFSET + 14);
    data[FAT_OFFSET + 12] = 1;
    let mut volume = Fat32Volume::new(data);
    assert_eq!(volume.allocate_cluster(), Err(FsError::OutOfRange));
}

#[test]
fn create_then_read_gives_the_content_back() {
    let mut volume = Fat32Volume::new(signed_volume());
    assert_eq!(volume.create_file("a.txt", b"hi"), Ok(()));
    assert_eq!(volume.read_file("a.txt"), Ok(b"hi".to_vec()));
    let entries = volume.list_current();
    assert_eq!(names(&entries), vec!["a.txt"]);
    assert_eq!(entries[0].size, 2);
    assert_eq!(entries[0].start_cluster(), 3);
    assert_eq!(entries[0].attributes, 0x20);
    assert_eq!(entries[0].name, *b"A       TXT");
}

#[test]
fn write_entry_then_scan_lists_it() {
    let mut volume = Fat32Volume::new(tree_volume());
    assert_eq!(volume.write_dir_entry(5, "Notes.md", 0x0002_0003, 77), Ok(()));
    let entries = volume.list_directory(5);
    let last = entries.last().unwrap();
    assert_eq!(last.name(), "notes.md");
    assert_eq!(last.size, 77);
    assert_eq!(last.start_cluster(), 0x0002_0003);
}

#[test]
fn write_entry_reuses_a_deleted_slot() {
    let mut data = tree_volume();
    data[ROOT_OFFSET] = 0xE5;
    let mut volume = Fat32Volume::new(data);
    assert_eq!(volume.write_dir_entry(2, "new", 9, 1), Ok(()));
    assert_eq!(names(&volume.list_directory(2)), vec!["new", "readme.txt"]);
    assert_eq!(volume.list_directory(2)[0].name, *b"NEW        ");
}

#[test]
fn write_entry_keeps_the_first_eight_and_three_bytes() {
    let mut volume = Fat32Volume::new(signed_volume());
    assert_eq!(volume.write_dir_entry(2, "longfilename.text.old", 3, 0), Ok(()));
    assert_eq!(volume.list_directory(2)[0].name, *b"LONGFILETEX");
}

#[test]
fn write_entry_reports_a_full_directory() {
    let mut data = signed_volume();
    for i in 0..64 {
        put_record(&mut data, ROOT_OFFSET + 32 * i, b"X          ", 0x20, 3, 0);
    }
    let mut volume = Fat32Volume::new(data);
    assert_eq!(volume.write_dir_entry(2, "y", 4, 0), Err(FsError::DirectoryFull));
}

#[test]
fn create_rejects_content_larger_than_a_cluster() {
    let mut volume = Fat32Volume::new(signed_volume());
    let before = volume.image_bytes().to_vec();
    assert_eq!(volume.create_file("big.bin", &[7u8; 513]), Err(FsError::FileTooLarge));
    assert_eq!(volume.image_bytes(), &before[..]);
}

#[test]
fn create_reports_a_full_table() {
    let mut data = signed_volume();
    for i in 3..(100 * 512 / 4) {
        data[FAT_OFFSET + i * 4 + 3] = 0x0F;
    }
    let mut volume = Fat32Volume::new(data);
    assert_eq!(volume.create_file("a.txt", b"hi"), Err(FsError::OutOfSpace));
}

#[test]
fn into_image_keeps_the_changes() {
    let mut volume = Fat32Volume::new(signed_volume());
    volume.create_file("a.txt", b"hi").unwrap();
    let image = volume.into_image();
    assert_eq!(&image[ROOT_OFFSET..ROOT_OFFSET + 11], b"A       TXT");
    assert_eq!(&image[cluster_offset(3)..cluster_offset(3) + 2], b"hi");
}

#[test]
fn write_entry_reports_a_directory_past_the_image() {
    let mut volume = Fat32Volume::new(signed_volume());
    assert_eq!(volume.write_dir_entry(5000, "a.txt", 3, 0), Err(FsError::OutOfRange));
}

#[test]
fn create_reports_a_cluster_past_the_image() {
    let mut data = signed_volume();
    data.truncate(ROOT_OFFSET + 512);
    let mut volume = Fat32Volume::new(data);
    assert_eq!(volume.create_file("a.txt", b"hi"), Err(FsError::OutOfRange));
    let image = volume.image_bytes();
    assert_eq!(&image[FAT_OFFSET + 12..FAT_OFFSET + 16], &[0xFF, 0xFF, 0xFF, 0x0F]);
    assert_eq!(image[ROOT_OFFSET], 0);
}

#[test]
fn create_accepts_content_of_exactly_one_cluster() {
    let mut volume = Fat32Volume::new(signed_volume());
    let content = vec![0x5Au8; 512];
    assert_eq!(volume.create_file("full.bin", &content), Ok(()));
    assert_eq!(volume.read_file("FULL.BIN"), Ok(content));
}

#[test]
fn created_files_take_consecutive_clusters() {
    let mut volume = Fat32Volume::new(signed_volume());
    assert_eq!(volume.create_file("one.txt", b"1"), Ok(()));
    assert_eq!(volume.create_file("two.txt", b"22"), Ok(()));
    let entries = volume.list_current();
    assert_eq!(names(&entries), vec!["one.txt", "two.txt"]);
    assert_eq!(entries[0].start_cluster(), 3);
    assert_eq!(entries[1].start_cluster(), 4);
    assert_eq!(volume.read_file("two.txt"), Ok(b"22".to_vec()));
}

#[test]
fn create_in_a_subdirectory() {
    let mut volume = Fat32Volume::new(tree_volume());
    assert_eq!(volume.create_file_in(5, "new.txt", b"sub data"), Ok(()));
    assert_eq!(volume.current_cluster, 2);
    assert_eq!(volume.cat_file(5, "NEW.TXT"), Ok(b"sub data".to_vec()));
    assert_eq!(names(&volume.list_directory(5)), vec![".", "..", "file.txt", "new.txt"]);
    assert_eq!(volume.read_file("new.txt"), Err(FsError::NotFound("new.txt".to_string())));
}

#[test]
fn a_full_table_is_reported_before_the_size() {
    let mut data = signed_volume();
    for i in 3..(100 * 512 / 4) {
        data[FAT_OFFSET + i * 4] = 1;
    }
    let mut volume = Fat32Volume::new(data);
    let before = volume.image_bytes().to_vec();
    assert_eq!(volume.create_file("big.bin", &[7u8; 513]), Err(FsError::OutOfSpace));
    assert_eq!(volume.image_bytes(), &before[..]);
}

#[test]
fn find_free_cluster_does_not_claim() {
    let volume = Fat32Volume::new(signed_volume());
    assert_eq!(volume.find_free_cluster(), Ok(3));
    assert_eq!(volume.find_free_cluster(), Ok(3));
    assert_eq!(&volume.image_bytes()[FAT_OFFSET + 12..FAT_OFFSET + 16], &[0, 0, 0, 0]);
}

#[test]
fn names_are_trimmed_of_ascii_white_space() {
    assert_eq!(format_name(b"A\t      TXT"), "a.txt");
    assert_eq!(format_name(b"\tB\r     \n  "), "b");
}

#[test]
fn getters_and_setter_follow_the_fields() {
    let mut volume = Fat32Volume::new(tree_volume());
    assert_eq!(volume.get_current_cluster(), 2);
    assert_eq!(volume.get_boot_sector().bytes_per_sector, 512);
    volume.set_current_cluster(5);
    assert_eq!(volume.get_current_cluster(), 5);
    assert_eq!(names(&volume.list_current()), vec![".", "..", "file.txt"]);
}
