use dtstools::cd::{classify_dts_files, dts_dir_index, is_reel_name, sort_by_key};
use dtstools::detect::{get_file_type, path_to_string, FileType};
use dtstools::error::Error;
use dtstools::ext234::{check_ext234_magic, get_ext234_label, is_ext234_image_file};
use dtstools::file::{File, FileType as Kind, MemFile, SeekFrom};
use dtstools::hdd::{find_contents_partition, is_hdd_img_file};
use dtstools::iso::{check_iso_magic, is_iso_file};
use dtstools::squash::is_squashfs_file;
use dtstools::text::ascii_lowercase;

fn p(parts: &[&str]) -> Vec<String> {
    parts.iter().map(|s| s.to_string()).collect()
}

#[test]
fn iso_detection() {
    let mut b = vec![0u8; 0x8800];
    b[0x8001..0x8006].copy_from_slice(b"CD001");
    let mut f = MemFile::new(b);
    assert!(is_iso_file(&mut f));
    assert_eq!(get_file_type(&mut f, &p(&["image.bin"])), Ok(FileType::Iso));
    assert!(check_iso_magic(b"CD001x"));
    assert!(!check_iso_magic(b"CD00"));
    let mut zero = MemFile::new(vec![0u8; 0x8800]);
    assert!(!is_iso_file(&mut zero));
}

#[test]
fn extension_comes_first() {
    let mut f = MemFile::new(vec![]);
    assert_eq!(get_file_type(&mut f, &p(&["R01T5.AUD"])), Ok(FileType::Aud));
    assert_eq!(get_file_type(&mut f, &p(&["x", "a.aue"])), Ok(FileType::Aue));
    assert_eq!(get_file_type(&mut f, &p(&["a.Snd"])), Ok(FileType::Snd));
    assert_eq!(get_file_type(&mut f, &p(&["a.HDR"])), Ok(FileType::Hdr));
    assert_eq!(get_file_type(&mut f, &p(&["disc.iso"])), Ok(FileType::Iso));
    match get_file_type(&mut f, &p(&["dir", "x.bin"])) {
        Err(Error::UnknownFileType(e)) => assert_eq!(e.file, "/dir/x.bin"),
        other => panic!("unexpected {:?}", other),
    }
}

#[test]
fn content_magics() {
    let mut sq = MemFile::new(b"hsqs....".to_vec());
    assert!(is_squashfs_file(&mut sq));
    assert_eq!(get_file_type(&mut sq, &p(&["x"])), Ok(FileType::SquashFs));
    let mut mbr = vec![0u8; 512];
    mbr[510] = 0x55;
    mbr[511] = 0xAA;
    let mut m = MemFile::new(mbr);
    assert!(is_hdd_img_file(&mut m));
    assert_eq!(get_file_type(&mut m, &p(&["x"])), Ok(FileType::HddImg));
    let mut ext = vec![0u8; 1536];
    ext[1080] = 0x53;
    ext[1081] = 0xEF;
    ext[1144..1153].copy_from_slice(b"/contents");
    assert!(check_ext234_magic(&ext));
    assert_eq!(get_ext234_label(&ext).unwrap(), "/contents");
    let mut e = MemFile::new(ext.clone());
    assert!(is_ext234_image_file(&mut e));
    assert_eq!(get_file_type(&mut e, &p(&["x"])), Ok(FileType::PartitionImg));
    let mut disk = vec![0u8; 4096];
    disk[2048..2048 + 1536].copy_from_slice(&ext);
    let mut d = MemFile::new(disk);
    assert_eq!(find_contents_partition(&mut d, &vec![(1, 2), (4, 4)], 512), Some((2048, 2048)));
    assert_eq!(find_contents_partition(&mut d, &vec![(1, 2)], 512), None);
}

#[test]
fn disc_recognition() {
    let root = vec![
        ("dts.exe".to_string(), Kind::File),
        ("dts".to_string(), Kind::Directory),
    ];
    assert_eq!(dts_dir_index(&root), Some(1));
    assert_eq!(dts_dir_index(&vec![("DTS.EXE".to_string(), Kind::File), ("dts".to_string(), Kind::Directory)]), None);
    assert_eq!(dts_dir_index(&vec![("dts.exe".to_string(), Kind::Directory), ("dts".to_string(), Kind::Directory)]), None);
    assert_eq!(dts_dir_index(&vec![("dts".to_string(), Kind::Directory)]), None);
    let inner = vec![
        ("r2t5.aud".to_string(), Kind::File),
        ("r14trlr.txt".to_string(), Kind::File),
        ("r1t5.aud".to_string(), Kind::File),
        ("r14t5.aud".to_string(), Kind::File),
    ];
    let files = classify_dts_files(&inner);
    assert_eq!(files.reels, vec![0, 2]);
    assert_eq!(files.trailer_metadata, Some(1));
    assert_eq!(files.trailer_audio, Some(3));
    let keys: Vec<Vec<u8>> = inner.iter().map(|(n, _)| n.as_bytes().to_vec()).collect();
    assert_eq!(sort_by_key(&files.reels, &keys), vec![2, 0]);
}

#[test]
fn reel_names_match_in_either_case() {
    assert!(is_reel_name("r1t5.aud"));
    assert!(is_reel_name("r10t5.aud"));
    assert!(is_reel_name(&ascii_lowercase("R1T5.AUD")));
    assert!(!is_reel_name("r01t5.aud"));
    assert!(is_reel_name("r9t5.aue"));
    assert!(is_reel_name("xr13t5.aud"));
    assert!(!is_reel_name("r04t5.aud"));
    assert!(!is_reel_name("r0t5.aud"));
    assert!(!is_reel_name("R1T5.AUD"));
    assert_eq!(ascii_lowercase("AbC-É"), "abc-É");
}

#[test]
fn window_reads_restore_the_cursor() {
    let mut f = MemFile::new((0u8..100).collect());
    assert_eq!(f.seek(SeekFrom::Start(10)), Ok(10));
    assert_eq!(f.read_exact_bytes_at(3, 50), Ok(vec![50, 51, 52]));
    assert_eq!(f.position(), 10);
    assert_eq!(f.read_le_u16_at(1), Ok(0x0201));
    assert_eq!(f.position(), 10);
    assert_eq!(f.read_exact_bytes_at(3, 98), Err(Error::UnexpectedEof));
    assert_eq!(f.seek(SeekFrom::End(-10)), Ok(90));
    assert_eq!(f.seek(SeekFrom::End(1)), Err(Error::InvalidSeek));
    assert_eq!(f.seek(SeekFrom::Current(-91)), Err(Error::InvalidSeek));
    assert_eq!(f.position(), 90);
    assert_eq!(f.read(20), Ok((90u8..100).collect::<Vec<u8>>()));
    assert_eq!(f.position(), 100);
    assert_eq!(f.read(5), Ok(vec![]));
    assert_eq!(path_to_string(&p(&["a", "b"])), "/a/b");
}
