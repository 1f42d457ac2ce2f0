use std::io::Write;
use std::rc::Rc;

use dtstools::error::Error;
use dtstools::extract::{reel_file_name_of, EntryWithMetadata, Files, SndEntryWithMetadata};
use dtstools::file::{DirEntry, File, FileSystem, MemFile, SeekFrom};
use dtstools::isofile::{iso_directory_datetime_to_datetime, IsoFileSystem};
use dtstools::metadata::{BackupSoundtrackFormat, SndFileMetadata, SndRevision, SndType};
use dtstools::partitionfile::{PartitionFile, PartitionFileSystem};
use dtstools::squashfsfile::{decode_block_header, to_inode_blk, to_inode_offset};

fn record(lba: u32, len: u32, flags: u8, name: &[u8]) -> Vec<u8> {
    let mut r = vec![0u8; 33];
    r[0] = (33 + name.len()) as u8;
    r[2..6].copy_from_slice(&lba.to_le_bytes());
    r[10..14].copy_from_slice(&len.to_le_bytes());
    r[25] = flags;
    r[32] = name.len() as u8;
    r.extend_from_slice(name);
    r
}

fn iso_image() -> Vec<u8> {
    let mut img = vec![0u8; 2048 * 24];
    let pvd = 0x8000;
    img[pvd] = 1;
    img[pvd + 1..pvd + 6].copy_from_slice(b"CD001");
    img[pvd + 6] = 1;
    let root = record(18, 2048, 2, &[0]);
    img[pvd + 156..pvd + 156 + root.len()].copy_from_slice(&root);
    let mut dir = Vec::new();
    dir.extend(record(18, 2048, 2, &[0]));
    dir.extend(record(18, 2048, 2, &[1]));
    dir.extend(record(19, 2048, 2, b"dts"));
    dir.extend(record(20, 5, 0, b"dts.exe;1"));
    img[18 * 2048..18 * 2048 + dir.len()].copy_from_slice(&dir);
    let sub = record(21, 3, 0, b"r1t5.aud;1");
    img[19 * 2048..19 * 2048 + sub.len()].copy_from_slice(&sub);
    img[20 * 2048..20 * 2048 + 5].copy_from_slice(b"MZexe");
    img[21 * 2048..21 * 2048 + 3].copy_from_slice(b"abc");
    img
}

#[test]
fn iso_lists_and_opens() {
    let mut fs = IsoFileSystem::from_file(MemFile::new(iso_image())).unwrap();
    let root = fs.read_dir(&vec![]).unwrap();
    let names: Vec<String> = root.iter().map(|e| e.file_name()).collect();
    assert_eq!(names, vec!["dts".to_string(), "dts.exe".to_string()]);
    assert!(fs.is_dir(&vec!["dts".to_string()]));
    assert!(fs.is_file(&vec!["dts.exe".to_string()]));
    let mut f = fs.open_file(&vec!["dts".to_string(), "r1t5.aud".to_string()]).unwrap();
    assert_eq!(f.len(), 3);
    assert_eq!(f.read_bytes(3), Ok(b"abc".to_vec()));
    assert!(matches!(fs.open_file(&vec!["nope".to_string()]), Err(Error::Path(e)) if e.path == "/nope"));
    assert!(matches!(fs.open_file(&vec!["dts".to_string()]), Err(Error::NotFilePath(_))));
    let tree = dtstools::iso::decode_iso_from_file(MemFile::new(iso_image()), "disc.iso").unwrap();
    assert_eq!(tree.reels.len(), 1);
    assert!(tree.trailers.is_none());
}

#[test]
fn iso_refuses_a_bad_descriptor() {
    let mut img = iso_image();
    img[0x8006] = 2;
    assert!(matches!(IsoFileSystem::from_file(MemFile::new(img)), Err(Error::BadMagic)));
}

#[test]
fn iso_dates_go_through_the_calendar() {
    let d = iso_directory_datetime_to_datetime(&[99, 12, 31, 23, 59, 58, 48]).unwrap();
    assert_eq!(d.year, 1999);
    assert_eq!(d.offset_seconds, 0);
    assert!(iso_directory_datetime_to_datetime(&[99, 13, 1, 0, 0, 0, 48]).is_none());
    assert!(iso_directory_datetime_to_datetime(&[99, 2, 30, 0, 0, 0, 48]).is_none());
    assert!(iso_directory_datetime_to_datetime(&[100, 2, 29, 0, 0, 0, 48]).is_some());
    assert!(iso_directory_datetime_to_datetime(&[0, 2, 29, 0, 0, 0, 48]).is_none());
    assert!(iso_directory_datetime_to_datetime(&[99, 1, 1, 24, 0, 0, 48]).is_none());
}

#[test]
fn partition_window() {
    let parent = Rc::new(MemFile::new((0u8..200).collect()));
    let mut w = PartitionFile::new(parent.clone(), 100, 50).unwrap();
    assert_eq!(w.len(), 50);
    assert_eq!(w.read_exact_bytes_at(2, 0), Ok(vec![100, 101]));
    assert_eq!(w.read_buffer_at(10, 45), Ok(vec![145, 146, 147, 148, 149]));
    assert_eq!(w.seek(SeekFrom::Start(51)), Err(Error::InvalidSeek));
    assert_eq!(w.seek(SeekFrom::End(0)), Ok(50));
    assert!(PartitionFile::new(parent, 190, 20).is_err());
    let mut fs = PartitionFileSystem::from_file(MemFile::new(vec![7u8; 10]), 2, 4).unwrap();
    assert!(fs.is_file(&vec![]));
    assert!(!fs.is_dir(&vec![]));
    assert_eq!(fs.read_dir(&vec![]).unwrap().len(), 0);
    let f = fs.get_file().unwrap();
    assert_eq!(f.len(), 4);
}

#[test]
fn squashfs_words() {
    assert_eq!(decode_block_header(0x8010), (false, 0x10));
    assert_eq!(decode_block_header(0x0010), (true, 0x10));
    assert_eq!(to_inode_blk(0x0001_2345_0067), 0x1_2345);
    assert_eq!(to_inode_offset(0x0001_2345_0067), 0x67);
}

fn snd(title: &str, id: u16, reel: u8, encrypted: bool) -> EntryWithMetadata {
    EntryWithMetadata {
        hdr: None,
        snd: SndEntryWithMetadata {
            path: vec!["in".to_string(), format!("{}.snd", title.to_lowercase())],
            metadata: SndFileMetadata {
                snd_type: if reel == 14 { SndType::Trailer } else { SndType::Feature },
                revision: SndRevision::XD,
                id,
                reel,
                title: title.to_string(),
                language: "ENG".to_string(),
                studio: None,
                optical_backup: BackupSoundtrackFormat::DolbySR,
                tracks: 6,
                encrypted,
                key: None,
                start: None,
                end: None,
                xda: None,
            },
        },
    }
}

#[test]
fn feature_extract_names_the_reel() {
    let files = Files { entries: vec![snd("Movie", 1, 3, false), snd("Other", 2, 1, true)] };
    let sel = files.find_entries_by_title("Movie");
    assert_eq!(sel, vec![0]);
    let (reels, copies) = files.convert_to_feature_files(&sel).unwrap();
    assert_eq!(reels, vec![3]);
    assert_eq!(copies[0].source, vec!["in".to_string(), "movie.snd".to_string()]);
    assert_eq!(copies[0].target, b"r3t5.aud".to_vec());
    assert_eq!(reel_file_name_of(12, true), b"r12t5.aue".to_vec());
    assert!(matches!(files.convert_to_feature_files(&vec![]), Err(Error::FeatureNotFound)));
    assert_eq!(files.find_entries_by_id(2), vec![1]);
}

#[test]
fn trailer_selection_and_manifest() {
    let files = Files { entries: vec![snd("A", 10, 14, false), snd("B", 11, 14, true), snd("C", 12, 2, false)] };
    assert_eq!(files.select_trailers_by_names(&vec!["A".to_string()]), Ok(vec![0]));
    assert_eq!(files.select_trailers_by_names(&vec!["B".to_string()]), Err(Error::NotATrailer("B".to_string())));
    assert_eq!(files.select_trailers_by_ids(&vec![12]), Err(Error::NotATrailerId(12)));
    assert_eq!(files.select_trailers_by_ids(&vec![99]), Err(Error::TrailerIdNotFound(99)));
    assert_eq!(files.select_trailers_by_names(&vec!["Z".to_string()]), Err(Error::TrailerNotFound("Z".to_string())));
    let m = files.trailer_manifest(&vec![0, 0], &vec![7350, 100]).unwrap();
    assert_eq!(m.entries[0].offset, 92);
    assert_eq!(m.entries[0].end, 2);
    assert_eq!(m.entries[1].offset, 92 + 7350);
    assert_eq!(m.entries[1].end, 0);
    assert_eq!(m.entries[1].start, 0);
}

fn zlib(payload: &[u8]) -> Vec<u8> {
    let mut enc = flate2::write::ZlibEncoder::new(Vec::new(), flate2::Compression::default());
    enc.write_all(payload).unwrap();
    enc.finish().unwrap()
}

fn squashfs_image(names: &[&str], compress: bool, content: &[u8]) -> Vec<u8> {
    let block = |payload: &[u8]| -> Vec<u8> {
        let mut out = Vec::new();
        if compress {
            let z = zlib(payload);
            out.extend_from_slice(&(z.len() as u16).to_le_bytes());
            out.extend_from_slice(&z);
        } else {
            out.extend_from_slice(&(payload.len() as u16 | 0x8000).to_le_bytes());
            out.extend_from_slice(payload);
        }
        out
    };
    let mut listing = Vec::new();
    listing.extend_from_slice(&((names.len() - 1) as u32).to_le_bytes());
    listing.extend_from_slice(&0u32.to_le_bytes());
    listing.extend_from_slice(&10u32.to_le_bytes());
    for n in names {
        listing.extend_from_slice(&32u16.to_le_bytes());
        listing.extend_from_slice(&0u16.to_le_bytes());
        listing.extend_from_slice(&2u16.to_le_bytes());
        listing.extend_from_slice(&((n.len() - 1) as u16).to_le_bytes());
        listing.extend_from_slice(n.as_bytes());
    }
    let data_block = if compress { zlib(content) } else { content.to_vec() };
    let mut inode = vec![0u8; 32 + 36];
    inode[0..2].copy_from_slice(&1u16.to_le_bytes());
    inode[12..16].copy_from_slice(&1u32.to_le_bytes());
    inode[24..26].copy_from_slice(&((listing.len() + 3) as u16).to_le_bytes());
    inode[32..34].copy_from_slice(&2u16.to_le_bytes());
    inode[44..48].copy_from_slice(&2u32.to_le_bytes());
    inode[52..56].copy_from_slice(&0xFFFF_FFFFu32.to_le_bytes());
    inode[60..64].copy_from_slice(&(content.len() as u32).to_le_bytes());
    let word = data_block.len() as u32 | if compress { 0 } else { 0x100_0000 };
    inode[64..68].copy_from_slice(&word.to_le_bytes());
    let dir_block = block(&listing);
    let inode_table = 96u64;
    let mut data_start = 0u64;
    let mut inode_block;
    loop {
        inode[48..52].copy_from_slice(&(data_start as u32).to_le_bytes());
        inode_block = block(&inode);
        let next = inode_table + inode_block.len() as u64 + dir_block.len() as u64;
        if next == data_start {
            break;
        }
        data_start = next;
    }
    let dir_table = inode_table + inode_block.len() as u64;
    let total = data_start + data_block.len() as u64;
    let mut sb = vec![0u8; 96];
    sb[0..4].copy_from_slice(b"hsqs");
    sb[12..16].copy_from_slice(&131072u32.to_le_bytes());
    sb[20..22].copy_from_slice(&1u16.to_le_bytes());
    sb[26..28].copy_from_slice(&1u16.to_le_bytes());
    sb[28..30].copy_from_slice(&4u16.to_le_bytes());
    sb[40..48].copy_from_slice(&total.to_le_bytes());
    sb[48..56].copy_from_slice(&96u64.to_le_bytes());
    sb[64..72].copy_from_slice(&inode_table.to_le_bytes());
    sb[72..80].copy_from_slice(&dir_table.to_le_bytes());
    let mut img = sb;
    img.extend(inode_block);
    img.extend(dir_block);
    img.extend(data_block);
    img
}

#[test]
fn squashfs_root_listing() {
    for compress in [false, true] {
        let img = squashfs_image(&["a.snd", "movie.hdr"], compress, b"hello squash");
        let mut fs = dtstools::squashfsfile::SquashFsFileSystem::from_file(MemFile::new(img)).unwrap();
        let entries = fs.read_dir(&vec![]).unwrap();
        let names: Vec<String> = entries.iter().map(|e| e.file_name()).collect();
        assert_eq!(names, vec!["a.snd".to_string(), "movie.hdr".to_string()]);
        assert!(fs.is_file(&vec!["movie.hdr".to_string()]));
        assert!(!fs.is_dir(&vec!["movie.hdr".to_string()]));
        assert!(matches!(fs.open_file(&vec!["zz".to_string()]), Err(Error::Path(_))));
        let mut f = fs.open_file(&vec!["a.snd".to_string()]).unwrap();
        assert_eq!(f.len(), 12);
        assert_eq!(f.read_bytes(12), Ok(b"hello squash".to_vec()));
    }
    let mut bad = squashfs_image(&["a"], false, b"x");
    bad[28] = 3;
    assert!(matches!(
        dtstools::squashfsfile::SquashFsFileSystem::from_file(MemFile::new(bad)),
        Err(Error::Unsupported)
    ));
}

#[test]
fn iso_without_disc_tree_and_other_errors() {
    let mut img = iso_image();
    let exe = 18 * 2048 + 34 * 2 + 36;
    img[exe + 33..exe + 40].copy_from_slice(b"setup.x");
    match dtstools::iso::decode_iso_from_file(MemFile::new(img), "plain.iso") {
        Err(Error::NotDtsDiscIso(e)) => assert_eq!(e.file, "plain.iso"),
        Err(e) => panic!("unexpected {:?}", e),
        Ok(_) => panic!("not a disc"),
    }
    let mut fs = IsoFileSystem::from_file(MemFile::new(iso_image())).unwrap();
    assert!(matches!(fs.read_dir(&vec!["dts.exe".to_string()]), Err(Error::NotDirPath(e)) if e.path == "/dts.exe"));
    assert!(matches!(
        PartitionFile::new(Rc::new(MemFile::new(vec![0; 4])), 2, 3),
        Err(Error::Corrupt)
    ));
    let mut not_squash = squashfs_image(&["a"], false, b"x");
    not_squash[0] = b'x';
    assert!(matches!(
        dtstools::squashfsfile::SquashFsFileSystem::from_file(MemFile::new(not_squash)),
        Err(Error::BadMagic)
    ));
}
