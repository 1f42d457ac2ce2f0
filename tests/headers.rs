use dtstools::error::Error;
use dtstools::file::MemFile;
use dtstools::hdr::{check_hdr_magic, decode_hdr, decode_hdr_from_file, is_hdr_file};
use dtstools::metadata::{BackupSoundtrackFormat, Offset, SndFileMetadata, SndRevision, SndType, XdaFields};
use dtstools::snd::{
    classify_revision, decode_offset, decode_snd_header, decode_snd_header_from_file, encode_header,
    get_generic_trailers_header, get_optical_backup_format, snd_fits,
};

fn minimal_hdr() -> Vec<u8> {
    let mut b = vec![0u8; 202];
    b[..9].copy_from_slice(&[0xCA, 0x00, 0x01, 0x00, 0x04, 0x00, b'D', b'T', b'S']);
    b[9..14].copy_from_slice(b"hello");
    b[69..79].copy_from_slice(b"studio_one");
    b[79] = 0x39;
    b[80] = 0x30;
    b[91] = 0x07;
    b
}

#[test]
fn hdr_minimal_decodes() {
    let m = decode_hdr(&minimal_hdr(), "a.hdr").unwrap();
    assert_eq!(m.id, 12345);
    assert_eq!(m.title, "hello");
    assert_eq!(m.studio, "studio_one");
    assert_eq!(m.reel, 7);
}

#[test]
fn hdr_from_file_and_detection() {
    let mut f = MemFile::new(minimal_hdr());
    assert!(is_hdr_file(&mut f));
    let m = decode_hdr_from_file(&mut f, "a.hdr").unwrap();
    assert_eq!(m.id, 0x3039);
    let mut short = MemFile::new(vec![0xCA; 10]);
    assert!(!is_hdr_file(&mut short));
    match decode_hdr_from_file(&mut short, "b.hdr") {
        Err(Error::HdrUnexpectedSize(e)) => {
            assert_eq!(e.size, 10);
            assert_eq!(e.file, "b.hdr");
        }
        _ => panic!("expected a size error"),
    }
}

#[test]
fn hdr_bad_signature_and_text() {
    let mut b = minimal_hdr();
    b[6] = b'X';
    assert!(!check_hdr_magic(&b));
    match decode_hdr(&b, "c.hdr") {
        Err(Error::HdrUnexpectedHeader(e)) => assert_eq!(e.data, b[..10].to_vec()),
        _ => panic!("expected a header error"),
    }
    let mut c = minimal_hdr();
    c[10] = 0xFF;
    assert_eq!(decode_hdr(&c, "d.hdr"), Err(Error::InvalidUtf8));
}

fn sample_snd(revision: SndRevision) -> SndFileMetadata {
    SndFileMetadata {
        snd_type: SndType::Feature,
        revision,
        id: 0x1234,
        reel: 3,
        title: "Movie".to_string(),
        language: if revision == SndRevision::H1 { String::new() } else { "ENG".to_string() },
        studio: Some("STU".to_string()),
        optical_backup: BackupSoundtrackFormat::NonSync,
        tracks: 6,
        encrypted: false,
        key: None,
        start: Some(Offset { frames: 1, seconds: 2, minutes: 3, hours: 4 }),
        end: None,
        xda: if revision == SndRevision::XDA {
            Some(XdaFields {
                source: "35MM".to_string(),
                mix: "STEREO MIX".to_string(),
                lfe_level: "10".to_string(),
                surround_delay: "15".to_string(),
                filters: "A".to_string(),
            })
        } else {
            None
        },
    }
}

fn with_tail(mut b: Vec<u8>) -> Vec<u8> {
    b.extend_from_slice(&[0, 0, 0]);
    b
}

#[test]
fn snd_encode_then_decode_each_revision() {
    for rev in [SndRevision::H1, SndRevision::XD, SndRevision::XDA] {
        let m = sample_snd(rev);
        assert!(snd_fits(&m));
        let bytes = encode_header(&m);
        assert_eq!(bytes.len(), 92);
        assert_eq!(classify_revision(&bytes), rev);
        let d = decode_snd_header(&with_tail(bytes)).unwrap();
        assert_eq!(d, m);
    }
}

#[test]
fn snd_layout_of_xd() {
    let bytes = encode_header(&sample_snd(SndRevision::XD));
    assert_eq!(&bytes[0..5], b"Movie");
    assert_eq!(bytes[60], b'*');
    assert_eq!(&bytes[61..64], b"ENG");
    assert_eq!(&bytes[68..71], b"STU");
    assert_eq!(bytes[75], 0x80);
    assert_eq!(bytes[78], 3);
    assert_eq!(&bytes[80..82], &[0x34, 0x12]);
    assert_eq!(bytes[82], 6);
    assert_eq!(&bytes[84..88], &[0x01, 0x02, 0x03, 0x04]);
    assert_eq!(&bytes[88..92], &[0, 0, 0, 0]);
}

#[test]
fn snd_layout_of_xda() {
    let bytes = encode_header(&sample_snd(SndRevision::XDA));
    assert_eq!(&bytes[0..18], b"Movie             ");
    assert_eq!(&bytes[18..31], b" 35MM        ");
    assert_eq!(&bytes[31..47], b" STEREO MIX     ");
    assert_eq!(&bytes[47..51], b" 10D");
    assert_eq!(&bytes[51..55], b" 15 ");
    assert_eq!(&bytes[55..61], b" A   *");
    assert_eq!(&bytes[61..64], b"ENG");
    assert_eq!(&bytes[65..67], &[0, 0]);
}

#[test]
fn snd_revision_depends_on_marker_bytes_only() {
    let mut b = vec![0u8; 95];
    assert_eq!(classify_revision(&b), SndRevision::H1);
    b[60] = b'*';
    assert_eq!(classify_revision(&b), SndRevision::XD);
    for i in [18, 31, 47, 51, 55, 59] {
        b[i] = b' ';
    }
    b[50] = b'D';
    assert_eq!(classify_revision(&b), SndRevision::XDA);
    b[10] = 0x41;
    b[70] = 0x42;
    assert_eq!(classify_revision(&b), SndRevision::XDA);
    b[65] = 1;
    assert_eq!(classify_revision(&b), SndRevision::XD);
}

#[test]
fn snd_offsets_strip_bias_and_zero_is_none() {
    assert_eq!(decode_offset(&[0, 0, 0, 0], 0), Ok(None));
    assert_eq!(
        decode_offset(&[0x00, 0x26, 0xA8, 0x01], 0),
        Ok(Some(Offset { frames: 0, seconds: 26, minutes: 48, hours: 1 }))
    );
    assert!(matches!(decode_offset(&[0x0A, 0, 0, 0], 0), Err(Error::BcdOutOfRange(_))));
}

#[test]
fn snd_encryption_and_errors() {
    let mut b = with_tail(encode_header(&sample_snd(SndRevision::XD)));
    b[92] = 1;
    b[93] = 0xCD;
    b[94] = 0xAB;
    let d = decode_snd_header(&b).unwrap();
    assert!(d.encrypted);
    assert_eq!(d.key, Some(0xABCD));
    b[75] = 0x05;
    assert!(matches!(decode_snd_header(&b), Err(Error::UnknownOpticalBackupSoundtrackFormat(e)) if e.value == 5));
    assert_eq!(decode_snd_header(&b[..50]), Err(Error::UnexpectedEof));
    assert_eq!(get_optical_backup_format(0x81), Ok(BackupSoundtrackFormat::LastReelDolbySR));
    let mut short = MemFile::new(vec![0; 94]);
    assert!(matches!(decode_snd_header_from_file(&mut short, "x.snd"), Err(Error::SndUnexpectedSize(e)) if e.size == 94));
}

#[test]
fn generic_trailers_header_encodes() {
    let g = get_generic_trailers_header();
    assert_eq!(g.reel, 14);
    assert_eq!(g.tracks, 5);
    assert_eq!(g.language, "ENG");
    let bytes = encode_header(&g);
    assert_eq!(bytes.len(), 92);
    assert_eq!(&bytes[0..16], b"Trailers Reel 14");
    assert_eq!(bytes[60], b'*');
    assert_eq!(bytes[75], 0x01);
    assert_eq!(bytes[78], 14);
    assert_eq!(bytes[82], 5);
    assert_eq!(&bytes[80..82], &[0x15, 0x04]);
}

#[test]
fn hdr_keeps_leading_nuls() {
    let mut b = minimal_hdr();
    b[9..27].fill(0);
    b[10..15].copy_from_slice(b"hello");
    let m = decode_hdr(&b, "e.hdr").unwrap();
    assert_eq!(m.title, "\u{0}hello");
}
