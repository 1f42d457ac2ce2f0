use dtstools::error::Error;
use dtstools::file::MemFile;
use dtstools::metadata::{TrailersMetadata, TrailersMetadataTxtEntry};
use dtstools::trailers::{decode_trailers_from_txt_file, decode_trailers_txt, encode_trailers_txt, entry_to_line, get_header, parse_number};

const SAMPLE: &str = ";comment\r\nMovieA\t42\t0\t100\t92\r\nMovieB\t43\t0\t200\t3767\r\n";

#[test]
fn manifest_parse_and_reencode() {
    let m = decode_trailers_txt(SAMPLE.as_bytes(), "r14trlr.txt").unwrap();
    assert_eq!(m.entries.len(), 2);
    assert_eq!(m.entries[0].title, "MovieA");
    assert_eq!(m.entries[0].id, 42);
    assert_eq!(m.entries[0].end, 100);
    assert_eq!(m.entries[0].offset, 92);
    assert_eq!(m.entries[1].title, "MovieB");
    assert_eq!(m.entries[1].offset, 3767);
    let out = String::from_utf8(encode_trailers_txt(&m)).unwrap();
    let header = String::from_utf8(get_header()).unwrap();
    assert_eq!(out, format!("{}MovieA\t42\t0\t100\t92\r\nMovieB\t43\t0\t200\t3767\r\n", header));
    assert!(header.starts_with(";NAME"));
}

#[test]
fn manifest_round_trip() {
    let m = TrailersMetadata {
        entries: vec![
            TrailersMetadataTxtEntry { title: "Épisode".to_string(), id: 1, start: 0, end: 9, offset: 92 },
            TrailersMetadataTxtEntry { title: "B".to_string(), id: 65535, start: 7, end: 0, offset: 18446 },
        ],
    };
    let back = decode_trailers_txt(&encode_trailers_txt(&m), "t").unwrap();
    assert_eq!(back, m);
    let mut f = MemFile::new(encode_trailers_txt(&m));
    assert_eq!(decode_trailers_from_txt_file(&mut f, "t").unwrap(), m);
}

#[test]
fn manifest_stray_and_bad_lines() {
    let m = decode_trailers_txt(b"stray\r\nA\t1\t0\t2\t92\n", "t").unwrap();
    assert_eq!(m.entries.len(), 1);
    match decode_trailers_txt(b";c\r\nnot a record\r\n", "t.txt") {
        Err(Error::ParseTrailerMetadataTxt(e)) => {
            assert_eq!(e.position, 3);
            assert_eq!(e.line, "not a record");
            assert_eq!(e.file, "t.txt");
        }
        other => panic!("unexpected {:?}", other),
    }
    match decode_trailers_txt(b";c\nA\tx\t0\t2\t92\r\n", "m.txt") {
        Err(Error::ParseTrailerMetadataTxt(e)) => {
            assert_eq!(e.line, "A\tx\t0\t2\t92");
            assert_eq!(e.position, 3);
            assert_eq!(e.file, "m.txt");
        }
        other => panic!("unexpected {:?}", other),
    }
    assert!(matches!(
        decode_trailers_txt(b"A\t70000\t0\t2\t92\r\n", "t"),
        Err(Error::ParseTrailerMetadataTxt(e)) if e.position == 2
    ));
}

#[test]
fn numbers_and_lines() {
    assert_eq!(parse_number(b"+12", 100), Some(12));
    assert_eq!(parse_number(b"101", 100), None);
    assert_eq!(parse_number(b"", 100), None);
    assert_eq!(parse_number(b"+", 100), None);
    let e = TrailersMetadataTxtEntry { title: "T".to_string(), id: 5, start: 0, end: 10, offset: 92 };
    assert_eq!(entry_to_line(&e), b"T\t5\t0\t10\t92\r\n".to_vec());
}
