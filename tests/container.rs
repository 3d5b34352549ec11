use append_box::codec::{decode_descriptor_bytes, encode_descriptor, FileSpec};
use append_box::container::build_trailer;
use append_box::describe::{describe_file, get_file_name};
use append_box::locator::{check_file, TrailerError, TAIL_WINDOW};
use append_box::transfer::{Decision, Transfer};

fn spec(path: &str, name: &str, size: u64) -> FileSpec {
    describe_file(path.to_string(), name.to_string(), size)
}

fn combine(carrier: &[u8], payload: &[u8], d: &FileSpec) -> Vec<u8> {
    let mut out = carrier.to_vec();
    out.extend_from_slice(payload);
    out.extend_from_slice(&build_trailer(d, payload.len() as u64));
    out
}

fn tail(file: &[u8]) -> &[u8] {
    let n = file.len().min(TAIL_WINDOW);
    &file[file.len() - n..]
}

fn locate(file: &[u8]) -> Result<Option<(FileSpec, u64, u64)>, TrailerError> {
    check_file(file.len() as u64, tail(file))
}

/// Copies `start..end` of `src` the way an extraction does, in chunks of `chunk` bytes.
fn extract(src: &[u8], start: u64, end: u64, chunk: usize) -> Vec<u8> {
    let mut t = Transfer::new_bounded(end - start);
    let mut out = Vec::new();
    let mut offset = start as usize;
    loop {
        let avail = src.len().saturating_sub(offset).min(chunk);
        let plan = t.on_chunk(avail, chunk, false);
        out.extend_from_slice(&src[offset..offset + plan.write_len]);
        offset += plan.write_len;
        if plan.decision != Decision::Continue {
            break;
        }
    }
    out
}

#[test]
fn round_trip_recovers_payload() {
    let carrier: Vec<u8> = (0..5000u32).map(|i| (i % 251) as u8).collect();
    let payload: Vec<u8> = (0..777u32).map(|i| (i * 7 % 256) as u8).collect();
    let d = spec("/data/notes.txt", "notes.txt", 777);
    let file = combine(&carrier, &payload, &d);
    let (f, start, end) = locate(&file).unwrap().unwrap();
    assert_eq!(f.name, "notes.txt");
    assert_eq!(f.extension, "TXT");
    assert_eq!(f.path, "/data/notes.txt");
    assert_eq!(f.sizemb, d.sizemb);
    assert_eq!(f.size, 777);
    assert_eq!(start, 5000);
    assert_eq!(end, 5777);
    assert_eq!(&file[start as usize..end as usize], &payload[..]);
    assert_eq!(extract(&file, start, end, 100), payload);
}

#[test]
fn recorded_size_is_bytes_written() {
    let payload = vec![9u8; 40];
    let d = spec("p.bin", "p.bin", 1000);
    let file = combine(b"carrier", &payload, &d);
    let (f, start, end) = locate(&file).unwrap().unwrap();
    assert_eq!(f.size, 40);
    assert_eq!((start, end), (7, 47));
}

#[test]
fn carrier_bytes_unchanged() {
    let carrier: Vec<u8> = (0..300u32).map(|i| (i % 256) as u8).collect();
    let file = combine(&carrier, b"hello", &spec("h.txt", "h.txt", 5));
    assert_eq!(&file[..carrier.len()], &carrier[..]);
}

#[test]
fn plain_file_has_no_payload() {
    let plain: Vec<u8> = (0..10000u32).map(|i| (i % 200) as u8).collect();
    assert!(matches!(locate(&plain), Ok(None)));
    assert!(matches!(locate(b""), Ok(None)));
    assert!(matches!(locate(b"RUSTAPPEND666S"), Ok(None)));
}

#[test]
fn rescan_gives_same_result() {
    let file = combine(b"abc", b"xyz", &spec("x.y", "x.y", 3));
    let (a, s1, e1) = locate(&file).unwrap().unwrap();
    let (b, s2, e2) = locate(&file).unwrap().unwrap();
    assert_eq!((a.path, a.name, a.size, a.sizemb, a.extension), (b.path, b.name, b.size, b.sizemb, b.extension));
    assert_eq!((s1, e1), (s2, e2));
}

#[test]
fn corrupt_descriptor_is_reported() {
    let carrier = b"carrier bytes";
    let payload = b"payload";
    let mut file = combine(carrier, payload, &spec("a.b", "a.b", 7));
    // first byte of the descriptor: the length prefix of the path
    let pos = carrier.len() + payload.len() + 14;
    file[pos] = 0xff;
    assert!(matches!(locate(&file), Err(TrailerError::Undecodable)));
}

#[test]
fn oversized_claim_is_reported() {
    let mut file = b"0123456789".to_vec();
    file.extend_from_slice(&build_trailer(&spec("a", "a", 0), 100));
    assert!(matches!(locate(&file), Err(TrailerError::SizeExceedsOffset)));
}

#[test]
fn empty_payload_gives_empty_range() {
    let file = combine(b"carrier", b"", &spec("e.dat", "e.dat", 0));
    let (f, start, end) = locate(&file).unwrap().unwrap();
    assert_eq!(f.size, 0);
    assert_eq!(start, end);
    assert_eq!(start, 7);
    assert!(extract(&file, start, end, 16).is_empty());
}

#[test]
fn cancel_is_honoured_at_next_checkpoint() {
    let mut t = Transfer::new(100);
    let mut reports = Vec::new();
    let mut last = Decision::Continue;
    for i in 0..25 {
        let plan = t.on_chunk(4, 4, i >= 3);
        if let Some(p) = plan.progress {
            reports.push(p);
        }
        last = plan.decision;
        if plan.decision != Decision::Continue {
            assert_eq!(i, 9);
            break;
        }
    }
    assert_eq!(last, Decision::Cancel);
    assert!(reports.is_empty());
}

#[test]
fn cancel_on_last_chunk_reports_nothing() {
    let mut t = Transfer::new_bounded(40);
    for _ in 0..9 {
        let plan = t.on_chunk(4, 4, false);
        assert_eq!(plan.decision, Decision::Continue);
        assert_eq!(plan.progress, None);
    }
    let plan = t.on_chunk(4, 4, true);
    assert_eq!(t.current, 40);
    assert_eq!(plan.decision, Decision::Cancel);
    assert_eq!(plan.progress, None);
}

#[test]
fn progress_is_reported_every_ten_chunks() {
    let mut t = Transfer::new(30);
    let mut reports = Vec::new();
    for _ in 0..29 {
        let plan = t.on_chunk(1, 1, false);
        assert_eq!(plan.decision, Decision::Continue);
        if let Some(p) = plan.progress {
            reports.push(p);
        }
    }
    assert_eq!(reports, vec![33, 66]);
    let plan = t.on_chunk(0, 1, false);
    assert_eq!(plan.decision, Decision::Finish);
    assert_eq!(t.percent(), 96);
}

#[test]
fn append_counts_payload_separately() {
    let mut t = Transfer::new(15);
    assert_eq!(t.on_chunk(8, 8, false).decision, Decision::Continue);
    assert_eq!(t.on_chunk(2, 8, false).decision, Decision::Finish);
    t.next_source();
    assert_eq!(t.on_chunk(5, 8, false).decision, Decision::Finish);
    assert_eq!(t.source_bytes(), 5);
    assert_eq!(t.current, 15);
    assert_eq!(t.percent(), 100);
}

#[test]
fn extraction_clips_last_chunk() {
    let src: Vec<u8> = (0..50u8).collect();
    assert_eq!(extract(&src, 10, 23, 4), (10..23u8).collect::<Vec<u8>>());
}

#[test]
fn ten_mb_carrier_two_mb_payload() {
    let mb = 1024 * 1024;
    let carrier = vec![1u8; 10 * mb];
    let payload = vec![2u8; 2 * mb];
    let d = spec("big.bin", "big.bin", (2 * mb) as u64);
    let desc_len = encode_descriptor(&d).len();
    let file = combine(&carrier, &payload, &d);
    assert_eq!(file.len(), 12 * mb + 14 + desc_len + 14);
    let (f, start, end) = locate(&file).unwrap().unwrap();
    assert_eq!(f.size, (2 * mb) as u64);
    assert_eq!(start, (10 * mb) as u64);
    assert_eq!(end, (12 * mb) as u64);
}

#[test]
fn descriptor_encoding_bytes() {
    let d = FileSpec {
        path: "a".to_string(),
        name: "b".to_string(),
        size: 300,
        sizemb: "c".to_string(),
        extension: String::new(),
    };
    let enc = encode_descriptor(&d);
    assert_eq!(enc, vec![1, b'a', 1, b'b', 251, 44, 1, 1, b'c', 0]);
    let back = decode_descriptor_bytes(&enc).unwrap();
    assert_eq!((back.path, back.name, back.size, back.sizemb, back.extension),
        ("a".to_string(), "b".to_string(), 300, "c".to_string(), String::new()));
}

#[test]
fn descriptor_decoding_rejects_bad_input() {
    let good = vec![1, b'a', 1, b'b', 5, 1, b'c', 0];
    assert!(decode_descriptor_bytes(&good).is_some());
    let mut trailing = good.clone();
    trailing.push(0);
    assert!(decode_descriptor_bytes(&trailing).is_none());
    assert!(decode_descriptor_bytes(&good[..good.len() - 1]).is_none());
    assert!(decode_descriptor_bytes(&[1, 0xff, 1, b'b', 5, 1, b'c', 0]).is_none());
    assert!(decode_descriptor_bytes(&[1, b'a', 1, b'b', 254, 1, b'c', 0]).is_none());
    // a wide form of a small number is still read
    let wide = decode_descriptor_bytes(&[1, b'a', 1, b'b', 251, 5, 0, 1, b'c', 0]).unwrap();
    assert_eq!(wide.size, 5);
}

#[test]
fn descriptor_holds_end_marker_text() {
    let file = combine(b"carrier", b"data", &spec("x", "xRUSTAPPEND666Ey", 4));
    assert!(locate(&file).is_err());
}

#[test]
fn describe_extension_and_size() {
    let f = spec("/tmp/photo.png", "photo.png", 500);
    assert_eq!(f.extension, "PNG");
    assert_eq!(f.sizemb, "500 B");
    assert_eq!(f.path, "/tmp/photo.png");
    assert_eq!(f.name, "photo.png");
    assert_eq!(spec("x", "archive.tar.gz", 0).extension, "GZ");
    assert_eq!(spec("x", "README", 0).extension, "");
    assert_eq!(spec("x", "trailing.", 0).extension, "");
    assert_eq!(spec("x", "x", 10 * 1024 * 1024).sizemb, "10.49 MB");
}

#[test]
fn file_name_of_path() {
    assert_eq!(
        get_file_name(Some("/tmp/dir/file.txt".to_string())),
        Some(("file.txt".to_string(), "/tmp/dir/file.txt".to_string()))
    );
    assert_eq!(get_file_name(None), None);
    assert_eq!(
        get_file_name(Some("notes.txt".to_string())),
        Some(("notes.txt".to_string(), "notes.txt".to_string()))
    );
    assert_eq!(get_file_name(Some("/".to_string())), None);
}
