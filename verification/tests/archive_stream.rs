use std::io::{Cursor, Read};
use local_share::archive::{ArchiveWalk, ZipStream};

fn extract(bytes: Vec<u8>) -> Vec<(String, Vec<u8>)> {
    let mut archive = zip::ZipArchive::new(Cursor::new(bytes)).expect("valid zip");
    let mut out = Vec::new();
    for i in 0..archive.len() {
        let mut file = archive.by_index(i).expect("entry");
        let mut data = Vec::new();
        file.read_to_end(&mut data).expect("read entry");
        out.push((file.name().to_string(), data));
    }
    out
}

#[test]
fn archive_round_trip_two_files_with_subdirectory() {
    // a directory `docs` holding a.txt ("hello") and sub/b.txt ("hey")
    let mut walk = ArchiveWalk::new("docs".to_string());
    let mut stream: Vec<u8> = Vec::new();

    let dir = walk.next_dir().expect("root pending");
    assert_eq!(dir, "docs");
    let chunk = walk.add_file("a.txt", &b"hello".to_vec()).expect("fits");
    stream.extend_from_slice(&chunk);
    walk.push_dir("sub");

    let dir = walk.next_dir().expect("sub pending");
    assert_eq!(dir, "docs/sub");
    let chunk = walk.add_file("b.txt", &b"hey".to_vec()).expect("fits");
    stream.extend_from_slice(&chunk);

    assert!(walk.next_dir().is_none());
    let tail = walk.finish();
    stream.extend_from_slice(&tail);

    let entries = extract(stream);
    assert_eq!(entries.len(), 2);
    assert_eq!(entries[0].0, "docs/a.txt");
    assert_eq!(entries[0].1, b"hello".to_vec());
    assert_eq!(entries[1].0, "docs/sub/b.txt");
    assert_eq!(entries[1].1, b"hey".to_vec());
    // every entry extracts into a single top-level folder named like the root
    for (name, _) in &entries {
        assert!(name.starts_with("docs/"));
    }
}

#[test]
fn archive_of_no_files_is_a_valid_empty_zip() {
    let zip = ZipStream::new();
    let bytes = zip.finish();
    let entries = extract(bytes);
    assert!(entries.is_empty());
}

#[test]
fn archive_compresses_and_restores_large_repetitive_data() {
    let data: Vec<u8> = std::iter::repeat(b"local share ".iter().copied())
        .take(2000)
        .flatten()
        .collect();
    let mut zip = ZipStream::new();
    let mut stream: Vec<u8> = Vec::new();
    let chunk = zip.add_file(&b"big.bin".to_vec(), &data).expect("fits");
    // deflate actually compresses: the chunk is far smaller than the data
    assert!(chunk.len() < data.len() / 2);
    stream.extend_from_slice(&chunk);
    stream.extend_from_slice(&zip.finish());
    let entries = extract(stream);
    assert_eq!(entries.len(), 1);
    assert_eq!(entries[0].0, "big.bin");
    assert_eq!(entries[0].1, data);
}

#[test]
fn archive_chunks_are_emitted_per_file() {
    // each added file yields one self-contained chunk immediately: the
    // producer never has to buffer more than one file's bytes
    let mut zip = ZipStream::new();
    let c1 = zip.add_file(&b"one".to_vec(), &b"1".to_vec()).expect("fits");
    let c2 = zip.add_file(&b"two".to_vec(), &b"22".to_vec()).expect("fits");
    assert!(!c1.is_empty() && !c2.is_empty());
    let mut stream = c1;
    stream.extend_from_slice(&c2);
    stream.extend_from_slice(&zip.finish());
    let entries = extract(stream);
    assert_eq!(entries.len(), 2);
    assert_eq!(entries[0].0, "one");
    assert_eq!(entries[1].0, "two");
}

#[test]
fn walker_visits_pushed_directories_depth_first() {
    let mut walk = ArchiveWalk::new("root".to_string());
    let d = walk.next_dir().unwrap();
    assert_eq!(d, "root");
    walk.push_dir("first");
    walk.push_dir("second");
    // last pushed comes out first: depth-first with an explicit worklist
    assert_eq!(walk.next_dir().unwrap(), "root/second");
    assert_eq!(walk.next_dir().unwrap(), "root/first");
    assert!(walk.next_dir().is_none());
}

#[test]
fn walker_names_entries_under_the_current_directory() {
    // without a current directory no entry can be archived at all
    let mut walk = ArchiveWalk::new("top".to_string());
    assert!(walk.add_file("stray.txt", &b"x".to_vec()).is_none());

    let _ = walk.next_dir().unwrap();
    walk.push_dir("inner");
    let _ = walk.next_dir().unwrap();
    let mut stream = walk.add_file("deep.txt", &b"d".to_vec()).expect("fits");
    stream.extend_from_slice(&walk.finish());
    let entries = extract(stream);
    assert_eq!(entries.len(), 1);
    // the entry name is rooted at the top folder, not chosen by the caller
    assert_eq!(entries[0].0, "top/inner/deep.txt");
}

#[test]
fn archive_rejects_oversized_entry_name() {
    // a name longer than the 16-bit ZIP name-length field
    let mut zip = ZipStream::new();
    let long_name = vec![b'a'; 70_000];
    assert!(zip.add_file(&long_name, &b"x".to_vec()).is_none());
    // the stream is untouched and still usable
    let chunk = zip.add_file(&b"ok.txt".to_vec(), &b"fine".to_vec()).expect("fits");
    let mut stream = chunk;
    stream.extend_from_slice(&zip.finish());
    let entries = extract(stream);
    assert_eq!(entries.len(), 1);
    assert_eq!(entries[0].0, "ok.txt");
}
