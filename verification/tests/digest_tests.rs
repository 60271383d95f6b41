use store_things::digest::{
    check_source, digest_bytes, hash_contents, ContentHasher, DigestRun, DigestStep,
};
use store_things::error::{IoStage, StoreError};
use store_things::hex::to_hex_lower;

const EMPTY_DIGEST: &str = "cf83e1357eefb8bdf1542850d66d8007d620e4050b5715dc83f4a921d36ce9ce47d0d13c5d85f2b0ff8318d2877eec2f63b931bd47417a81a538327af927da3e";

const ABC_DIGEST: &str = "ddaf35a193617abacc417349ae20413112e6fa4e89a97ea20a9eeee64b55d39a2192992a274fc1a836ba3c23a3feebbd454d4423643ce80e2a9ac94fa54ca49f";

#[test]
fn hex_of_bytes_is_lowercase_pairs() {
    assert_eq!(to_hex_lower(&[]), "");
    assert_eq!(to_hex_lower(&[0x00]), "00");
    assert_eq!(to_hex_lower(&[0x0a, 0x14, 0x1e]), "0a141e");
    assert_eq!(to_hex_lower(&[0xff, 0x10, 0xab, 0x09]), "ff10ab09");
}

#[test]
fn digest_of_known_content() {
    assert_eq!(digest_bytes(b""), EMPTY_DIGEST);
    assert_eq!(digest_bytes(b"abc"), ABC_DIGEST);
}

#[test]
fn digest_is_deterministic() {
    let first = digest_bytes(b"the same bytes");
    let second = digest_bytes(b"the same bytes");
    assert_eq!(first, second);
    assert_eq!(first.len(), 128);
}

#[test]
fn digest_differs_with_content() {
    assert_ne!(digest_bytes(b"one"), digest_bytes(b"two"));
}

#[test]
fn hasher_fed_in_pieces_matches_whole() {
    let mut hasher = ContentHasher::new();
    hasher.feed(b"a");
    hasher.feed(b"");
    hasher.feed(b"bc");
    assert_eq!(hasher.finish(), ABC_DIGEST);
}

#[test]
fn missing_source_is_not_found() {
    assert_eq!(check_source(false, false), Err(StoreError::NotFound));
    assert_eq!(check_source(false, true), Err(StoreError::NotFound));
    assert!(matches!(DigestRun::open(false, false), Err(StoreError::NotFound)));
}

#[test]
fn directory_source_is_not_a_file() {
    assert_eq!(check_source(true, false), Err(StoreError::NotAFile));
    assert!(matches!(DigestRun::open(true, false), Err(StoreError::NotAFile)));
}

#[test]
fn regular_file_source_is_accepted() {
    assert_eq!(check_source(true, true), Ok(()));
    assert!(DigestRun::open(true, true).is_ok());
}

#[test]
fn run_over_chunks_ends_with_digest() {
    let run = match DigestRun::open(true, true) {
        Ok(run) => run,
        Err(_) => panic!("a regular file must be accepted"),
    };
    let run = match run.absorb(Some(b"ab")) {
        DigestStep::More(run) => run,
        _ => panic!("a non-empty chunk asks for more"),
    };
    let run = match run.absorb(Some(b"c")) {
        DigestStep::More(run) => run,
        _ => panic!("a non-empty chunk asks for more"),
    };
    match run.absorb(Some(b"")) {
        DigestStep::Done(digest) => assert_eq!(digest, ABC_DIGEST),
        _ => panic!("an empty read ends the content"),
    }
}

#[test]
fn run_on_empty_file_gives_empty_digest() {
    let run = match DigestRun::open(true, true) {
        Ok(run) => run,
        Err(_) => panic!("a regular file must be accepted"),
    };
    match run.absorb(Some(b"")) {
        DigestStep::Done(digest) => assert_eq!(digest, EMPTY_DIGEST),
        _ => panic!("an empty read ends the content"),
    }
}

#[test]
fn failed_read_is_an_io_error() {
    let run = match DigestRun::open(true, true) {
        Ok(run) => run,
        Err(_) => panic!("a regular file must be accepted"),
    };
    let run = match run.absorb(Some(b"partial")) {
        DigestStep::More(run) => run,
        _ => panic!("a non-empty chunk asks for more"),
    };
    match run.absorb(None) {
        DigestStep::Failed(error) => assert_eq!(error, StoreError::Io(IoStage::Read)),
        _ => panic!("a failed read fails the digest"),
    }
}

fn reads(chunks: &[&[u8]]) -> Vec<Option<Vec<u8>>> {
    let mut all: Vec<Option<Vec<u8>>> = chunks.iter().map(|c| Some(c.to_vec())).collect();
    all.push(Some(Vec::new()));
    all
}

#[test]
fn hash_contents_of_directory_is_not_a_file() {
    assert_eq!(hash_contents(true, false, &reads(&[])), Err(StoreError::NotAFile));
    assert_eq!(hash_contents(true, false, &reads(&[b"abc"])), Err(StoreError::NotAFile));
    assert_eq!(hash_contents(true, false, &Vec::new()), Err(StoreError::NotAFile));
}

#[test]
fn hash_contents_of_missing_path_is_not_found() {
    assert_eq!(hash_contents(false, false, &reads(&[])), Err(StoreError::NotFound));
    assert_eq!(hash_contents(false, true, &reads(&[b"abc"])), Err(StoreError::NotFound));
    assert_eq!(hash_contents(false, false, &vec![None]), Err(StoreError::NotFound));
}

#[test]
fn hash_contents_of_regular_file_is_its_digest() {
    assert_eq!(hash_contents(true, true, &reads(&[])), Ok(EMPTY_DIGEST.to_string()));
    assert_eq!(hash_contents(true, true, &reads(&[b"abc"])), Ok(ABC_DIGEST.to_string()));
    assert_eq!(hash_contents(true, true, &reads(&[b"a", b"b", b"c"])), Ok(ABC_DIGEST.to_string()));
    assert_eq!(hash_contents(true, true, &reads(&[b"ab", b"c"])), Ok(ABC_DIGEST.to_string()));
}

#[test]
fn hash_contents_stops_at_the_end_of_content() {
    let mut all = reads(&[b"abc"]);
    all.push(Some(b"later".to_vec()));
    all.push(None);
    assert_eq!(hash_contents(true, true, &all), Ok(ABC_DIGEST.to_string()));
}

#[test]
fn hash_contents_with_failed_read_is_io_error() {
    let failed_at_once: Vec<Option<Vec<u8>>> = vec![None];
    assert_eq!(hash_contents(true, true, &failed_at_once), Err(StoreError::Io(IoStage::Read)));
    let failed_later: Vec<Option<Vec<u8>>> =
        vec![Some(b"ab".to_vec()), None, Some(b"c".to_vec()), Some(Vec::new())];
    assert_eq!(hash_contents(true, true, &failed_later), Err(StoreError::Io(IoStage::Read)));
}

#[test]
fn hash_contents_without_end_is_io_error() {
    let unfinished: Vec<Option<Vec<u8>>> = vec![Some(b"abc".to_vec())];
    assert_eq!(hash_contents(true, true, &unfinished), Err(StoreError::Io(IoStage::Read)));
    assert_eq!(hash_contents(true, true, &Vec::new()), Err(StoreError::Io(IoStage::Read)));
}

#[test]
fn hash_contents_is_deterministic() {
    let all = reads(&[b"the same", b" bytes"]);
    assert_eq!(hash_contents(true, true, &all), hash_contents(true, true, &all));
    assert_eq!(hash_contents(true, true, &all), Ok(digest_bytes(b"the same bytes")));
}
