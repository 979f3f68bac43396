use fddup::algo::{find_work, GetKey};
use fddup::fingerprint::RollingDigest;
use fddup::possdupe::{Key, PossDupe};
use fddup::fingerprint::HASH_INPUT_MAX;

fn hex_of(bytes: &[u8]) -> String {
    let mut out = String::new();
    for b in bytes {
        out.push_str(&format!("{:02x}", b));
    }
    out
}

const SHA256_EMPTY: &str = "e3b0c44298fc1c149afbf4c8996fb92427ae41e4649b934ca495991b7852b855";
const SHA256_ABC: &str = "ba7816bf8f01cfea414140de5dae2223b00361a396177a9cb410ff61f20015ad";

#[test]
fn new_key_is_length_and_zero_digest() {
    let key = Key::new(42);
    assert_eq!(key.len, 42);
    assert_eq!(key.digest_snapshot, [0u8; 32]);
}

#[test]
fn keys_are_equal_by_length_and_digest() {
    let a = Key::new(5);
    let b = Key::new(5);
    let c = Key::new(6);
    let mut d = Key::new(5);
    d.digest_snapshot[31] = 1;
    let mut e = Key::new(5);
    e.digest_snapshot[0] = 1;

    assert!(a == b);
    assert!(a != c);
    assert!(a != d);
    assert!(a != e);
    assert!(a.clone() == a);
    assert_eq!(d.clone().digest_snapshot, d.digest_snapshot);
}

#[test]
fn new_candidate_is_unread() {
    let pd = PossDupe::new("some/file", 300);
    assert_eq!(pd.path, "some/file");
    assert_eq!(pd.file_len, 300);
    assert_eq!(pd.key.len, 300);
    assert_eq!(pd.key.digest_snapshot, [0u8; 32]);
    assert_eq!(pd.bytes_read, 0);
    assert_eq!(pd.bytes_remaining(), 300);
    assert_eq!(pd.digest.fed_len(), 0);
    assert!(GetKey::key(&pd) == Key::new(300));
    assert_eq!(GetKey::bytes_remaining(&pd), 300);
}

#[test]
fn bytes_remaining_never_goes_below_zero() {
    let mut pd = PossDupe::new("f", 10);
    pd.bytes_read = 4;
    assert_eq!(pd.bytes_remaining(), 6);
    pd.bytes_read = 10;
    assert_eq!(pd.bytes_remaining(), 0);
    pd.bytes_read = 11;
    assert_eq!(pd.bytes_remaining(), 0);
}

#[test]
fn update_digest_snapshots_all_bytes_fed_so_far() {
    let mut pd = PossDupe::new("f", 3);
    pd.update_digest(b"a");
    assert_eq!(
        hex_of(&pd.key.digest_snapshot),
        "ca978112ca1bbdcafac231b39a23dc4da786eff8147c4e72b9807785afee48bb"
    );
    pd.update_digest(b"bc");
    assert_eq!(hex_of(&pd.key.digest_snapshot), SHA256_ABC);
    // The read position is the caller's to move.
    assert_eq!(pd.bytes_read, 0);
    assert_eq!(pd.key.len, 3);
    assert_eq!(pd.digest.fed_len(), 3);
}

#[test]
fn update_digest_with_nothing_gives_the_digest_of_nothing() {
    let mut pd = PossDupe::new("f", 3);
    pd.update_digest(b"");
    assert_eq!(hex_of(&pd.key.digest_snapshot), SHA256_EMPTY);
}

#[test]
fn rolling_digest_goes_on_after_a_snapshot() {
    let mut digest = RollingDigest::new();
    assert_eq!(hex_of(&digest.snapshot()), SHA256_EMPTY);
    assert!(digest.has_room(10));
    digest.update(b"ab");
    let _ = digest.snapshot();
    digest.update(b"c");
    assert_eq!(hex_of(&digest.snapshot()), SHA256_ABC);
    assert_eq!(hex_of(&digest.snapshot()), SHA256_ABC);
    assert_eq!(digest.fed_len(), 3);
    assert!(digest.has_room((HASH_INPUT_MAX - 3) as usize));
    assert!(!digest.has_room((HASH_INPUT_MAX - 2) as usize));
}

#[test]
fn read_len_is_the_chunk_size_or_what_is_left() {
    let mut pd = PossDupe::new("f", 10);
    assert_eq!(pd.read_len(4), 4);
    assert_eq!(pd.read_len(10), 10);
    assert_eq!(pd.read_len(11), 10);
    assert_eq!(pd.read_len(0), 0);
    pd.advance(b"12345678");
    assert_eq!(pd.read_len(4), 2);
    pd.advance(b"90");
    assert_eq!(pd.read_len(4), 0);
}

#[test]
fn advance_moves_the_read_position_and_the_digest() {
    let mut pd = PossDupe::new("f", 3);
    pd.advance(b"ab");
    assert_eq!(pd.bytes_read, 2);
    assert_eq!(pd.bytes_remaining(), 1);
    pd.advance(b"c");
    assert_eq!(pd.bytes_read, 3);
    assert_eq!(pd.bytes_remaining(), 0);
    assert_eq!(hex_of(&pd.key.digest_snapshot), SHA256_ABC);
    assert_eq!(pd.path, "f");
    assert_eq!(pd.file_len, 3);
}

#[test]
fn try_advance_refuses_a_chunk_beyond_the_end() {
    let mut pd = PossDupe::new("f", 3);
    assert!(pd.try_advance(b"ab"));
    assert_eq!(pd.bytes_read, 2);
    let digest = pd.key.digest_snapshot;

    assert!(!pd.try_advance(b"cd"));
    assert_eq!(pd.bytes_read, 2);
    assert_eq!(pd.key.digest_snapshot, digest);
    assert_eq!(pd.digest.fed_len(), 2);

    assert!(pd.try_advance(b"c"));
    assert_eq!(pd.bytes_read, 3);
    assert_eq!(hex_of(&pd.key.digest_snapshot), SHA256_ABC);
    assert!(pd.try_advance(b""));
    assert!(!pd.try_advance(b"d"));
}

#[test]
fn two_empty_files_are_duplicates_without_a_read() {
    let mut pool = vec![PossDupe::new("a", 0), PossDupe::new("b", 0)];
    let w = find_work(&mut pool, 1);

    assert!(pool.is_empty());
    assert!(w.work.is_empty());
    assert!(w.uniques.is_empty());
    assert_eq!(w.duplicates.len(), 2);
    assert_eq!(w.duplicates[0].path, "b");
    assert_eq!(w.duplicates[1].path, "a");
    assert_eq!(w.duplicates[0].bytes_read, 0);
    assert_eq!(w.duplicates[1].bytes_read, 0);
    assert_eq!(w.duplicates[0].digest.fed_len(), 0);
}

#[test]
fn files_of_equal_size_are_work_until_read() {
    let mut pool = vec![PossDupe::new("a", 0), PossDupe::new("b", 7), PossDupe::new("c", 7)];
    let w = find_work(&mut pool, 4);

    assert!(pool.is_empty());
    assert_eq!(w.work.len(), 2);
    assert_eq!(w.work[0].path, "c");
    assert_eq!(w.work[1].path, "b");
    assert!(w.duplicates.is_empty());
    assert_eq!(w.uniques.len(), 1);
    assert_eq!(w.uniques[0].path, "a");
}
