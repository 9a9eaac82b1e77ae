use p2p_ft::hashing::calculate_hash;
use p2p_ft::peer::Client;
use std::collections::hash_map::DefaultHasher;
use std::hash::{Hash, Hasher};

fn std_hash<T: Hash>(t: &T) -> u64 {
    let mut s = DefaultHasher::new();
    t.hash(&mut s);
    s.finish()
}

#[test]
fn file_digest_matches_std_hash() {
    let data: Vec<u8> = b"hello world\n".to_vec();
    assert_eq!(calculate_hash(&data), std_hash(&data));
    let empty: Vec<u8> = Vec::new();
    assert_eq!(calculate_hash(&empty), std_hash(&empty));
}

#[test]
fn listing_digest_matches_std_hash() {
    let names: Vec<String> = vec!["a.txt".to_string(), "b.txt".to_string(), "é.bin".to_string()];
    assert_eq!(calculate_hash(&names), std_hash(&names));
    let none: Vec<String> = Vec::new();
    assert_eq!(calculate_hash(&none), std_hash(&none));
}

#[test]
fn unit_digest_matches_std_hash() {
    assert_eq!(calculate_hash(&()), std_hash(&()));
}

#[test]
fn different_contents_give_different_digests() {
    let a: Vec<u8> = vec![1, 2, 3];
    let b: Vec<u8> = vec![1, 2, 4];
    assert_ne!(calculate_hash(&a), calculate_hash(&b));
}

#[test]
fn peer_id_matches_std_hash_of_mac_and_dir() {
    let c = Client::new(
        "aa:bb:cc:dd:ee:ff".to_string(),
        "/home/user/sp1/peer2",
        Vec::new(),
        &Vec::new(),
        "10.0.0.5",
    );
    let expected = {
        let mut s = DefaultHasher::new();
        "aa:bb:cc:dd:ee:ff".hash(&mut s);
        "sp1/peer2".hash(&mut s);
        s.finish()
    };
    assert_eq!(c.id, expected);
    assert_eq!(calculate_hash(&c), expected);
}
