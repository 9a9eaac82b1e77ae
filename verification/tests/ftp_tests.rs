use p2p_ft::ftp::{expiry_of, FileRecord, FileSource, MyFTP};
use p2p_ft::hashing::calculate_hash;

fn rec(name: &str, ip: &str, ttr: u64, exp: u64, state: u64) -> FileRecord {
    FileRecord { filename: name.to_string(), ip: ip.to_string(), ttr, expire_time: exp, state }
}

fn server() -> MyFTP {
    let contents = vec![b"one".to_vec(), b"two".to_vec()];
    MyFTP::serving("10.0.0.2:7000", 30, vec!["a".to_string(), "b".to_string()], &contents)
}

#[test]
fn serving_records_owned_files() {
    let s = server();
    assert_eq!(s.ip, "http://10.0.0.2:7000");
    assert_eq!(s.filelist.len(), 2);
    assert_eq!(s.filelist[0].filename, "a");
    assert_eq!(s.filelist[0].ip, "");
    assert_eq!(s.filelist[0].ttr, 30);
    assert_eq!(s.filelist[0].expire_time, 0);
    assert_eq!(s.filelist[1].state, calculate_hash(&b"two".to_vec()));
    assert!(s.filelist_expired.is_empty());
}

#[test]
fn receive_owned_and_downloaded() {
    let mut s = server();
    let p = s.receive(&"a".to_string());
    assert_eq!(p.source, FileSource::Owned);
    assert_eq!(p.ip, "http://10.0.0.2:7000");
    assert_eq!(p.ttr, 30);
    s.update(rec("c", "http://10.0.0.3:7000", 10, 100, 4));
    let p = s.receive(&"c".to_string());
    assert_eq!(p.source, FileSource::Downloaded);
    assert_eq!(p.ip, "http://10.0.0.3:7000");
    assert_eq!((p.ttr, p.expire_time, p.state), (10, 100, 4));
}

#[test]
fn status_reports_last_record() {
    let mut s = server();
    s.update(rec("c", "x", 10, 100, 4));
    s.update(rec("c", "y", 20, 200, 5));
    assert!(s.has_file(&"c".to_string()));
    assert!(!s.has_file(&"d".to_string()));
    let r = s.file_status(&"c".to_string());
    assert_eq!((r.ttr, r.state), (20, 5));
}

#[test]
fn state_change_then_status() {
    let mut s = server();
    s.update(rec("c", "x", 10, 100, 4));
    s.state_change(&"c".to_string(), 99);
    let r = s.file_status(&"c".to_string());
    assert_eq!((r.ttr, r.state), (10, 99));
    assert_eq!(s.filelist.len(), 3);
    assert_eq!(s.filelist[2].filename, "c");
    assert_eq!(s.filelist[0].filename, "a");
}

#[test]
fn delete_moves_file_to_expired() {
    let mut s = server();
    s.update(rec("c", "x", 10, 100, 4));
    s.update(rec("c", "y", 10, 100, 4));
    s.delete(&"c".to_string());
    assert!(!s.has_file(&"c".to_string()));
    assert_eq!(s.filelist.len(), 2);
    assert_eq!(s.filelist_expired.len(), 1);
    assert_eq!(s.filelist_expired[0].filename, "c");
    assert_eq!(s.filelist_expired[0].ip, "y");
}

#[test]
fn expired_files_are_those_past_their_time() {
    let mut s = server();
    s.update(rec("c", "x", 10, 100, 4));
    s.update(rec("d", "x", 10, 300, 4));
    let e = s.expired_files(200);
    assert_eq!(e.len(), 1);
    assert_eq!(e[0].filename, "c");
    assert!(s.expired_files(100).is_empty());
}

#[test]
fn check_status_keeps_fresh_copy() {
    let mut s = server();
    let f = rec("c", "x", 10, 100, 4);
    s.update(f.clone());
    let invalidated = s.check_status(&f, 15, 4, 1000);
    assert!(!invalidated);
    let r = s.receive(&"c".to_string());
    assert_eq!((r.ttr, r.expire_time, r.state), (15, 1015, 4));
    assert!(s.filelist_expired.is_empty());
}

#[test]
fn check_status_invalidates_changed_copy() {
    let mut s = server();
    let f = rec("c", "x", 10, 100, 4);
    s.update(f.clone());
    let invalidated = s.check_status(&f, 15, 5, 1000);
    assert!(invalidated);
    assert!(!s.has_file(&"c".to_string()));
    assert_eq!(s.filelist_expired[0].ip, "x");
}

#[test]
fn refreshed_copy_gets_expiry() {
    let mut s = server();
    s.refreshed("c".to_string(), "x".to_string(), 10, 0, 3, 500);
    assert_eq!(s.filelist[2].expire_time, 510);
    s.refreshed("d".to_string(), "x".to_string(), 10, 777, 3, 500);
    assert_eq!(s.filelist[3].expire_time, 777);
    s.delete(&"c".to_string());
    s.clear_expired();
    assert!(s.filelist_expired.is_empty());
}

#[test]
fn expiry_rule() {
    assert_eq!(expiry_of(0, 30, 1000), 1030);
    assert_eq!(expiry_of(5, 30, 1000), 5);
}
