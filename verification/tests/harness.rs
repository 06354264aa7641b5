use std::io::Write;

use flate2::write::GzEncoder;
use flate2::Compression;
use hive::harness::{check_harness, tar_entry_names, HarnessError};

fn tar_with(entries: &[(&str, &[u8])]) -> Vec<u8> {
    let mut b = tar::Builder::new(Vec::new());
    for (name, data) in entries {
        let mut h = tar::Header::new_gnu();
        h.set_size(data.len() as u64);
        h.set_mode(0o755);
        h.set_cksum();
        b.append_data(&mut h, name, *data).unwrap();
    }
    b.into_inner().unwrap()
}

fn gzip(bytes: &[u8]) -> Vec<u8> {
    let mut e = GzEncoder::new(Vec::new(), Compression::default());
    e.write_all(bytes).unwrap();
    e.finish().unwrap()
}

#[test]
fn entry_names_are_listed_in_order() {
    let t = tar_with(&[("compile", &b"cc"[..]), ("run", &b"sh"[..]), ("fixture", &b"data"[..])]);
    let names = tar_entry_names(&t);
    assert_eq!(names.len(), 3);
    assert_eq!(names[0], b"compile".to_vec());
    assert_eq!(names[1], b"run".to_vec());
    assert_eq!(names[2], b"fixture".to_vec());
}

#[test]
fn handwritten_header_parses() {
    // One entry, "compile", 7 bytes of data, then the two terminating zero
    // blocks, laid out by hand.
    let mut t = vec![0u8; 512 * 3 + 512];
    t[..7].copy_from_slice(b"compile");
    t[124..136].copy_from_slice(b"00000000007\0");
    t[512..519].copy_from_slice(b"scripts");
    let names = tar_entry_names(&t);
    assert_eq!(names.len(), 1);
    assert_eq!(names[0], b"compile".to_vec());
}

#[test]
fn whole_harness_is_accepted() {
    let t = tar_with(&[("compile", &b"exit 0"[..]), ("run", &b"echo"[..]), ("user", &b""[..])]);
    assert_eq!(check_harness(&gzip(&t)), Ok(()));
}

#[test]
fn harness_missing_a_script_is_rejected() {
    let t = tar_with(&[("compile", &b"exit 0"[..])]);
    assert_eq!(check_harness(&gzip(&t)), Err(HarnessError::MissingScripts));
    let t = tar_with(&[("run", &b"echo"[..])]);
    assert_eq!(check_harness(&gzip(&t)), Err(HarnessError::MissingScripts));
    let t = tar_with(&[("compile.sh", &b"exit 0"[..]), ("run", &b"echo"[..])]);
    assert_eq!(check_harness(&gzip(&t)), Err(HarnessError::MissingScripts));
}

#[test]
fn bytes_that_are_not_gzip_are_corrupt() {
    let t = tar_with(&[("compile", &b"exit 0"[..]), ("run", &b"echo"[..])]);
    // The raw tar stream, not compressed: a valid archive body, but not gzip.
    assert_eq!(check_harness(&t), Err(HarnessError::Corrupt));
    assert_eq!(check_harness(&vec![1, 2, 3, 4]), Err(HarnessError::Corrupt));
    assert_eq!(check_harness(&Vec::new()), Err(HarnessError::Corrupt));
}
