use patrol::keys::{packages_key, processes_key, snapshot_key};

#[test]
fn key_is_hex_sha512_of_path() {
    assert_eq!(
        snapshot_key("abc"),
        "ddaf35a193617abacc417349ae20413112e6fa4e89a97ea20a9eeee64b55d39a2192992a274fc1a836ba3c23a3feebbd454d4423643ce80e2a9ac94fa54ca49f"
    );
}

#[test]
fn distinct_paths_have_distinct_keys() {
    let a = snapshot_key("/etc/passwd");
    let b = snapshot_key("/etc/group");
    assert_ne!(a, b);
    assert_eq!(a.len(), 128);
    assert!(a.chars().all(|c| c.is_ascii_digit() || ('a'..='f').contains(&c)));
}

#[test]
fn fixed_keys() {
    assert_eq!(processes_key(), "processes");
    assert_eq!(packages_key(), "packages");
}
