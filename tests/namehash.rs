use walletfetch::hexfmt::append_hex;
use walletfetch::namehash::{namehash, namehash_bytes};

fn hex(b: &Vec<u8>) -> String {
    let mut s = String::new();
    append_hex(&mut s, b);
    s
}

#[test]
fn namehash_of_empty_name_is_zero() {
    assert_eq!(namehash(""), vec![0u8; 32]);
    assert_eq!(namehash_bytes(b""), vec![0u8; 32]);
}

#[test]
fn namehash_is_deterministic() {
    for name in ["", "eth", "vitalik.eth", "a.b.c"] {
        assert_eq!(namehash(name), namehash(name));
    }
}

#[test]
fn namehash_depends_on_label_order() {
    assert_ne!(namehash("a.b"), namehash("b.a"));
    assert_ne!(namehash("foo.eth"), namehash("eth.foo"));
}

#[test]
fn namehash_of_known_names() {
    assert_eq!(
        hex(&namehash("eth")),
        "93cdeb708b7545dc668eb9280176169d1c33cfd8ed6f04690a0bcc88a93fc4ae"
    );
    assert_eq!(
        hex(&namehash("foo.eth")),
        "de9b09fd7c5f901e23a3f19fecc54828e9c848539801e86591bd9801b019f84f"
    );
}

#[test]
fn namehash_lowercases_the_name() {
    assert_eq!(namehash("FOO.Eth"), namehash("foo.eth"));
    assert_eq!(namehash_bytes(b"foo.eth"), namehash("foo.eth"));
}

#[test]
fn namehash_keeps_empty_labels() {
    assert_ne!(namehash("foo..eth"), namehash("foo.eth"));
    assert_eq!(namehash("x").len(), 32);
}

#[test]
fn namehash_composes_before_hashing() {
    // "e" followed by a combining acute accent composes to "é".
    assert_eq!(namehash("cafe\u{301}.eth"), namehash("caf\u{e9}.eth"));
    assert_ne!(namehash_bytes("cafe\u{301}.eth".as_bytes()), namehash("caf\u{e9}.eth"));
}
