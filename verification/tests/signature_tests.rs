use oxide_sync::index_table::{build_index_table, IndexTable};
use oxide_sync::signatures::{compute_strong_signature, WeakSignature, MODULUS};

#[test]
fn calc_rolling_hash() {
    let test_str = "abcdefghijklmnopqrstuvwxyz";
    let bytes = test_str.as_bytes();
    let signer = WeakSignature::new(2, bytes.to_vec());
    let hash_1 = signer.sign(0);
    let hash_2 = signer.compute_next_signature(hash_1);
    let _ = hash_2.get_signature();
}

#[test]
fn find_item() {
    let mut sig = IndexTable::new();

    let test_str = "abcdefghijklmnopqrstuvwxyz";
    let bytes = test_str.as_bytes();
    let signer = WeakSignature::new(2, bytes.to_vec());
    let hash_1 = signer.sign(0);
    sig.add(hash_1.clone(), "pippo".to_owned(), 0);

    assert_eq!(
        sig.find(hash_1.get_signature()).unwrap().1,
        "pippo".to_owned()
    );
}

#[test]
fn rolling_matches_direct_signing() {
    // rolling one byte forward from the window at k gives exactly the
    // signature of the window at k + 1, across the whole buffer
    let bytes = b"The quick brown fox jumps over the lazy dog".to_vec();
    let signer = WeakSignature::new(7, bytes.clone());
    let mut rolled = signer.sign(0);
    for k in 1..(bytes.len() - 7) {
        rolled = signer.compute_next_signature(rolled);
        let direct = signer.sign(k);
        assert_eq!(rolled.offset, direct.offset);
        assert_eq!(rolled.r1, direct.r1);
        assert_eq!(rolled.r2, direct.r2);
        assert_eq!(rolled.signature, direct.signature);
    }
}

#[test]
fn rolling_at_buffer_end_returns_previous() {
    let bytes = b"abcd".to_vec();
    let signer = WeakSignature::new(4, bytes);
    let h = signer.sign(0);
    let rolled = signer.compute_next_signature(h);
    assert_eq!(rolled.offset, h.offset);
    assert_eq!(rolled.signature, h.signature);
}

#[test]
fn weak_signature_components() {
    // exact components for a tiny window: r1 = sum, r2 = weighted sum
    let bytes = vec![1u8, 2, 3];
    let signer = WeakSignature::new(2, bytes);
    let h = signer.sign(0);
    // r1 = 1 + 2 = 3; r2 = 2*1 + 1*2 = 4; signature = 3 + 65536*4
    assert_eq!(h.r1, 3);
    assert_eq!(h.r2, 4);
    assert_eq!(h.signature, 3 + MODULUS * 4);
}

#[test]
fn strong_signature_is_hex_of_fixed_width() {
    let d = compute_strong_signature(b"");
    assert_eq!(d.len(), 64);
    assert!(d.chars().all(|c| c.is_ascii_hexdigit() && !c.is_ascii_uppercase()));
    // deterministic, and sensitive to the input
    assert_eq!(d, compute_strong_signature(b""));
    assert_ne!(d, compute_strong_signature(b"a"));
    assert_ne!(compute_strong_signature(b"a"), compute_strong_signature(b"b"));
}

#[test]
fn table_has_one_entry_per_full_block() {
    let base = b"abcdefghijklmnopqrstuvwxyz"; // 5 full blocks of 5, tail discarded
    let table = build_index_table(base, 5);
    assert_eq!(table.entries.len(), 5);
    // every full block can be found under its own weak signature
    let signer = WeakSignature::new(5, base.to_vec());
    for k in 0..5 {
        let h = signer.sign(k * 5);
        let (idx, strong) = table.find(h.get_signature()).expect("block must be indexed");
        assert_eq!(idx, k);
        assert_eq!(strong, compute_strong_signature(&base[k * 5..k * 5 + 5]));
    }
}

#[test]
fn short_base_table_is_degenerate() {
    // a base shorter than one block gets a single entry at index 0 keyed
    // by the plain byte sum mod 2^16
    let base = b"hi";
    let table = build_index_table(base, 4);
    assert_eq!(table.entries.len(), 1);
    let weak_val = (b'h' as i64 + b'i' as i64) % MODULUS;
    let (idx, strong) = table.find(weak_val).expect("degenerate entry");
    assert_eq!(idx, 0);
    assert_eq!(strong, compute_strong_signature(base));
}

#[test]
fn last_writer_wins_in_table() {
    let mut table = IndexTable::new();
    let signer = WeakSignature::new(2, b"abcdef".to_vec());
    let h = signer.sign(0);
    table.add(h, "first".to_owned(), 1);
    table.add(h, "second".to_owned(), 2);
    let (idx, strong) = table.find(h.get_signature()).unwrap();
    assert_eq!(idx, 2);
    assert_eq!(strong, "second".to_owned());
}

#[test]
fn find_index_scans_by_strong_signature() {
    let mut table = IndexTable::new();
    let signer = WeakSignature::new(2, b"abcdef".to_vec());
    table.add(signer.sign(0), "aa".to_owned(), 0);
    table.add(signer.sign(2), "bb".to_owned(), 1);
    assert_eq!(table.find_index("bb".to_owned()), Some(1));
    assert_eq!(table.find_index("cc".to_owned()), None);
}

#[test]
fn decimal_rendering() {
    assert_eq!(oxide_sync::decimal::usize_to_decimal(0), "0".to_owned());
    assert_eq!(oxide_sync::decimal::usize_to_decimal(7), "7".to_owned());
    assert_eq!(oxide_sync::decimal::usize_to_decimal(12345), "12345".to_owned());
    assert_eq!(oxide_sync::decimal::usize_to_decimal(1000), "1000".to_owned());
}
