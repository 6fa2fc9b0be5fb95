use oxide_sync::delta::{Delta, DeltaError, Ops};
use oxide_sync::index_table::build_index_table;

#[test]
fn dump_part() {
    let mut delta = Delta::new();
    delta.add_block(vec![b'a', b'b', b'c']);

    assert_eq!(delta.dump(), "abc".to_owned());
}

#[test]
fn dump_index() {
    let mut delta = Delta::new();
    delta.add_index(0);

    assert_eq!(delta.dump(), "<b*0*>".to_owned());
}

#[test]
fn dump_part_index() {
    let mut delta = Delta::new();
    delta.add_block(vec![b'a', b'b', b'c']);
    delta.add_index(0);

    assert_eq!(delta.dump(), "abc<b*0*>".to_owned());
}

#[test]
fn dump_large_index_and_unicode() {
    let mut delta = Delta::new();
    delta.add_block("héllo".as_bytes().to_vec());
    delta.add_index(12345);

    assert_eq!(delta.dump(), "héllo<b*12345*>".to_owned());
}

#[test]
fn test_apply_with_blocks_and_indices() {
    let base = b"abcdefghijklmnopqrstuvwxyz".to_vec();
    let block_size = 5;

    // Take block 1 ("fghij"), add literal "XYZ", take block 4 ("uvwxy")
    let mut delta = Delta::new();
    delta.add_index(1);
    delta.add_block(b"XYZ".to_vec());
    delta.add_index(4);

    let result = delta.apply(&base, block_size).unwrap();
    let expected = b"fghijXYZuvwxy".to_vec();

    assert_eq!(result, expected);
}

#[test]
fn test_invalid_index_returns_error() {
    let base = b"1234567890".to_vec();
    let mut delta = Delta::new();
    delta.add_index(99); // invalid block index

    let result = delta.apply(&base, 5);
    assert!(result.is_err());
    assert_eq!(result.unwrap_err(), DeltaError::InvalidBlockIndex);
}

#[test]
fn test_delta_patch_reconstructs_file() {
    // Simulated "old file"
    let old_data = b"Hello, world!\nThis is the old file.\n".to_vec();

    // Target "new file"
    let new_data = b"Hello, world!\nThis is the NEW file!!!\n".to_vec();

    // Build a delta manually:
    // - Reuse first block ("Hello, world!\nThis is the ")
    // - Replace "old file.\n" with "NEW file!!!\n"
    let mut delta = Delta::new();
    delta.add_block(b"Hello, world!\nThis is the ".to_vec());
    delta.add_block(b"NEW file!!!\n".to_vec());

    assert!(delta.is_valid());

    let reconstructed = delta.apply(&old_data, 0).expect("apply should succeed");

    assert_eq!(reconstructed, new_data);
}

#[test]
fn test_diff_and_apply_roundtrip() {
    let base = b"The quick brown fox jumps over the lazy dog";
    let new = b"The quick brown cat jumps over the lazy dog with style";

    let block_size = 8;

    let delta = Delta::diff(base, new, block_size);
    let reconstructed = delta.apply(base, block_size).expect("apply should succeed");

    assert_eq!(
        reconstructed, new,
        "Reconstructed file must match the new file"
    );
}

#[test]
fn test_diff_with_small_tail() {
    let base = b"abcdefg";
    let new = b"abcxyzg"; // change middle, tail smaller than block size
    let block_size = 4;

    let delta = Delta::diff(base, new, block_size);
    let reconstructed = delta.apply(base, block_size).expect("apply should succeed");

    assert_eq!(reconstructed, new, "Handles tail shorter than block size");
}

#[test]
fn test_diff_all_new_data() {
    let base = b"aaaaaa";
    let new = b"bbbbbb";
    let block_size = 3;

    let delta = Delta::diff(base, new, block_size);
    let reconstructed = delta.apply(base, block_size).expect("apply should succeed");

    assert_eq!(
        reconstructed, new,
        "No matches should still reconstruct correctly"
    );
    // Nothing of the base is reusable, so the delta is all literals.
    for op in delta.ops.iter() {
        assert!(matches!(op, Ops::Block(_)));
    }
}

#[test]
fn test_diff_base_smaller_than_block() {
    let base = b"hi";
    let new = b"hello";
    let block_size = 4;

    let delta = Delta::diff(base, new, block_size);
    let reconstructed = delta.apply(base, block_size).expect("apply should succeed");

    assert_eq!(
        reconstructed, new,
        "Should work when base is smaller than block size"
    );
}

#[test]
fn scenario_identical_alphabet() {
    let base = b"abcdefghijklmnopqrstuvwxyz";
    let delta = Delta::diff(base, base, 5);
    let out = delta.apply(base, 5).unwrap();
    assert_eq!(out, base);
    // Identity: copy ops over the aligned prefix, the one-byte tail "z"
    // as a single literal.
    assert_eq!(delta.ops.len(), 6);
    for k in 0..5 {
        assert!(matches!(delta.ops[k], Ops::Index(_)));
    }
    match &delta.ops[5] {
        Ops::Block(tail) => assert_eq!(tail, &b"z".to_vec()),
        Ops::Index(_) => panic!("tail must be a literal"),
    }
}

#[test]
fn scenario_sentence_edit() {
    let base = b"The quick brown fox jumps over the lazy dog";
    let new = b"The quick brown cat jumps over the lazy dog with style";
    let delta = Delta::diff(base, new, 8);
    assert_eq!(delta.apply(base, 8).unwrap(), new);
}

#[test]
fn scenario_short_base() {
    let base = b"hi";
    let new = b"hello";
    let delta = Delta::diff(base, new, 4);
    assert_eq!(delta.apply(base, 4).unwrap(), new);
}

#[test]
fn scenario_hand_built_out_of_range() {
    let base = b"1234567890";
    let mut delta = Delta::new();
    delta.add_index(99);
    assert_eq!(delta.apply(base, 5).unwrap_err(), DeltaError::InvalidBlockIndex);
}

#[test]
fn add_byte_coalesces_runs() {
    let mut delta = Delta::new();
    delta.add_byte(b'x');
    delta.add_byte(b'y');
    delta.add_byte(b'z');
    // consecutive literal bytes land in one Block op
    assert_eq!(delta.ops.len(), 1);
    match &delta.ops[0] {
        Ops::Block(bytes) => assert_eq!(bytes, &b"xyz".to_vec()),
        Ops::Index(_) => panic!("expected a literal block"),
    }
    // after a copy op, a fresh literal block begins
    delta.add_index(3);
    delta.add_byte(b'w');
    delta.add_byte(b'v');
    assert_eq!(delta.ops.len(), 3);
    match &delta.ops[2] {
        Ops::Block(bytes) => assert_eq!(bytes, &b"wv".to_vec()),
        Ops::Index(_) => panic!("expected a literal block"),
    }
}

#[test]
fn truncated_tail_block_is_copied_not_rejected() {
    // base has 2 full blocks of 4 and a tail of 2; Index(2) names the tail
    // block and yields only those 2 bytes.
    let base = b"abcdefghij";
    let mut delta = Delta::new();
    delta.add_index(2);
    assert_eq!(delta.apply(base, 4).unwrap(), b"ij".to_vec());
}

#[test]
fn empty_new_file_gives_empty_delta() {
    let base = b"some base";
    let delta = Delta::diff(base, b"", 4);
    assert!(!delta.is_valid());
    assert_eq!(delta.apply(base, 4).unwrap(), Vec::<u8>::new());
}

#[test]
fn diff_with_received_table_roundtrip() {
    // the receiver builds the table of its base and ships it; the sender
    // diffs its file against the received table alone
    let base = b"The quick brown fox jumps over the lazy dog";
    let new = b"A quick brown fox jumps over one lazy dog";
    let table = build_index_table(base, 6);
    let delta = Delta::diff_with_table(&table, new, 6);
    assert_eq!(delta.apply(base, 6).unwrap(), new);
}
