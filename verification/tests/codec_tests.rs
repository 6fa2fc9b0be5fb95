use oxide_sync::codec::{decode_message, encode_message, frame_length, frame_message};
use oxide_sync::index_table::{IndexTable, IndexTableChunk};
use oxide_sync::messages::{ClientServerOpts, DataMessage, FlistEntry, Message, SSHMessageError};

fn roundtrip(m: Message) {
    let body = encode_message(&m);
    let back = decode_message(&body).expect("decoding an encoding must succeed");
    assert_eq!(back, m);
}

#[test]
fn codec_roundtrip_unit_variants() {
    roundtrip(Message::SYNC);
    roundtrip(Message::ACK);
    roundtrip(Message::NACK);
    roundtrip(Message::Done);
    roundtrip(Message::FlistEnd);
    roundtrip(Message::IoTimeout);
}

#[test]
fn codec_roundtrip_numeric_variants() {
    roundtrip(Message::Redo(0));
    roundtrip(Message::FileIndex(7));
    roundtrip(Message::Deleted(u32::MAX));
    roundtrip(Message::Success(1));
    roundtrip(Message::Degenerate(2));
    roundtrip(Message::NoSend(3));
}

#[test]
fn codec_roundtrip_text_variants() {
    roundtrip(Message::Info(String::new()));
    roundtrip(Message::Info("hello".to_owned()));
    roundtrip(Message::Warning("weiß café 日本".to_owned()));
    roundtrip(Message::Error(SSHMessageError::IoError("broken pipe".to_owned())));
    roundtrip(Message::Error(SSHMessageError::TransferError(String::new())));
    roundtrip(Message::Error(SSHMessageError::FatalError("Unknown message received".to_owned())));
}

#[test]
fn codec_roundtrip_byte_variants() {
    roundtrip(Message::Restore(Vec::new()));
    roundtrip(Message::Restore(vec![0u8, 255, 1, 2, 3]));
    roundtrip(Message::Stats(vec![9u8; 100]));
}

#[test]
fn codec_roundtrip_arguments() {
    roundtrip(Message::Arguments(ClientServerOpts {
        to: "/srv/mirror".to_owned(),
        delete: true,
        recursive: true,
        dry_run: false,
        verbose: true,
        exclude: vec![".git".to_owned(), "target".to_owned(), "".to_owned()],
    }));
}

#[test]
fn codec_roundtrip_flist_entry() {
    roundtrip(Message::FlistEntry(FlistEntry {
        index: 3,
        filename: "dir/ünicode.txt".to_owned(),
        size: 123456789,
        mtime: -62135596800,
        mode: 0o100644,
        uid: Some(1000),
        gid: None,
        is_dir: false,
        is_symlink: true,
    }));
}

#[test]
fn codec_roundtrip_data_with_table() {
    let mut table = IndexTable::new();
    table.entries.push((
        42,
        IndexTableChunk { strong_signature: "ab".repeat(32), index: 0 },
    ));
    table.entries.push((
        -7,
        IndexTableChunk { strong_signature: "cd".repeat(32), index: 9 },
    ));
    roundtrip(Message::Data(DataMessage { file_index: 5, map: table }));
}

#[test]
fn decode_rejects_garbage() {
    assert!(decode_message(&[]).is_none());
    assert!(decode_message(&[200u8]).is_none()); // unknown tag
    assert!(decode_message(&[5u8, 1, 2]).is_none()); // truncated payload
    assert!(decode_message(&[0u8, 0]).is_none()); // trailing byte after SYNC
    // a bool byte other than 0 or 1 inside an Arguments payload
    let mut body = encode_message(&Message::Arguments(ClientServerOpts {
        to: String::new(),
        delete: false,
        recursive: false,
        dry_run: false,
        verbose: false,
        exclude: Vec::new(),
    }));
    body[9] = 2; // the `delete` flag sits after the tag and the empty string
    assert!(decode_message(&body).is_none());
}

#[test]
fn frame_prefixes_big_endian_length() {
    let m = Message::Info("hi".to_owned());
    let body = encode_message(&m);
    let framed = frame_message(&m).expect("framing a small message succeeds");
    assert_eq!(framed.len(), body.len() + 4);
    let n = body.len() as u32;
    assert_eq!(&framed[0..4], n.to_be_bytes().as_slice());
    assert_eq!(&framed[4..], body.as_slice());
    assert_eq!(frame_length(&framed[0..4]), Some(n));
}

#[test]
fn encoding_is_tagged_and_deterministic() {
    assert_eq!(encode_message(&Message::SYNC), vec![0u8]);
    assert_eq!(encode_message(&Message::ACK), vec![1u8]);
    assert_eq!(encode_message(&Message::Done), vec![6u8]);
    assert_eq!(encode_message(&Message::FileIndex(1)), vec![12u8, 0, 0, 0, 1]);
    assert_eq!(
        encode_message(&Message::Info("A".to_owned())),
        vec![8u8, 0, 0, 0, 0, 0, 0, 0, 1, b'A'],
    );
}
