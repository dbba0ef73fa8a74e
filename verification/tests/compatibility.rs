use serde_bencode::value::Value;
use torrentox::bencode::reader::parse;
use torrentox::bencode::writer::serialize;

fn rewritten(bytes: &[u8]) -> Vec<u8> {
    let value: Value = serde_bencode::from_bytes(bytes).unwrap();
    serde_bencode::to_bytes(&value).unwrap()
}

#[test]
fn canonical_bytes_agree_with_serde_bencode() {
    let documents: [&[u8]; 6] = [
        b"i0e",
        b"i-17e",
        b"0:",
        b"l4:spami42ee",
        b"d8:announce3:url4:infod6:lengthi32768e4:name5:a.iso12:piece lengthi16384eee",
        b"d1:bli1eli2eed1:ci3eee1:a1:x2:aai9e0:dee",
    ];
    for doc in documents {
        assert_eq!(serialize(&parse(doc).unwrap()), rewritten(doc));
    }
}

#[test]
fn unsorted_dictionaries_are_sorted_as_serde_bencode_sorts_them() {
    let doc: &[u8] = b"d4:spam4:eggs3:cow3:moo2:zzi1e1:\xffi2e1:Ai3ee";
    assert_eq!(serialize(&parse(doc).unwrap()), rewritten(doc));
    assert_eq!(
        rewritten(doc),
        b"d1:Ai3e3:cow3:moo4:spam4:eggs2:zzi1e1:\xffi2ee".to_vec()
    );
}

#[test]
fn lenient_numbers_are_read_as_serde_bencode_reads_them() {
    let doc: &[u8] = b"li007ei-0ei+5e03:abce";
    assert_eq!(serialize(&parse(doc).unwrap()), rewritten(doc));
    assert_eq!(rewritten(doc), b"li7ei0ei5e3:abce".to_vec());
}
