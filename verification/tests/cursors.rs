use tx_query::cursor::{from_hex, to_hex, CursorKey, SortedTxCursor, TransactionId, TxPointer};
use tx_query::walker::{flatten_blocks, sorted_tx_walk, walk_from, Block, Direction};

fn id(n: u8) -> TransactionId {
    TransactionId([n; 32])
}

fn cursor(height: u32, n: u8) -> SortedTxCursor {
    SortedTxCursor { block_height: height, tx_id: id(n) }
}

fn chain() -> Vec<Block> {
    vec![
        Block { height: 10, tx_ids: vec![id(1), id(2)] },
        Block { height: 11, tx_ids: vec![id(3), id(4)] },
        Block { height: 12, tx_ids: vec![id(5), id(6)] },
    ]
}

fn chain_reversed() -> Vec<Block> {
    let mut blocks = chain();
    blocks.reverse();
    blocks
}

#[test]
fn transaction_ids_compare_by_bytes() {
    let mut bytes = [9u8; 32];
    assert!(TransactionId(bytes).same(&id(9)));
    bytes[31] = 8;
    assert!(!TransactionId(bytes).same(&id(9)));
    bytes[31] = 9;
    bytes[0] = 0;
    assert!(!TransactionId(bytes).same(&id(9)));
}

#[test]
fn sorted_cursor_round_trip() {
    let c = cursor(0x0102_0304, 7);
    let bytes = c.encode();
    assert_eq!(SortedTxCursor::decode(&bytes), Some(c));
    let other = cursor(u32::MAX, 255);
    assert_eq!(SortedTxCursor::decode(&other.encode()), Some(other));
    assert_ne!(other.encode(), c.encode());
}

#[test]
fn sorted_cursor_rejects_malformed() {
    assert_eq!(SortedTxCursor::decode(&Vec::new()), None);
    let mut bytes = cursor(1, 1).encode();
    bytes.pop();
    assert_eq!(SortedTxCursor::decode(&bytes), None);
    bytes.push(b'0');
    bytes.push(b'0');
    assert_eq!(SortedTxCursor::decode(&bytes), None);
}

#[test]
fn tx_pointer_round_trip() {
    let p = TxPointer { block_height: 70_000, tx_index: 513 };
    assert_eq!(TxPointer::decode(&p.encode()), Some(p));
    let q = TxPointer { block_height: u32::MAX, tx_index: u16::MAX };
    assert_eq!(TxPointer::decode(&q.encode()), Some(q));
    assert_eq!(TxPointer::decode(&cursor(1, 1).encode()), None);
}

#[test]
fn cursors_compare_by_both_parts() {
    assert!(cursor(3, 1).same(&cursor(3, 1)));
    assert!(!cursor(3, 1).same(&cursor(4, 1)));
    assert!(!cursor(3, 1).same(&cursor(3, 2)));
    let p = TxPointer { block_height: 1, tx_index: 2 };
    assert!(p.same(&TxPointer { block_height: 1, tx_index: 2 }));
    assert!(!p.same(&TxPointer { block_height: 1, tx_index: 3 }));
    assert!(!p.same(&TxPointer { block_height: 2, tx_index: 2 }));
}

#[test]
fn forward_scan_keeps_block_order() {
    let got = flatten_blocks(&chain(), Direction::Forward);
    assert_eq!(
        got,
        vec![cursor(10, 1), cursor(10, 2), cursor(11, 3), cursor(11, 4), cursor(12, 5), cursor(12, 6)]
    );
}

#[test]
fn reverse_scan_reverses_inside_blocks() {
    let got = flatten_blocks(&chain_reversed(), Direction::Reverse);
    assert_eq!(
        got,
        vec![cursor(12, 6), cursor(12, 5), cursor(11, 4), cursor(11, 3), cursor(10, 2), cursor(10, 1)]
    );
}

#[test]
fn walk_starts_at_the_starting_cursor() {
    let got = sorted_tx_walk(&chain(), Direction::Forward, &Some(cursor(10, 2)), 100);
    assert_eq!(got, vec![cursor(10, 2), cursor(11, 3), cursor(11, 4), cursor(12, 5), cursor(12, 6)]);
    let got = sorted_tx_walk(&chain_reversed(), Direction::Reverse, &Some(cursor(11, 3)), 100);
    assert_eq!(got, vec![cursor(11, 3), cursor(10, 2), cursor(10, 1)]);
}

#[test]
fn walk_is_bounded_by_the_limit() {
    let got = sorted_tx_walk(&chain(), Direction::Forward, &None, 3);
    assert_eq!(got, vec![cursor(10, 1), cursor(10, 2), cursor(11, 3)]);
    let got = sorted_tx_walk(&chain(), Direction::Forward, &Some(cursor(12, 5)), 1);
    assert_eq!(got, vec![cursor(12, 5)]);
    assert_eq!(sorted_tx_walk(&chain(), Direction::Forward, &None, 0), vec![]);
}

#[test]
fn walk_from_unknown_start_is_empty() {
    let got = sorted_tx_walk(&chain(), Direction::Forward, &Some(cursor(10, 9)), 100);
    assert_eq!(got, vec![]);
    assert_eq!(sorted_tx_walk(&Vec::new(), Direction::Forward, &None, 5), vec![]);
}

#[test]
fn walk_from_starts_at_first_occurrence() {
    let walk = vec![cursor(1, 1), cursor(2, 2), cursor(1, 1), cursor(3, 3)];
    let got = walk_from(&walk, &Some(cursor(1, 1)), 10);
    assert_eq!(got, walk);
    let got = walk_from(&walk, &Some(cursor(2, 2)), 2);
    assert_eq!(got, vec![cursor(2, 2), cursor(1, 1)]);
}

#[test]
fn cursor_text_is_lower_case_hex() {
    let text = cursor(0x0102_0304, 0xab).encode();
    let mut expected = String::from("01020304");
    for _ in 0..32 {
        expected.push_str("ab");
    }
    assert_eq!(text, expected.into_bytes());
    let text = TxPointer { block_height: 258, tx_index: 0xfffe }.encode();
    assert_eq!(text, String::from("00000102fffe").into_bytes());
}

#[test]
fn cursor_text_must_be_well_formed() {
    assert_eq!(
        TxPointer::decode(&String::from("00000102fffe").into_bytes()),
        Some(TxPointer { block_height: 258, tx_index: 0xfffe })
    );
    assert_eq!(TxPointer::decode(&String::from("00000102FFFE").into_bytes()), None);
    assert_eq!(TxPointer::decode(&String::from("00000102fffg").into_bytes()), None);
    assert_eq!(TxPointer::decode(&String::from("00000102fff").into_bytes()), None);
    assert_eq!(TxPointer::decode(&String::from("00000102fffe00").into_bytes()), None);
    assert_eq!(TxPointer::decode(&String::from("0x000102fffe").into_bytes()), None);
}

#[test]
fn hex_round_trip() {
    let raw: Vec<u8> = vec![0, 1, 9, 10, 15, 16, 0x7f, 0x80, 0xa5, 0xff];
    let text = to_hex(&raw);
    assert_eq!(text, String::from("0001090a0f107f80a5ff").into_bytes());
    assert_eq!(from_hex(&text), Some(raw));
    assert_eq!(from_hex(&Vec::new()), Some(Vec::new()));
    assert_eq!(from_hex(&vec![b'a']), None);
    assert_eq!(from_hex(&vec![b'/', b'0']), None);
    assert_eq!(from_hex(&vec![b'0', b':']), None);
    assert_eq!(from_hex(&vec![b'`', b'0']), None);
    assert_eq!(from_hex(&vec![b'0', b'g']), None);
}
