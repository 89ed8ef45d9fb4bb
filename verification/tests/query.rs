use papyrus_network::messages::Message;
use papyrus_network::{BlockID, BlockQuery, Direction};

#[test]
fn query_holds_its_fields_as_given() {
    let query = BlockQuery {
        start: BlockID::Number(100),
        direction: Direction::Forward,
        limit: 10,
        skip: 0,
        step: 1,
    };
    assert_eq!(query.start, BlockID::Number(100));
    assert_eq!(query.direction, Direction::Forward);
    assert_eq!(query.limit, 10);
    assert_eq!(query.skip, 0);
    assert_eq!(query.step, 1);
}

#[test]
fn query_with_step_zero_is_carried() {
    let query = BlockQuery {
        start: BlockID::Hash([0xab; 32]),
        direction: Direction::Backward,
        limit: u64::MAX,
        skip: u64::MAX,
        step: 0,
    };
    let decoded = BlockQuery::decode(&query.encode()).unwrap();
    assert_eq!(decoded, query);
    assert_eq!(decoded.step, 0);
    assert_eq!(decoded.limit, u64::MAX);
}

#[test]
fn queries_compare_by_every_field() {
    let base = BlockQuery {
        start: BlockID::Number(1),
        direction: Direction::Forward,
        limit: 2,
        skip: 3,
        step: 4,
    };
    assert_eq!(base, base.clone());
    assert_ne!(base, BlockQuery { start: BlockID::Number(2), ..base });
    assert_ne!(base, BlockQuery { start: BlockID::Hash([0; 32]), ..base });
    assert_ne!(base, BlockQuery { direction: Direction::Backward, ..base });
    assert_ne!(base, BlockQuery { limit: 0, ..base });
    assert_ne!(base, BlockQuery { skip: 0, ..base });
    assert_ne!(base, BlockQuery { step: 0, ..base });
}

#[test]
fn number_query_has_this_binary_form() {
    let query = BlockQuery {
        start: BlockID::Number(100),
        direction: Direction::Forward,
        limit: 10,
        skip: 0,
        step: 1,
    };
    let mut expected = vec![1u8, 100, 0, 0, 0, 0, 0, 0, 0, 0];
    expected.extend_from_slice(&10u64.to_le_bytes());
    expected.extend_from_slice(&0u64.to_le_bytes());
    expected.extend_from_slice(&1u64.to_le_bytes());
    assert_eq!(expected.len(), 34);
    assert_eq!(query.encode(), expected);
    assert_eq!(BlockQuery::decode(&expected), Some(query));
}

#[test]
fn hash_query_has_this_binary_form() {
    let mut hash = [0u8; 32];
    hash[0] = 0x06;
    hash[31] = 0x84;
    let query = BlockQuery {
        start: BlockID::Hash(hash),
        direction: Direction::Backward,
        limit: 0x0102030405060708,
        skip: 2,
        step: 3,
    };
    let mut expected = vec![0u8];
    expected.extend_from_slice(&hash);
    expected.push(1);
    expected.extend_from_slice(&[8, 7, 6, 5, 4, 3, 2, 1]);
    expected.extend_from_slice(&2u64.to_le_bytes());
    expected.extend_from_slice(&3u64.to_le_bytes());
    assert_eq!(expected.len(), 58);
    assert_eq!(query.encode(), expected);
    assert_eq!(BlockQuery::decode(&expected), Some(query));
}

#[test]
fn empty_query_is_the_empty_payload() {
    let empty = BlockQuery::default_instance();
    assert_eq!(
        empty,
        BlockQuery {
            start: BlockID::Number(0),
            direction: Direction::Forward,
            limit: 0,
            skip: 0,
            step: 0,
        }
    );
    assert_eq!(empty.encode(), Vec::<u8>::new());
    assert_eq!(BlockQuery::decode(&[]), Some(empty));
}

#[test]
fn empty_query_in_full_layout_is_rejected() {
    let mut bytes = vec![1u8];
    bytes.extend_from_slice(&[0u8; 33]);
    assert_eq!(bytes.len(), 34);
    assert_eq!(BlockQuery::decode(&bytes), None);
}

#[test]
fn zero_hash_query_is_not_the_empty_query() {
    let query = BlockQuery {
        start: BlockID::Hash([0; 32]),
        direction: Direction::Forward,
        limit: 0,
        skip: 0,
        step: 0,
    };
    let bytes = query.encode();
    assert_eq!(bytes, vec![0u8; 58]);
    assert_eq!(BlockQuery::decode(&bytes), Some(query));
}

#[test]
fn payload_of_wrong_length_is_rejected() {
    assert_eq!(BlockQuery::decode(&[1]), None);
    assert_eq!(BlockQuery::decode(&[0; 34]), None);
    assert_eq!(BlockQuery::decode(&[1; 58]), None);
    assert_eq!(BlockQuery::decode(&[0; 57]), None);
}
