//! The canonical serialization and the tagged wire frames.

use ishishnet::address::Address;
use ishishnet::blockchain::{IshIshError, IshIshTransaction};
use ishishnet::codec::{
    deserialize_chain, deserialize_transaction, explode, serialize_chain, serialize_transaction,
    IshIshBlockchainEvent,
};
use ishishnet::mining::proof_of_work;
use ishishnet::node::Node;

fn a1() -> Address {
    Address::from_bytes([0xa1; 20])
}

fn sample_chain() -> ishishnet::blockchain::IshIshBlockchain {
    let mut node = Node::new(1);
    node.open_signer(a1());
    let tx = IshIshTransaction {
        from: a1(),
        to: Address::from_bytes([0xa2; 20]),
        amount: 7,
    };
    node.on_new_transaction(tx);
    for _ in 0..2 {
        let candidate = node.start_command().unwrap();
        let mined = proof_of_work(candidate, 1).unwrap();
        node.process_block(mined).unwrap();
    }
    node.blockchain
}

#[test]
fn chain_round_trip() {
    let chain = sample_chain();
    let bytes = serialize_chain(&chain);
    let back = deserialize_chain(&bytes).expect("own serialization must decode");
    assert_eq!(serialize_chain(&back), bytes);
    assert_eq!(back.blocks.len(), chain.blocks.len());
    for (a, b) in back.blocks.iter().zip(chain.blocks.iter()) {
        assert_eq!(a.header.coinbase, b.header.coinbase);
        assert_eq!(a.header.number, b.header.number);
        assert_eq!(a.header.nonce, b.header.nonce);
        assert_eq!(a.header.difficulty, b.header.difficulty);
        assert_eq!(a.header.cur_hash, b.header.cur_hash);
        assert_eq!(a.header.prev_hash, b.header.prev_hash);
        assert_eq!(a.content, b.content);
    }
}

#[test]
fn transaction_round_trip() {
    let tx = IshIshTransaction {
        from: a1(),
        to: Address::from_bytes([0x02; 20]),
        amount: u64::MAX,
    };
    let bytes = serialize_transaction(&tx);
    assert_eq!(bytes.len(), 96);
    let back = deserialize_transaction(&bytes).expect("own serialization must decode");
    assert_eq!(back, tx);
}

#[test]
fn transaction_exact_encoding() {
    let tx = IshIshTransaction {
        from: Address::from_bytes([0x01; 20]),
        to: Address::from_bytes([0xff; 20]),
        amount: 255,
    };
    let bytes = serialize_transaction(&tx);
    let expected: String =
        format!("{}{}{}", "01".repeat(20), "ff".repeat(20), "00000000000000ff");
    assert_eq!(bytes, expected.as_bytes());
}

#[test]
fn transaction_decode_rejects_bad_input() {
    // Wrong length.
    let short = vec![0x30u8; 95];
    assert_eq!(
        deserialize_transaction(&short).unwrap_err(),
        IshIshError::ParseError
    );
    // Right length, invalid hex characters.
    let junk = vec![0x7au8; 96];
    assert_eq!(
        deserialize_transaction(&junk).unwrap_err(),
        IshIshError::ParseError
    );
}

#[test]
fn chain_decode_rejects_bad_input() {
    // Too short for the count.
    assert_eq!(
        deserialize_chain(&b"0000".to_vec()).unwrap_err(),
        IshIshError::ParseError
    );
    // A count promising more blocks than the bytes hold.
    assert_eq!(
        deserialize_chain(&b"0000000000000002".to_vec()).unwrap_err(),
        IshIshError::ParseError
    );
    // Trailing garbage after a complete chain.
    let chain = sample_chain();
    let mut bytes = serialize_chain(&chain);
    bytes.push(b'0');
    assert_eq!(deserialize_chain(&bytes).unwrap_err(), IshIshError::ParseError);
}

#[test]
fn frame_tags() {
    let chain = sample_chain();
    let frame = ishishnet::codec::nbm_frame(&chain);
    assert_eq!(&frame[..3], b"NBM");
    match IshIshBlockchainEvent::try_from(&frame).unwrap() {
        IshIshBlockchainEvent::NewBlockMined(payload) => {
            assert_eq!(payload, serialize_chain(&chain));
        },
        _ => panic!("expected a chain announcement"),
    }

    let tx = IshIshTransaction { from: a1(), to: a1(), amount: 1 };
    let frame = ishishnet::codec::tra_frame(&tx);
    match IshIshBlockchainEvent::try_from(&frame).unwrap() {
        IshIshBlockchainEvent::NewSignedTransaction(payload) => {
            assert_eq!(payload, serialize_transaction(&tx));
        },
        _ => panic!("expected a transaction announcement"),
    }
}

#[test]
fn frame_errors_and_unknown_tags() {
    // Shorter than the tag.
    assert_eq!(
        IshIshBlockchainEvent::try_from(&b"NB".to_vec()).unwrap_err(),
        IshIshError::ParseError
    );
    // Not UTF-8.
    let bad = vec![0xffu8, 0xfe, 0xfd, 0xfc];
    assert_eq!(
        IshIshBlockchainEvent::try_from(&bad).unwrap_err(),
        IshIshError::ParseError
    );
    // An unknown tag is handed back untouched.
    match IshIshBlockchainEvent::try_from(&b"XYZpayload".to_vec()).unwrap() {
        IshIshBlockchainEvent::SthElse((tag, payload)) => {
            assert_eq!(tag, b"XYZ".to_vec());
            assert_eq!(payload, b"payload".to_vec());
        },
        _ => panic!("expected an unknown-tag event"),
    }
}

#[test]
fn explode_splits_on_leading_blank() {
    assert!(explode("").is_none());
    let (head, tail) = explode(" rest of line").unwrap();
    assert_eq!(head, "");
    assert_eq!(tail, "rest of line");
    let (head, tail) = explode("command").unwrap();
    assert_eq!(head, "command");
    assert_eq!(tail, "");
}
