use bitcoin::opcodes::all;
use bitcoin_circle_stark::bytes::{minimal_le_bytes, num_to_str};
use bitcoin_circle_stark::script;
use bitcoin_circle_stark::script::{assemble, Token};

#[test]
fn opcodes_have_their_numbers() {
    let pairs = [
        (script::OP_0, all::OP_PUSHBYTES_0),
        (script::OP_PUSHBYTES_36, all::OP_PUSHBYTES_36),
        (script::OP_TRUE, all::OP_PUSHNUM_1),
        (script::OP_VERIFY, all::OP_VERIFY),
        (script::OP_RETURN, all::OP_RETURN),
        (script::OP_TOALTSTACK, all::OP_TOALTSTACK),
        (script::OP_FROMALTSTACK, all::OP_FROMALTSTACK),
        (script::OP_2DUP, all::OP_2DUP),
        (script::OP_DEPTH, all::OP_DEPTH),
        (script::OP_DUP, all::OP_DUP),
        (script::OP_ROLL, all::OP_ROLL),
        (script::OP_ROT, all::OP_ROT),
        (script::OP_SWAP, all::OP_SWAP),
        (script::OP_CAT, all::OP_CAT),
        (script::OP_SIZE, all::OP_SIZE),
        (script::OP_AND, all::OP_AND),
        (script::OP_EQUALVERIFY, all::OP_EQUALVERIFY),
        (script::OP_1ADD, all::OP_1ADD),
        (script::OP_1SUB, all::OP_1SUB),
        (script::OP_ADD, all::OP_ADD),
        (script::OP_GREATERTHANOREQUAL, all::OP_GREATERTHANOREQUAL),
        (script::OP_SHA256, all::OP_SHA256),
    ];
    for (ours, theirs) in pairs {
        assert_eq!(ours, theirs.to_u8());
    }
}

#[test]
fn pushes_data_in_the_shortest_form() {
    let heads: Vec<(usize, Vec<u8>)> = vec![
        (0, vec![0x00]),
        (1, vec![0x01]),
        (75, vec![0x4b]),
        (76, vec![0x4c, 76]),
        (255, vec![0x4c, 255]),
        (256, vec![0x4d, 0x00, 0x01]),
        (65535, vec![0x4d, 0xff, 0xff]),
        (65536, vec![0x4e, 0x00, 0x00, 0x01, 0x00]),
    ];
    for (len, head) in heads {
        let data = vec![0xabu8; len];
        let mut expected = head;
        expected.extend_from_slice(&data);
        assert_eq!(assemble(&vec![Token::Push(data)]).bytes, expected);
    }
}

#[test]
fn pushes_numbers() {
    let cases: Vec<(i64, Vec<u8>)> = vec![
        (0, vec![0x00]),
        (1, vec![0x51]),
        (16, vec![0x60]),
        (17, vec![0x01, 17]),
        (32, vec![0x01, 32]),
        (127, vec![0x01, 127]),
        (128, vec![0x02, 128, 0]),
        (255, vec![0x02, 255, 0]),
        (256, vec![0x02, 0, 1]),
        (32767, vec![0x02, 0xff, 0x7f]),
        (32768, vec![0x03, 0x00, 0x80, 0x00]),
    ];
    for (n, expected) in cases {
        assert_eq!(assemble(&vec![Token::Int(n)]).bytes, expected);
    }
    let largest = assemble(&vec![Token::Int(i64::MAX)]).bytes;
    assert_eq!(largest, vec![8, 255, 255, 255, 255, 255, 255, 255, 127]);
}

#[test]
fn assembles_in_order() {
    let tokens = vec![Token::Op(script::OP_DUP), Token::Push(vec![1, 2]), Token::Int(3)];
    assert_eq!(assemble(&tokens).bytes, vec![0x76, 0x02, 1, 2, 0x53]);
    let first = assemble(&tokens[..1].to_vec()).bytes;
    let second = assemble(&tokens[1..].to_vec()).bytes;
    assert_eq!([first, second].concat(), assemble(&tokens).bytes);
}

#[test]
fn numbers_in_the_shortest_form() {
    assert_eq!(num_to_str(0), Vec::<u8>::new());
    assert_eq!(num_to_str(1), vec![1]);
    assert_eq!(num_to_str(255), vec![255]);
    assert_eq!(num_to_str(256), vec![0, 1]);
    assert_eq!(num_to_str(i32::MAX), vec![255, 255, 255, 127]);
    assert_eq!(num_to_str(-1), vec![255; 8]);
    assert_eq!(num_to_str(i32::MIN), vec![0, 0, 0, 128, 255, 255, 255, 255]);
    assert_eq!(minimal_le_bytes(0x0100_0000_0000), vec![0, 0, 0, 0, 0, 1]);
    assert_eq!(minimal_le_bytes(u64::MAX), vec![255; 8]);
}
