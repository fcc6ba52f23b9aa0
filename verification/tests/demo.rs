use bitcoin::absolute::LockTime;
use bitcoin::consensus::encode::serialize;
use bitcoin::{Amount, OutPoint, ScriptBuf, Sequence, Transaction, TxIn, TxOut, Witness};
use bitcoin_circle_stark::demo::address::{
    caboose_address, caboose_script, parse_txid, program_address,
};
use bitcoin_circle_stark::demo::files::{is_tx_file, order_tx_files, tx_file_name, tx_number};
use bitcoin_circle_stark::demo::network::{
    fees, funding_amount, next_balance, next_program, remaining_amount, step_fee, NetworkArg,
};
use bitcoin_circle_stark::demo::opcodes::{
    count_labels, count_opcodes, count_witness_opcodes, label_text, sort_by_count,
    total_script_bytes, Instruction, OpcodeCount,
};
use bitcoin_circle_stark::demo::transaction::{
    decode_transaction, read_transaction_bytes, report_text, transaction_report, virtual_size,
    TransactionError,
};
use bitcoin_circle_stark::demo::run::{Demo, DemoError, Outpoint, Step};
use bitcoin_circle_stark::demo::witness::{
    extract, hex_text, split_witness, stack_text, Extraction,
};
use bitcoin_circle_stark::dsl::plonk::covenant::PlonkVerifierState;
use bitcoin_circle_stark::text::{decimal_text, is_before, parse_u32};

const NETWORKS: [NetworkArg; 3] = [NetworkArg::Regtest, NetworkArg::Signet, NetworkArg::Bitcoin];

fn pairs(counts: &[OpcodeCount]) -> Vec<(String, usize)> {
    counts.iter().map(|c| (c.label.clone(), c.count)).collect()
}

fn transaction() -> Transaction {
    let input = |witness: Vec<Vec<u8>>| TxIn {
        previous_output: OutPoint::null(),
        script_sig: ScriptBuf::new(),
        sequence: Sequence::MAX,
        witness: Witness::from(witness),
    };
    Transaction {
        version: bitcoin::transaction::Version::TWO,
        lock_time: LockTime::ZERO,
        input: vec![
            input(vec![vec![1, 2], vec![0x76, 0x76, 0xa9, 0x00, 0x02, 5, 6], vec![0xc0; 33]]),
            input(vec![vec![7]]),
            input(vec![vec![0x76, 0x4c], vec![0xc0; 33]]),
        ],
        output: vec![TxOut {
            value: Amount::from_sat(1000),
            script_pubkey: ScriptBuf::from_bytes(vec![0x51]),
        }],
    }
}

#[test]
fn networks() {
    assert_eq!(NetworkArg::Regtest.fee_rate(), 1);
    assert_eq!(NetworkArg::Signet.fee_rate(), 1);
    assert_eq!(NetworkArg::Bitcoin.fee_rate(), 1500);
    assert_eq!(NetworkArg::Regtest.cli_flag(), "-regtest");
    assert_eq!(NetworkArg::Signet.cli_flag(), "-signet");
    assert_eq!(NetworkArg::Bitcoin.cli_flag(), "");
}

#[test]
fn fee_table() {
    let fees = fees();
    assert_eq!(fees.len(), 72);
    assert_eq!(fees.iter().sum::<usize>(), 7508428);
    assert_eq!(fees[0], 137466);
    assert_eq!(fees[7], 121112);
    assert_eq!(fees[14], 48561);
    assert_eq!(fees[15], 121112);
    assert_eq!(fees[71], 59733);
}

#[test]
fn funding() {
    assert_eq!(funding_amount(NetworkArg::Signet), 1098881);
    assert_eq!(funding_amount(NetworkArg::Regtest), 1098881);
    assert_eq!(funding_amount(NetworkArg::Bitcoin), 1611715920);
    assert_eq!(remaining_amount(1100000, NetworkArg::Signet), 1099270);
    assert_eq!(remaining_amount(600330, NetworkArg::Bitcoin), 0);
}

#[test]
fn step_fees_round_up() {
    assert_eq!(step_fee(0, NetworkArg::Signet), 19638);
    assert_eq!(step_fee(0, NetworkArg::Bitcoin), 29457000);
    for network in NETWORKS {
        for (pc, fee) in fees().into_iter().enumerate() {
            let expected = (fee as f64 / 7.0 * (network.fee_rate() as f64)).ceil() as u64;
            assert_eq!(step_fee(pc, network), expected);
        }
    }
}

#[test]
fn funding_pays_for_every_step() {
    for network in NETWORKS {
        let mut balance = remaining_amount(funding_amount(network), network);
        for pc in 0..72 {
            let fee = step_fee(pc, network);
            assert!(balance >= fee + 330);
            let next = next_balance(balance, fee, 330);
            assert_eq!(next, balance - fee - 330);
            balance = next;
        }
    }
}

#[test]
fn programs_by_counter() {
    assert_eq!(next_program(0), Some(0));
    assert_eq!(next_program(71), Some(71));
    assert_eq!(next_program(72), None);
}

#[test]
fn caboose() {
    let hash = vec![0x11u8; 32];
    let mut expected = vec![0x6a, 0x24];
    expected.extend_from_slice(&hash);
    expected.extend_from_slice(&[42, 0, 0, 0]);
    assert_eq!(caboose_script(&hash, 42), expected);
    assert_eq!(caboose_script(&hash, 0x0403_0201)[34..], [1, 2, 3, 4]);
}

#[test]
fn addresses() {
    let hash = vec![0x11u8; 32];
    let script = caboose_script(&hash, 42);
    for (network, outside) in [
        (NetworkArg::Regtest, bitcoin::Network::Regtest),
        (NetworkArg::Signet, bitcoin::Network::Signet),
        (NetworkArg::Bitcoin, bitcoin::Network::Bitcoin),
    ] {
        let expected =
            bitcoin::Address::p2wsh(bitcoin::Script::from_bytes(&script), outside).to_string();
        assert_eq!(caboose_address(&hash, 42, network), expected);
    }
    assert!(caboose_address(&hash, 42, NetworkArg::Bitcoin).starts_with("bc1q"));
    let mut taproot = vec![0x51u8, 0x20];
    taproot.extend_from_slice(&[2; 32]);
    let address = program_address(&taproot, NetworkArg::Signet).unwrap();
    assert!(address.starts_with("tb1p"));
    assert_eq!(program_address(&vec![0x6a], NetworkArg::Signet), None);
}

#[test]
fn transaction_ids() {
    let mut text = String::from("01");
    text.push_str(&"00".repeat(30));
    text.push_str("fF");
    let id = parse_txid(&text).unwrap();
    assert_eq!(id.len(), 32);
    assert_eq!(id[0], 0xff);
    assert_eq!(id[31], 0x01);
    assert_eq!(parse_txid("00"), None);
    assert_eq!(parse_txid(&"0g".repeat(32)), None);
    assert_eq!(parse_txid(&"0".repeat(63)), None);
}

#[test]
fn counts_opcodes() {
    let counts = count_opcodes(&[0x76, 0x76, 0xa9, 0x00, 0x02, 5, 6]);
    assert_eq!(
        pairs(&counts),
        vec![
            ("OP_DUP".to_string(), 2),
            ("OP_HASH160".to_string(), 1),
            ("OP_PUSHBYTES_0".to_string(), 1),
            ("OP_PUSHBYTES_2".to_string(), 1),
        ]
    );
    // A push of one byte without the byte ends the script.
    assert_eq!(pairs(&count_opcodes(&[0x76, 0x01])), vec![
        ("INVALID".to_string(), 1),
        ("OP_DUP".to_string(), 1),
    ]);
    assert!(count_opcodes(&[]).is_empty());
    assert_eq!(label_text(Instruction::PushBytes(1234)), "OP_PUSHBYTES_1234");
    assert_eq!(label_text(Instruction::Op(0xac)), "OP_CHECKSIG");
    assert_eq!(label_text(Instruction::Invalid), "INVALID");
}

#[test]
fn counts_labels_in_order() {
    let labels = ["b", "a", "b", "ab", "b"].iter().map(|s| s.to_string()).collect();
    let counts = count_labels(labels);
    assert_eq!(
        pairs(&counts),
        vec![("a".to_string(), 1), ("ab".to_string(), 1), ("b".to_string(), 3)]
    );
    assert_eq!(
        pairs(&sort_by_count(&counts)),
        vec![("b".to_string(), 3), ("a".to_string(), 1), ("ab".to_string(), 1)]
    );
}

#[test]
fn counts_the_scripts_of_all_witnesses() {
    let witnesses: Vec<Vec<Vec<u8>>> =
        transaction().input.iter().map(|i| i.witness.to_vec()).collect();
    assert_eq!(total_script_bytes(&witnesses), Some(9));
    assert_eq!(
        pairs(&count_witness_opcodes(&witnesses)),
        vec![
            ("INVALID".to_string(), 1),
            ("OP_DUP".to_string(), 3),
            ("OP_HASH160".to_string(), 1),
            ("OP_PUSHBYTES_0".to_string(), 1),
            ("OP_PUSHBYTES_2".to_string(), 1),
        ]
    );
}

#[test]
fn file_names() {
    assert!(is_tx_file("tx-1.txt"));
    assert!(is_tx_file("tx-.txt"));
    assert!(!is_tx_file("tx-1.txt~"));
    assert!(!is_tx_file("atx-1.txt"));
    assert!(!is_tx_file("tx.txt"));
    assert!(!is_tx_file(""));
    assert_eq!(tx_number("tx-72.txt"), Some(72));
    assert_eq!(tx_number("tx-007.txt"), Some(7));
    assert_eq!(tx_number("tx-+5.txt"), Some(5));
    assert_eq!(tx_number("tx-.txt"), None);
    assert_eq!(tx_number("tx--1.txt"), None);
    for n in [0u32, 9, 10, 72, u32::MAX] {
        let name = tx_file_name(n as u64);
        assert_eq!(name, format!("tx-{}.txt", n));
        assert!(is_tx_file(&name));
        assert_eq!(tx_number(&name), Some(n));
    }
}

#[test]
fn files_by_number() {
    let names = |list: &[&str]| list.iter().map(|s| s.to_string()).collect::<Vec<String>>();
    let order = order_tx_files(&names(&["tx-10.txt", "readme", "tx-9.txt", "tx-1.txt"]));
    assert_eq!(order, Some(vec![3, 2, 0]));
    let order = order_tx_files(&names(&["tx-2.txt", "tx-02.txt", "tx-1.txt", "tx-+2.txt"]));
    assert_eq!(order, Some(vec![2, 0, 1, 3]));
    assert_eq!(order_tx_files(&names(&["readme"])), Some(vec![]));
    assert_eq!(order_tx_files(&names(&["tx-a.txt"])), Some(vec![0]));
    assert_eq!(order_tx_files(&names(&["tx-a.txt", "tx-1.txt"])), None);
    assert_eq!(order_tx_files(&names(&["tx-4294967296.txt", "tx-1.txt"])), None);
}

#[test]
fn numbers_as_text() {
    for n in [0u64, 7, 10, 99, 100, 1234567890, u64::MAX] {
        assert_eq!(decimal_text(n), n.to_string());
    }
    for text in ["", "+", "-1", "1a", "4294967295", "4294967296", "+0", "00000000000000", "++1"] {
        assert_eq!(parse_u32(text), text.parse::<u32>().ok());
    }
    for (a, b) in [("", "a"), ("a", "b"), ("a", "ab"), ("b", "ab"), ("z", "é"), ("x", "x")] {
        let (x, y) = (a.to_string(), b.to_string());
        assert_eq!(is_before(&x, &y), x < y);
        assert_eq!(is_before(&y, &x), y < x);
    }
}

#[test]
fn splits_witnesses() {
    let witness = vec![vec![1], vec![2, 3], vec![0x51], vec![0xc0]];
    let parts = split_witness(&witness).unwrap();
    assert_eq!(parts.stack, vec![vec![1], vec![2, 3]]);
    assert_eq!(parts.script, vec![0x51]);
    assert_eq!(parts.control_block, vec![0xc0]);
    let mut again = parts.stack.clone();
    again.push(parts.script.clone());
    again.push(parts.control_block.clone());
    assert_eq!(again, witness);
    assert!(split_witness(&vec![vec![1]]).is_none());
    assert!(split_witness(&vec![vec![1], vec![2]]).unwrap().stack.is_empty());
    assert_eq!(stack_text(&parts.stack), "01\n0203\n");
    assert_eq!(stack_text(&vec![]), "");
    assert_eq!(stack_text(&vec![vec![]]), "\n");
    assert_eq!(hex_text(&vec![0x00, 0xab, 0xff]), "00abff");
}

#[test]
fn reads_transactions() {
    let tx = transaction();
    let data = serialize(&tx);
    let file = hex_text(&data);
    assert_eq!(read_transaction_bytes(&file), Ok(data.clone()));
    assert_eq!(read_transaction_bytes(&format!(" {}\r\n", file.to_uppercase())), Ok(data.clone()));
    assert_eq!(read_transaction_bytes("0"), Err(TransactionError::BadHex));
    assert_eq!(read_transaction_bytes("zz"), Err(TransactionError::BadHex));

    let decoded = decode_transaction(&data).unwrap();
    assert_eq!(decoded.weight, tx.weight().to_wu());
    assert_eq!(decoded.witnesses.len(), 3);
    assert_eq!(decoded.witnesses[1], vec![vec![7u8]]);
    // Bytes behind the transaction are not read.
    let mut longer = data.clone();
    longer.push(0);
    assert_eq!(decode_transaction(&longer).unwrap().weight, decoded.weight);
    assert_eq!(
        decode_transaction(&vec![1, 2, 3]).err(),
        Some(TransactionError::BadTransaction)
    );
}

#[test]
fn reports() {
    let tx = transaction();
    let data = serialize(&tx);
    let decoded = decode_transaction(&data).unwrap();
    let report = transaction_report(5, data.len(), &decoded);
    let expected = format!(
        "Transaction 5\nWeight: {} WU\nSize: {} bytes\nVirtual size: {} vbytes\n\nOpcode \
         counts:\n  OP_DUP: 3\n  INVALID: 1\n  OP_HASH160: 1\n  OP_PUSHBYTES_0: 1\n  \
         OP_PUSHBYTES_2: 1\n",
        tx.weight(),
        data.len(),
        tx.weight().to_vbytes_ceil()
    );
    assert_eq!(report.text, expected);
    assert_eq!(
        report.summary,
        format!(
            "  tx-5: weight={} WU, size={} bytes, vsize={} vbytes, 5 unique opcodes",
            tx.weight(),
            data.len(),
            tx.weight().to_vbytes_ceil()
        )
    );
    assert_eq!(
        report_text(1, 2, 5, &vec![]),
        "Transaction 1\nWeight: 5 WU\nSize: 2 bytes\nVirtual size: 2 vbytes\n\nOpcode counts:\n"
    );
}

#[test]
fn virtual_sizes_round_up() {
    assert_eq!(virtual_size(0), 0);
    assert_eq!(virtual_size(1), 1);
    assert_eq!(virtual_size(4), 1);
    assert_eq!(virtual_size(5), 2);
    assert_eq!(virtual_size(u64::MAX), 1 << 62);
}

#[test]
fn plans_and_advances() {
    let funding = Outpoint { txid: vec![1; 32], vout: 3 };
    let mut demo = Demo::start(42, 20000, vec![2; 32], funding);
    assert_eq!(demo.state.pc, 0);
    assert_eq!(demo.state.stack_hash, vec![0u8; 32]);
    assert_eq!(demo.randomizer, 42);
    assert_eq!(demo.outpoint.vout, 3);
    let step = demo.plan(NetworkArg::Signet, 330).unwrap();
    assert_eq!(step, Step { program_index: 0, new_balance: 20000 - 19638 - 330 });
    assert_eq!(demo.plan(NetworkArg::Signet, 362).unwrap().new_balance, 0);
    assert_eq!(demo.plan(NetworkArg::Signet, 363), Err(DemoError::BalanceTooLow));
    assert_eq!(demo.plan(NetworkArg::Bitcoin, 330), Err(DemoError::BalanceTooLow));

    let state = PlonkVerifierState { pc: 72, stack_hash: vec![9; 32], stack: vec![vec![1]] };
    demo.advance(step, state, 7, vec![3; 32], Outpoint { txid: vec![4; 32], vout: 0 });
    assert_eq!(demo.balance, 32);
    assert_eq!(demo.randomizer, 7);
    assert_eq!(demo.txid, vec![3; 32]);
    assert_eq!(demo.outpoint.txid, vec![4; 32]);
    assert_eq!(demo.plan(NetworkArg::Signet, 330), Err(DemoError::NoProgram));
}

#[test]
fn extracts_the_first_witness() {
    let decoded = decode_transaction(&serialize(&transaction())).unwrap();
    match extract(1, &decoded) {
        Extraction::Files { script, stack, control_block, message } => {
            assert_eq!(script, "7676a900020506");
            assert_eq!(stack, "0102\n");
            assert_eq!(control_block, "c0".repeat(33));
            assert_eq!(
                message,
                "TX 1: witness_len=3, stack_elements=1, script_size=7, control_block_size=33"
            );
        }
        _ => panic!("no files"),
    }
    let mut other = decoded.clone();
    other.witnesses.remove(0);
    assert!(matches!(extract(2, &other), Extraction::NoScript(1)));
    other.witnesses.clear();
    assert!(matches!(extract(3, &other), Extraction::NoInput));
}

#[test]
fn a_script_that_ends_inside_a_push_is_counted_up_to_there() {
    assert_eq!(
        pairs(&count_opcodes(&[0x51, 0x05, 0xaa])),
        vec![("INVALID".to_string(), 1), ("OP_PUSHNUM_1".to_string(), 1)]
    );
    // Nothing is read behind the error, whatever stands there.
    for script in [vec![0x4c], vec![0x4d, 1], vec![0x4e, 1, 0, 0], vec![0x4c, 3, 0x51, 0x51]] {
        assert_eq!(pairs(&count_opcodes(&script)), vec![("INVALID".to_string(), 1)]);
    }
    // The opcode of that name has another label.
    assert_eq!(
        pairs(&count_opcodes(&[0xff])),
        vec![("OP_INVALIDOPCODE".to_string(), 1)]
    );
}

#[test]
fn opcode_labels_start_alike() {
    for code in 0..=255u8 {
        assert!(label_text(Instruction::Op(code)).starts_with("OP_"));
    }
}

#[test]
fn counts_add_up_to_the_instructions() {
    let scripts: [&[u8]; 6] = [
        &[],
        &[0x00],
        &[0x76, 0x76, 0xa9],
        &[0x02, 5, 6, 0x4c, 1, 9, 0x51],
        &[0x51, 0x05, 0xaa],
        &[0x4d, 2, 0, 1, 1, 0xac, 0xff],
    ];
    for script in scripts {
        let counts = count_opcodes(script);
        let total: usize = counts.iter().map(|c| c.count).sum();
        assert_eq!(total, bitcoin::Script::from_bytes(script).instructions().count());
        assert_eq!(counts.is_empty(), script.is_empty());
        assert!(counts.iter().all(|c| c.count >= 1));
    }
}

#[test]
fn counts_of_joined_scripts_add_up() {
    let count = |script: &[u8], label: &str| {
        let counts = count_opcodes(script);
        counts.iter().find(|c| c.label == label).map_or(0, |c| c.count)
    };
    let first = [0x76, 0x02, 5, 6, 0x00, 0x4c, 1, 9];
    for second in [&[0x76, 0x00, 0xa9][..], &[0x76, 0x05, 1][..], &[][..]] {
        let joined = [&first[..], second].concat();
        for label in ["OP_DUP", "OP_PUSHBYTES_0", "OP_PUSHBYTES_2", "OP_HASH160", "INVALID"] {
            assert_eq!(count(&joined, label), count(&first, label) + count(second, label));
        }
    }
}

#[test]
fn a_long_file_is_read_at_its_start() {
    let tx = transaction();
    let mut data = serialize(&tx);
    data.resize(5_000_000, 0);
    let decoded = decode_transaction(&data).unwrap();
    assert_eq!(decoded.weight, tx.weight().to_wu());
    assert_eq!(decode_transaction(&vec![]).err(), Some(TransactionError::BadTransaction));
}
