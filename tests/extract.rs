use base58::ToBase58;
use launch_indexer::chain::{
    BlockTransaction, CompiledInstruction, DecodedTransaction, InnerInstruction, InnerInstructions,
    QueuedBlock, TransactionMeta,
};
use launch_indexer::logs::{
    extract_log_records, invoke_marker_of, parse_mint_line, parse_transfer_logs, process_block,
    success_marker_of, LogError,
};
use launch_indexer::extractor::{EventExtractor, InstructionExtractor, LogExtractor};
use launch_indexer::queue::{process_next, BlockQueue};
use launch_indexer::transfer::{
    extract_block_transfers, extract_transfer_records, parse_mint, parse_system_transfer,
    parse_transfer_instruction,
};

const PROGRAM: &str = "Bdro1T9cT2ZroyJdHFCnrchx45L4Vf87NUhQY1pVD1Qm";
const RECEIVER: &str = "Recv1111111111111111111111111111111111111111";
const SENDER: &str = "Send1111111111111111111111111111111111111111";
const SYSTEM: &str = "11111111111111111111111111111111";

fn invoke() -> String {
    format!("Program {} invoke [1]", PROGRAM)
}

fn success() -> String {
    format!("Program {} success", PROGRAM)
}

fn mint(addr: &str, n: &str) -> String {
    format!("Program log: Mint user = {},amount = {}", addr, n)
}

fn lines(v: &[String]) -> Vec<String> {
    v.to_vec()
}

#[test]
fn markers_name_the_program() {
    assert_eq!(invoke_marker_of(PROGRAM), "Program Bdro1T9cT2ZroyJdHFCnrchx45L4Vf87NUhQY1pVD1Qm invoke [1]");
    assert_eq!(success_marker_of(PROGRAM), "Program Bdro1T9cT2ZroyJdHFCnrchx45L4Vf87NUhQY1pVD1Qm success");
}

#[test]
fn mint_line_round_trip() {
    let (addr, amount) = parse_mint_line(&mint("7xKXtg2CW87d97TXJSDpbD5jBkheTqA83TZRuJosgAsU", "12345")).unwrap();
    assert_eq!(addr, "7xKXtg2CW87d97TXJSDpbD5jBkheTqA83TZRuJosgAsU");
    assert_eq!(amount, 12345);
    let display = bigdecimal::BigDecimal::new(amount.into(), 8);
    assert_eq!(display.to_string(), "0.00012345");
}

#[test]
fn mint_line_largest_amount() {
    let (_, amount) = parse_mint_line(&mint("A", "18446744073709551615")).unwrap();
    assert_eq!(amount, u64::MAX);
    assert!(parse_mint_line(&mint("A", "18446744073709551616")).is_none());
}

#[test]
fn mint_line_fields_are_trimmed() {
    let (addr, amount) = parse_mint_line("Program log: Mint user =   Abc  ,amount =  42 ").unwrap();
    assert_eq!(addr, "Abc");
    assert_eq!(amount, 42);
}

#[test]
fn malformed_mint_lines_are_not_events() {
    assert!(parse_mint_line("Program log: Mint user = Abc").is_none());
    assert!(parse_mint_line("Program log: Mint user = Abc,amount = 4x").is_none());
    assert!(parse_mint_line("Program log: Mint user = Abc,amount 42").is_none());
    assert!(parse_mint_line("Program log: Mint user = Abc,amount = ").is_none());
    assert!(parse_mint_line("Program log: Burn user = Abc,amount = 42").is_none());
    assert!(parse_mint_line("").is_none());
}

#[test]
fn one_mint_in_one_region() {
    let l = lines(&[invoke(), mint("Abc", "100000000"), success()]);
    let r = extract_log_records(&l, PROGRAM, &"sig".to_string(), 77, 1234).unwrap();
    assert_eq!(r.len(), 1);
    assert_eq!(r[0].address, "Abc");
    assert_eq!(r[0].launch_amount, 100_000_000);
    assert_eq!(r[0].launch_block, 77);
    assert_eq!(r[0].launch_tx_hash, "sig");
    assert_eq!(r[0].log_index, 0);
    assert_eq!(r[0].launch_time, 1234);
}

#[test]
fn two_mints_in_one_region() {
    let l = lines(&[
        invoke(),
        "Program log: Instruction: Mint".to_string(),
        mint("Abc", "5"),
        mint("Def", "6"),
        success(),
    ]);
    let r = extract_log_records(&l, PROGRAM, &"sigX".to_string(), 1, 2).unwrap();
    assert_eq!(r.len(), 2);
    assert_eq!((r[0].address.as_str(), r[0].launch_amount, r[0].log_index), ("Abc", 5, 0));
    assert_eq!((r[1].address.as_str(), r[1].launch_amount, r[1].log_index), ("Def", 6, 1));
    assert_eq!(r[0].launch_tx_hash, r[1].launch_tx_hash);
}

#[test]
fn paired_regions_are_all_scanned() {
    let l = lines(&[
        invoke(),
        mint("A", "1"),
        success(),
        mint("Outside", "9"),
        invoke(),
        mint("B", "2"),
        success(),
    ]);
    let r = extract_log_records(&l, PROGRAM, &"s".to_string(), 1, 2).unwrap();
    let got: Vec<(&str, u64, u64)> = r.iter().map(|x| (x.address.as_str(), x.launch_amount, x.log_index)).collect();
    assert_eq!(got, vec![("A", 1, 0), ("B", 2, 1)]);
}

#[test]
fn unpaired_markers_are_refused() {
    let l = lines(&[invoke(), mint("A", "1"), success(), invoke(), mint("B", "2")]);
    let r = extract_log_records(&l, PROGRAM, &"s".to_string(), 1, 2);
    assert!(matches!(r, Err(LogError::UnpairedMarkers)));
}

#[test]
fn logs_without_invoke_marker_yield_nothing() {
    let l = lines(&[mint("A", "1"), success()]);
    assert_eq!(extract_log_records(&l, PROGRAM, &"s".to_string(), 1, 2).unwrap().len(), 0);
    let other = lines(&["Program Other invoke [1]".to_string(), mint("A", "1"), "Program Other success".to_string()]);
    assert_eq!(extract_log_records(&other, PROGRAM, &"s".to_string(), 1, 2).unwrap().len(), 0);
}

fn log_tx(sig: &str, logs: Vec<String>, failed: bool) -> BlockTransaction {
    BlockTransaction {
        transaction: Some(DecodedTransaction {
            signatures: vec![sig.to_string()],
            account_keys: vec![],
            instructions: vec![],
        }),
        meta: Some(TransactionMeta { failed, log_messages: Some(logs), inner_instructions: None }),
    }
}

#[test]
fn block_scan_skips_bad_transactions() {
    let txs = vec![
        log_tx("ok", lines(&[invoke(), mint("A", "1"), success()]), false),
        log_tx("failed", lines(&[invoke(), mint("B", "2"), success()]), true),
        log_tx("bad", lines(&[invoke(), mint("C", "3")]), false),
        BlockTransaction { transaction: None, meta: None },
        log_tx("empty", vec![], false),
        log_tx("ok2", lines(&[invoke(), mint("D", "4"), success()]), false),
    ];
    let scan = parse_transfer_logs(&txs, PROGRAM, 9, 10);
    let got: Vec<&str> = scan.records.iter().map(|r| r.launch_tx_hash.as_str()).collect();
    assert_eq!(got, vec!["ok", "ok2"]);
    assert_eq!(scan.malformed, vec![2]);
}

#[test]
fn queued_blocks_are_processed_oldest_first() {
    let mut q = BlockQueue::new();
    assert!(process_next(&mut q, PROGRAM).is_none());
    for (slot, sig) in [(5u64, "first"), (6, "second")] {
        q.push_back(QueuedBlock {
            slot,
            block_height: Some(slot * 10),
            block_time: None,
            transactions: Some(vec![log_tx(sig, lines(&[invoke(), mint("A", "1"), success()]), false)]),
        });
    }
    assert_eq!(q.len(), 2);
    let a = process_next(&mut q, PROGRAM).unwrap();
    assert_eq!(a.records[0].launch_tx_hash, "first");
    assert_eq!(a.records[0].launch_block, 50);
    assert_eq!(a.records[0].launch_time, 0);
    let b = process_next(&mut q, PROGRAM).unwrap();
    assert_eq!(b.records[0].launch_tx_hash, "second");
    assert!(q.is_empty());
}

#[test]
fn block_without_transactions_yields_nothing() {
    let b = QueuedBlock { slot: 1, block_height: None, block_time: None, transactions: None };
    let scan = process_block(&b, PROGRAM);
    assert!(scan.records.is_empty() && scan.malformed.is_empty());
    assert!(extract_block_transfers(&b, PROGRAM, RECEIVER).is_empty());
}

fn mint_data(amount: u64, bump: u8) -> Vec<u8> {
    let mut d = amount.to_le_bytes().to_vec();
    d.push(bump);
    d
}

fn transfer_data(tag: u32, lamports: u64) -> String {
    let mut d = tag.to_le_bytes().to_vec();
    d.extend_from_slice(&lamports.to_le_bytes());
    d.to_base58()
}

fn keys() -> Vec<String> {
    vec![SENDER.to_string(), RECEIVER.to_string(), PROGRAM.to_string(), SYSTEM.to_string()]
}

fn transfer_tx(ix_data: Vec<u8>, inner: Vec<InnerInstruction>) -> BlockTransaction {
    BlockTransaction {
        transaction: Some(DecodedTransaction {
            signatures: vec!["sigT".to_string()],
            account_keys: keys(),
            instructions: vec![CompiledInstruction { program_id_index: 2, accounts: vec![0, 1], data: ix_data }],
        }),
        meta: Some(TransactionMeta {
            failed: false,
            log_messages: None,
            inner_instructions: Some(vec![InnerInstructions { index: 0, instructions: inner }]),
        }),
    }
}

fn system_transfer(data: String, to: u8) -> InnerInstruction {
    InnerInstruction::Compiled { program_id_index: 3, accounts: vec![0, to], data }
}

#[test]
fn mint_payload_is_nine_bytes() {
    let m = parse_mint(&mint_data(500, 254)).unwrap();
    assert_eq!((m.amount, m.bump), (500, 254));
    assert!(parse_mint(&vec![1, 2, 3]).is_none());
    let mut long = mint_data(500, 1);
    long.push(0);
    assert!(parse_mint(&long).is_none());
}

#[test]
fn system_transfer_payload() {
    let mut d = 2u32.to_le_bytes().to_vec();
    d.extend_from_slice(&123456789u64.to_le_bytes());
    assert_eq!(parse_system_transfer(&d), Some(123456789));
    d.push(7);
    assert_eq!(parse_system_transfer(&d), Some(123456789));
    d[0] = 1;
    assert_eq!(parse_system_transfer(&d), None);
    assert_eq!(parse_system_transfer(&vec![2, 0, 0, 0, 1]), None);
}

#[test]
fn transfer_to_receiver_is_decoded_from_base58() {
    let ii = system_transfer(transfer_data(2, 250_000_000), 1);
    let (from, lamports) = parse_transfer_instruction(&keys(), &ii, &RECEIVER.to_string()).unwrap();
    assert_eq!(from, SENDER);
    assert_eq!(lamports, 250_000_000);
    let bad = system_transfer("0OIl".to_string(), 1);
    assert!(parse_transfer_instruction(&keys(), &bad, &RECEIVER.to_string()).is_none());
}

#[test]
fn launch_transaction_yields_transfer_records() {
    let tx = transfer_tx(
        mint_data(1, 255),
        vec![
            system_transfer(transfer_data(2, 300), 1),
            system_transfer(transfer_data(2, 400), 2),
            system_transfer(transfer_data(0, 500), 1),
            InnerInstruction::Parsed,
            system_transfer(transfer_data(2, 600), 1),
        ],
    );
    let r = extract_transfer_records(&tx, PROGRAM, RECEIVER, 88, 99);
    let got: Vec<(&str, u64, u64, u64)> =
        r.iter().map(|x| (x.address.as_str(), x.launch_amount, x.log_index, x.launch_block)).collect();
    assert_eq!(got, vec![(SENDER, 300, 0, 88), (SENDER, 600, 0, 88)]);
    assert_eq!(r[0].launch_tx_hash, "sigT");
    assert_eq!(r[0].launch_time, 99);
}

#[test]
fn non_launch_transactions_yield_no_transfers() {
    let inner = vec![system_transfer(transfer_data(2, 300), 1)];
    let bad_payload = transfer_tx(vec![1, 2, 3], inner.clone());
    assert!(extract_transfer_records(&bad_payload, PROGRAM, RECEIVER, 1, 1).is_empty());
    let mut failed = transfer_tx(mint_data(1, 1), inner.clone());
    failed.meta.as_mut().unwrap().failed = true;
    assert!(extract_transfer_records(&failed, PROGRAM, RECEIVER, 1, 1).is_empty());
    let mut out_of_range = transfer_tx(mint_data(1, 1), inner);
    out_of_range.transaction.as_mut().unwrap().instructions[0].program_id_index = 9;
    assert!(extract_transfer_records(&out_of_range, PROGRAM, RECEIVER, 1, 1).is_empty());
}

#[test]
fn block_transfers_carry_slot_and_time() {
    let tx = transfer_tx(mint_data(1, 1), vec![system_transfer(transfer_data(2, 5), 1)]);
    let b = QueuedBlock { slot: 321, block_height: Some(300), block_time: Some(1700), transactions: Some(vec![tx]) };
    let r = extract_block_transfers(&b, PROGRAM, RECEIVER);
    assert_eq!(r.len(), 1);
    assert_eq!((r[0].launch_block, r[0].launch_time, r[0].launch_amount), (321, 1700, 5));
}

#[test]
fn both_extractors_share_one_interface() {
    let by_logs = LogExtractor { program: PROGRAM.to_string() };
    let by_instructions = InstructionExtractor { program: PROGRAM.to_string(), receiver: RECEIVER.to_string() };
    let log_based = log_tx("L", lines(&[invoke(), mint("A", "7"), success()]), false);
    let ix_based = transfer_tx(mint_data(1, 1), vec![system_transfer(transfer_data(2, 8), 1)]);
    let extractors: Vec<&dyn EventExtractor> = vec![&by_logs, &by_instructions];
    let found: Vec<usize> = extractors.iter().map(|e| e.extract(&log_based, 1, 2).unwrap().len()).collect();
    assert_eq!(found, vec![1, 0]);
    let r = by_instructions.extract(&ix_based, 1, 2).unwrap();
    assert_eq!((r[0].address.as_str(), r[0].launch_amount), (SENDER, 8));
    let bad = log_tx("B", lines(&[invoke(), invoke(), success()]), false);
    assert!(matches!(by_logs.extract(&bad, 1, 2), Err(LogError::UnpairedMarkers)));
}
