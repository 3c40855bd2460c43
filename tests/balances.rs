use utxo_balances::balances::{
    build_token_index, check_record, process_many_utxo_balances, process_utxo_balances,
};
use utxo_balances::decimal::parse_u128;
use utxo_balances::ledger::MAX_COMPLEXITY;
use utxo_balances::record::{BalanceError, SpentField, UtxoRecord};
use utxo_balances::report::process_many_utxo_balances_text;

fn rec(token: &str, balance: &str, block: u64, spent: Option<u64>, addr: &str) -> UtxoRecord {
    UtxoRecord {
        token_protocol_id: Some(token.to_string()),
        balance: Some(balance.to_string()),
        block: Some(block),
        block_spent: match spent {
            Some(h) => SpentField::Height(h),
            None => SpentField::Absent,
        },
        address: Some(addr.to_string()),
    }
}

fn column(recs: &Vec<UtxoRecord>, start: u32, end: u32, token: &str) -> Vec<u128> {
    let rep = process_many_utxo_balances(recs, start, end).unwrap();
    let c = rep.tokens.iter().position(|t| t == token).unwrap();
    rep.balances.iter().map(|row| row[c]).collect()
}

#[test]
fn example_end_to_end() {
    let recs = vec![rec("A", "10", 2, Some(4), "addr1"), rec("A", "5", 3, Some(6), "addr1")];
    let rep = process_many_utxo_balances(&recs, 2, 6).unwrap();
    assert_eq!(rep.address, "addr1");
    assert_eq!(rep.block_start, 2);
    assert_eq!(rep.tokens, vec!["A".to_string()]);
    assert_eq!(rep.balances, vec![vec![10], vec![15], vec![5], vec![5]]);
}

#[test]
fn range_boundary_exactness() {
    let recs = vec![rec("T", "7", 5, Some(8), "a")];
    assert_eq!(column(&recs, 4, 10, "T"), vec![0, 7, 7, 7, 0, 0]);
}

#[test]
fn empty_window_contributes_nothing() {
    let recs = vec![
        rec("T", "1", 3, None, "a"),
        rec("T", "100", 5, Some(5), "a"),
        rec("T", "100", 6, Some(4), "a"),
    ];
    assert_eq!(column(&recs, 3, 8, "T"), vec![1, 1, 1, 1, 1]);
}

#[test]
fn additivity_same_token() {
    let a = rec("T", "3", 1, Some(3), "a");
    let b = rec("T", "4", 3, Some(5), "a");
    let c = rec("T", "20", 2, Some(4), "a");
    assert_eq!(column(&vec![a.clone()], 1, 6, "T"), vec![3, 3, 0, 0, 0]);
    assert_eq!(column(&vec![b.clone()], 1, 6, "T"), vec![0, 0, 4, 4, 0]);
    assert_eq!(column(&vec![a.clone(), b.clone()], 1, 6, "T"), vec![3, 3, 4, 4, 0]);
    assert_eq!(column(&vec![a, b, c], 1, 6, "T"), vec![3, 23, 24, 4, 0]);
}

#[test]
fn zero_fill_every_token_every_block() {
    let recs = vec![rec("X", "2", 0, Some(1), "a"), rec("Y", "9", 2, None, "a")];
    let rep = process_many_utxo_balances(&recs, 0, 4).unwrap();
    assert_eq!(rep.tokens, vec!["X".to_string(), "Y".to_string()]);
    assert_eq!(rep.balances, vec![vec![2, 0], vec![0, 0], vec![0, 9], vec![0, 9]]);
}

#[test]
fn deterministic_and_first_seen_order() {
    let recs = vec![
        rec("B", "1", 0, None, "a"),
        rec("A", "2", 0, None, "a"),
        rec("B", "3", 1, None, "a"),
        rec("C", "4", 1, None, "a"),
    ];
    let r1 = process_many_utxo_balances(&recs, 0, 3).unwrap();
    let r2 = process_many_utxo_balances(&recs, 0, 3).unwrap();
    assert_eq!(r1.tokens, vec!["B".to_string(), "A".to_string(), "C".to_string()]);
    assert_eq!(r1.tokens, r2.tokens);
    assert_eq!(r1.balances, r2.balances);
    assert_eq!(r1.balances, vec![vec![1, 2, 0], vec![4, 2, 4], vec![4, 2, 4]]);
}

#[test]
fn complexity_gate_runs_before_record_checks() {
    let mut bad = rec("C", "abc", 1, None, "a");
    bad.block = None;
    let recs = vec![rec("A", "1", 0, None, "a"), rec("B", "1", 0, None, "a"), bad];
    assert_eq!(
        process_many_utxo_balances(&recs, 0, 5_000_000).err(),
        Some(BalanceError::ComplexityExceeded)
    );
}

#[test]
fn complexity_limit_is_inclusive() {
    let recs = vec![rec("A", "1", 0, None, "a"), rec("B", "1", 0, None, "a")];
    assert!(process_utxo_balances(&recs, 0, 3, 6).is_ok());
    assert_eq!(process_utxo_balances(&recs, 0, 3, 5).err(), Some(BalanceError::ComplexityExceeded));
    assert_eq!(MAX_COMPLEXITY, 10_000_000);
}

#[test]
fn malformed_balance_names_record() {
    let recs = vec![rec("A", "1", 0, None, "a"), rec("A", "abc", 0, None, "a")];
    assert_eq!(process_many_utxo_balances(&recs, 0, 2).err(), Some(BalanceError::InvalidBalance(1)));
    let mut absent = rec("A", "1", 0, None, "a");
    absent.balance = None;
    assert_eq!(
        process_many_utxo_balances(&vec![absent], 0, 2).err(),
        Some(BalanceError::InvalidBalance(0))
    );
}

#[test]
fn missing_address_wins_over_later_records() {
    let mut first = rec("A", "1", 0, None, "a");
    first.address = None;
    let mut later = rec("B", "zz", 0, None, "a");
    later.token_protocol_id = None;
    assert_eq!(
        process_many_utxo_balances(&vec![first, later], 0, 2).err(),
        Some(BalanceError::MissingAddress)
    );
    assert_eq!(process_many_utxo_balances(&vec![], 0, 2).err(), Some(BalanceError::MissingAddress));
}

#[test]
fn missing_token_id_names_record() {
    let mut second = rec("B", "1", 0, None, "a");
    second.token_protocol_id = None;
    let recs = vec![rec("A", "1", 0, None, "a"), second];
    assert_eq!(process_many_utxo_balances(&recs, 0, 2).err(), Some(BalanceError::MissingField(1)));
    assert_eq!(build_token_index(&recs), Err(BalanceError::MissingField(1)));
}

#[test]
fn token_index_first_seen() {
    let recs = vec![rec("Z", "1", 0, None, "a"), rec("Y", "1", 0, None, "a"), rec("Z", "1", 0, None, "a")];
    assert_eq!(build_token_index(&recs), Ok(vec!["Z".to_string(), "Y".to_string()]));
}

#[test]
fn invalid_block_errors() {
    let mut absent = rec("A", "1", 0, None, "a");
    absent.block = None;
    assert_eq!(check_record(&absent, 4, 0, 10), Err(BalanceError::InvalidBlock(4)));
    let wide = rec("A", "1", 1u64 << 32, None, "a");
    assert_eq!(process_many_utxo_balances(&vec![wide], 0, 10).err(), Some(BalanceError::InvalidBlock(0)));
}

#[test]
fn invalid_block_spent_errors() {
    let mut bad = rec("A", "1", 0, None, "a");
    bad.block_spent = SpentField::Malformed;
    assert_eq!(process_many_utxo_balances(&vec![bad], 0, 10).err(), Some(BalanceError::InvalidBlockSpent(0)));
    let wide = rec("A", "1", 0, Some(1u64 << 32), "a");
    assert_eq!(check_record(&wide, 2, 0, 10), Err(BalanceError::InvalidBlockSpent(2)));
}

#[test]
fn block_outside_range_is_out_of_bounds() {
    let early = rec("A", "1", 1, None, "a");
    assert_eq!(process_many_utxo_balances(&vec![early], 2, 6).err(), Some(BalanceError::IndexOutOfBounds(0)));
    let late = rec("A", "1", 6, None, "a");
    assert_eq!(
        process_many_utxo_balances(&vec![rec("A", "1", 2, None, "a"), late], 2, 6).err(),
        Some(BalanceError::IndexOutOfBounds(1))
    );
    assert_eq!(
        process_many_utxo_balances(&vec![rec("A", "1", 2, None, "a")], 2, 2).err(),
        Some(BalanceError::IndexOutOfBounds(0))
    );
}

#[test]
fn overflow_is_reported() {
    let max = u128::MAX.to_string();
    let recs = vec![rec("A", &max, 0, None, "a"), rec("B", "1", 1, None, "a"), rec("A", "1", 2, None, "a")];
    assert_eq!(process_many_utxo_balances(&recs, 0, 3).err(), Some(BalanceError::BalanceOverflow(2)));
    let fits = vec![rec("A", &max, 0, Some(1), "a"), rec("A", &max, 1, None, "a")];
    assert_eq!(column(&fits, 0, 2, "A"), vec![u128::MAX, u128::MAX]);
}

#[test]
fn check_record_returns_window() {
    assert_eq!(check_record(&rec("A", "12", 3, Some(9), "a"), 0, 2, 6), Ok((12, 3, 6)));
    assert_eq!(check_record(&rec("A", "12", 3, Some(5), "a"), 0, 2, 6), Ok((12, 3, 5)));
    assert_eq!(check_record(&rec("A", "12", 3, None, "a"), 0, 2, 6), Ok((12, 3, 6)));
}

#[test]
fn parse_decimal_literals() {
    assert_eq!(parse_u128("0"), Some(0));
    assert_eq!(parse_u128("00042"), Some(42));
    assert_eq!(parse_u128("+7"), Some(7));
    assert_eq!(parse_u128("340282366920938463463374607431768211455"), Some(u128::MAX));
    assert_eq!(parse_u128("340282366920938463463374607431768211456"), None);
    assert_eq!(parse_u128(""), None);
    assert_eq!(parse_u128("+"), None);
    assert_eq!(parse_u128("-1"), None);
    assert_eq!(parse_u128(" 1"), None);
    assert_eq!(parse_u128("1a"), None);
    assert_eq!(parse_u128("abc"), None);
}

#[test]
fn rendered_report_is_decimal_text() {
    let recs = vec![rec("A", "10", 2, Some(4), "addr1"), rec("A", "5", 3, Some(6), "addr1")];
    let out = process_many_utxo_balances_text(&recs, 2, 6).unwrap();
    assert_eq!(out.address, "addr1");
    let blocks: Vec<String> = out.blocks.iter().map(|b| b.block.clone()).collect();
    assert_eq!(blocks, vec!["2", "3", "4", "5"]);
    let values: Vec<String> = out.blocks.iter().map(|b| b.balances[0].balance.clone()).collect();
    assert_eq!(values, vec!["10", "15", "5", "5"]);
    assert!(out.blocks.iter().all(|b| b.balances.len() == 1 && b.balances[0].token_protocol_id == "A"));
}

#[test]
fn rendered_report_keeps_full_precision() {
    let max = u128::MAX.to_string();
    let recs = vec![rec("A", &max, 4294967294, None, "a"), rec("B", "+0007", 4294967294, None, "a")];
    let out = process_many_utxo_balances_text(&recs, 4294967294, 4294967295).unwrap();
    assert_eq!(out.blocks.len(), 1);
    assert_eq!(out.blocks[0].block, "4294967294");
    assert_eq!(out.blocks[0].balances[0].balance, "340282366920938463463374607431768211455");
    assert_eq!(out.blocks[0].balances[1].balance, "7");
    assert_eq!(out.blocks[0].balances[1].token_protocol_id, "B");
}

#[test]
fn rendered_report_passes_errors_through() {
    let recs = vec![rec("A", "x", 0, None, "a")];
    assert_eq!(process_many_utxo_balances_text(&recs, 0, 1).err(), Some(BalanceError::InvalidBalance(0)));
}
