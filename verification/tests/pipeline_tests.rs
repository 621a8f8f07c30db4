use avail_light::pipeline::{
    fill_cells_with_proofs, parse_block_number, process_verified_block, should_verify_app_data,
};
use avail_light::store::ConfidenceStore;
use avail_light::types::{BlockProofResponse, Cell, ClientMsg, Position, CELL_CONTENT_SIZE};

#[test]
fn block_number_parses_from_hex_prefixed_string() {
    assert_eq!(parse_block_number("0x2a"), Some(42));
    assert_eq!(parse_block_number("0x0"), Some(0));
    assert_eq!(parse_block_number("ff"), Some(255));
    assert_eq!(parse_block_number("0xFFFFFFFFFFFFFFFF"), Some(u64::MAX));
    // A repeated prefix trim strips every leading 0x.
    assert_eq!(parse_block_number("0x0x10"), Some(16));
}

#[test]
fn malformed_block_numbers_are_rejected_not_fatal() {
    assert_eq!(parse_block_number(""), None);
    assert_eq!(parse_block_number("0x"), None);
    assert_eq!(parse_block_number("0xzz"), None);
    assert_eq!(parse_block_number("12g4"), None);
    // One bit beyond 64: overflow is a parse failure.
    assert_eq!(parse_block_number("0x10000000000000000"), None);
}

#[test]
fn app_data_pass_needs_index_confidence_and_id() {
    assert!(should_verify_app_data(1, 920_000_001, 1));
    assert!(!should_verify_app_data(0, 920_000_001, 1), "empty app index");
    assert!(!should_verify_app_data(1, 920_000_000, 1), "at threshold, not above");
    assert!(!should_verify_app_data(1, 920_000_001, 0), "no app id");
}

#[test]
fn store_upserts_and_reads_counts() {
    let mut store = ConfidenceStore::new();
    assert_eq!(store.get(7), None);
    assert_eq!(store.len(), 0);
    store.upsert(7, 10);
    store.upsert(8, 12);
    assert_eq!(store.get(7), Some(10));
    assert_eq!(store.get(8), Some(12));
    assert_eq!(store.len(), 2);
    store.upsert(7, 16);
    assert_eq!(store.get(7), Some(16), "an upsert replaces the old count");
    assert_eq!(store.len(), 2);
}

#[test]
fn fill_cells_distributes_proof_bytes_in_order() {
    let mut cells = vec![
        Cell { position: Position { row: 0, col: 0 }, content: Vec::new() },
        Cell { position: Position { row: 0, col: 1 }, content: Vec::new() },
    ];
    let result: Vec<u8> = (0..2 * CELL_CONTENT_SIZE).map(|b| b as u8).collect();
    let response = BlockProofResponse { result };
    fill_cells_with_proofs(&mut cells, &response);
    assert_eq!(cells.len(), 2);
    assert_eq!(cells[0].position, Position { row: 0, col: 0 });
    assert_eq!(cells[1].position, Position { row: 0, col: 1 });
    let expected_first: Vec<u8> = (0..CELL_CONTENT_SIZE).map(|b| b as u8).collect();
    let expected_second: Vec<u8> =
        (CELL_CONTENT_SIZE..2 * CELL_CONTENT_SIZE).map(|b| b as u8).collect();
    assert_eq!(cells[0].content, expected_first);
    assert_eq!(cells[1].content, expected_second);
}

#[test]
fn sampled_block_flows_to_store_and_downstream() {
    // Header for block 42 with rows=4, cols=4 arrives; the RPC stub returns
    // 16 cells and all pass verification.
    let block_number = parse_block_number("0x2a").unwrap();
    assert_eq!(block_number, 42);
    let verified_count: u32 = 16;
    let mut store = ConfidenceStore::new();
    let summary = process_verified_block(&mut store, block_number, 4, 4, verified_count);
    // 100 * (1 - 2^-16) is about 99.9985 percent.
    assert_eq!(summary.confidence_e7, 999_984_741);
    assert_eq!(store.get(42), Some(16));
    assert_eq!(
        summary.message,
        ClientMsg { block_number: 42, max_rows: 4, max_cols: 4 }
    );
    let packed: u128 = summary.serialised_confidence.parse().unwrap();
    assert_eq!((packed >> 32) as u64, 42);
    assert_eq!((packed & 0xFFFF_FFFF) as u64, 999_984_741);
}
