use avail_light::dht::{
    cell_from_record, chunk_positions, collect_fetched, insert_success_rate,
};
use avail_light::types::{Cell, Position, CELL_CONTENT_SIZE};

fn grid(rows: u32, cols: u32) -> Vec<Position> {
    let mut positions = Vec::new();
    for row in 0..rows {
        for col in 0..cols {
            positions.push(Position { row, col });
        }
    }
    positions
}

#[test]
fn fetch_partitions_answered_and_missing_positions() {
    // 16 positions for block 100; a stub store answers 10 of them.
    let positions = grid(4, 4);
    let mut responses: Vec<Option<Vec<u8>>> = Vec::new();
    for (i, _) in positions.iter().enumerate() {
        if i < 10 {
            responses.push(Some(vec![i as u8; CELL_CONTENT_SIZE]));
        } else {
            responses.push(None);
        }
    }
    let (fetched, unfetched) = collect_fetched(&positions, &responses).unwrap();
    assert_eq!(fetched.len(), 10);
    assert_eq!(unfetched.len(), 6);
    // Fetched and unfetched positions together are exactly the input, in
    // order and without duplicates.
    let mut recombined: Vec<Position> = fetched.iter().map(|c| c.position).collect();
    recombined.extend(unfetched.iter().copied());
    assert_eq!(recombined, positions);
    for (i, cell) in fetched.iter().enumerate() {
        assert_eq!(cell.content, vec![i as u8; CELL_CONTENT_SIZE]);
    }
}

#[test]
fn fetch_with_no_answers_returns_all_unfetched() {
    let positions = grid(2, 3);
    let responses: Vec<Option<Vec<u8>>> = vec![None; 6];
    let (fetched, unfetched) = collect_fetched(&positions, &responses).unwrap();
    assert!(fetched.is_empty());
    assert_eq!(unfetched, positions);
}

#[test]
fn wrong_length_record_aborts_the_whole_batch() {
    let positions = grid(1, 3);
    let responses = vec![
        Some(vec![0u8; CELL_CONTENT_SIZE]),
        Some(vec![0u8; CELL_CONTENT_SIZE - 1]),
        Some(vec![0u8; CELL_CONTENT_SIZE]),
    ];
    let err = collect_fetched(&positions, &responses).unwrap_err();
    assert_eq!(err.position, Position { row: 0, col: 1 });
    assert_eq!(err.length, CELL_CONTENT_SIZE - 1);
}

#[test]
fn cell_from_record_accepts_exactly_eighty_bytes() {
    let position = Position { row: 3, col: 7 };
    let ok = cell_from_record(position, &vec![5u8; CELL_CONTENT_SIZE]).unwrap();
    assert_eq!(ok.position, position);
    assert_eq!(ok.content, vec![5u8; CELL_CONTENT_SIZE]);
    for len in [0, 1, CELL_CONTENT_SIZE - 1, CELL_CONTENT_SIZE + 1] {
        let err = cell_from_record(position, &vec![5u8; len]).unwrap_err();
        assert_eq!(err.position, position);
        assert_eq!(err.length, len);
    }
}

#[test]
fn chunks_bound_in_flight_queries() {
    let positions = grid(4, 4);
    let chunks = chunk_positions(&positions, 4);
    assert_eq!(chunks.len(), 4);
    for chunk in &chunks {
        assert_eq!(chunk.len(), 4);
    }
    let flattened: Vec<Position> = chunks.concat();
    assert_eq!(flattened, positions);
}

#[test]
fn last_chunk_holds_the_remainder() {
    let positions = grid(2, 5);
    let chunks = chunk_positions(&positions, 4);
    assert_eq!(chunks.len(), 3);
    assert_eq!(chunks[0].len(), 4);
    assert_eq!(chunks[1].len(), 4);
    assert_eq!(chunks[2].len(), 2);
    assert_eq!(chunks.concat(), positions);
    let singles = chunk_positions(&positions, 1);
    assert_eq!(singles.len(), 10);
    assert_eq!(singles.concat(), positions);
}

#[test]
fn empty_insert_batch_is_full_success() {
    let (successes, total) = insert_success_rate(&Vec::new());
    assert_eq!((successes, total), (1, 1));
    assert_eq!(successes as f32 / total as f32, 1.0);
}

#[test]
fn all_failed_puts_give_zero_success_rate() {
    let (successes, total) = insert_success_rate(&vec![false; 5]);
    assert_eq!((successes, total), (0, 5));
    assert_eq!(successes as f32 / total as f32, 0.0);
}

#[test]
fn success_rate_is_successes_over_total() {
    let outcomes = vec![true, false, true, true, false, true, true, true];
    let (successes, total) = insert_success_rate(&outcomes);
    assert_eq!((successes, total), (6, 8));
    assert_eq!(successes as f32 / total as f32, 0.75);
}

#[test]
fn dht_record_carries_reference_key_and_content() {
    let cell = Cell {
        position: Position { row: 1, col: 2 },
        content: vec![9u8; CELL_CONTENT_SIZE],
    };
    let record = cell.dht_record(100, 3600);
    assert_eq!(record.key, b"100:2:1".to_vec());
    assert_eq!(record.value, cell.content);
    assert_eq!(record.ttl_seconds, 3600);
}
