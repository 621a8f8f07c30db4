//! The per-block sampling pipeline decisions: parsing the block number out
//! of a header notification, scoring and storing a verified block, and the
//! rule for the optional app-specific deep verification pass. The header
//! stream, RPC fetcher and proof verifier are collaborators at the edge;
//! they hand this module plain values.

use crate::confidence::{
    calculate_confidence, pack_confidence, serialised_confidence, spec_confidence_e7,
};
use crate::decimal::spec_decimal;
use crate::store::ConfidenceStore;
use crate::types::{BlockProofResponse, Cell, ClientMsg, CELL_CONTENT_SIZE};
use vstd::arithmetic::div_mod::lemma_fundamental_div_mod;
use vstd::prelude::*;
use vstd::string::StrSliceExecFns;

verus! {

/// Scaled confidence (at `10^7` per percent) above which a block with app
/// data qualifies for the deep verification pass: 92 percent.
pub const APP_DATA_CONFIDENCE_THRESHOLD_E7: u64 = 920_000_000;

/// A hexadecimal digit in either case.
pub open spec fn is_hex_digit(c: char) -> bool {
    ('0' <= c && c <= '9') || ('a' <= c && c <= 'f') || ('A' <= c && c <= 'F')
}

/// The value of a hexadecimal digit character.
pub open spec fn hex_digit_val(c: char) -> nat {
    if '0' <= c && c <= '9' {
        (c as int - '0' as int) as nat
    } else if 'a' <= c && c <= 'f' {
        (c as int - 'a' as int + 10) as nat
    } else if 'A' <= c && c <= 'F' {
        (c as int - 'A' as int + 10) as nat
    } else {
        0
    }
}

/// The number denoted by a sequence of hexadecimal digit characters.
pub open spec fn spec_hex_value(s: Seq<char>) -> nat
    decreases s.len(),
{
    if s.len() == 0 {
        0
    } else {
        spec_hex_value(s.drop_last()) * 16 + hex_digit_val(s.last())
    }
}

/// The header's number field with every leading `0x` removed, as
/// a repeated prefix trim leaves it.
pub open spec fn strip_hex_prefix(s: Seq<char>) -> Seq<char>
    decreases s.len(),
{
    if s.len() >= 2 && s[0] == '0' && s[1] == 'x' {
        strip_hex_prefix(s.skip(2))
    } else {
        s
    }
}

fn hex_digit(c: char) -> (r: Option<u8>)
    ensures
        r matches Some(d) ==> is_hex_digit(c) && d == hex_digit_val(c) && d < 16,
        r is None ==> !is_hex_digit(c),
{
    if '0' <= c && c <= '9' {
        Some((c as u32 - '0' as u32) as u8)
    } else if 'a' <= c && c <= 'f' {
        Some((c as u32 - 'a' as u32 + 10) as u8)
    } else if 'A' <= c && c <= 'F' {
        Some((c as u32 - 'A' as u32 + 10) as u8)
    } else {
        None
    }
}

proof fn lemma_hex_value_prefix_le(t: Seq<char>, j: int)
    requires
        0 <= j <= t.len(),
    ensures
        spec_hex_value(t.take(j)) <= spec_hex_value(t),
    decreases t.len() - j,
{
    if j < t.len() {
        lemma_hex_value_prefix_le(t, j + 1);
        assert(t.take(j + 1).drop_last() =~= t.take(j));
        assert(t.take(j + 1).last() == t[j]);
        assert(spec_hex_value(t.take(j + 1)) == spec_hex_value(t.take(j)) * 16 + hex_digit_val(
            t[j],
        ));
    } else {
        assert(t.take(j) =~= t);
    }
}

/// Parse the block number out of a header's hex-encoded number field.
/// Returns the number exactly when, after trimming the `0x` prefix, the
/// field is a non-empty string of hex digits denoting a value that fits
/// in 64 bits; a malformed field yields nothing, so the caller can log
/// and skip the header rather than abort.
pub fn parse_block_number(s: &str) -> (r: Option<u64>)
    ensures
        ({
            let t = strip_hex_prefix(s@);
            match r {
                Some(n) => {
                    &&& t.len() > 0
                    &&& forall|k: int| 0 <= k < t.len() ==> is_hex_digit(#[trigger] t[k])
                    &&& n == spec_hex_value(t)
                },
                None => {
                    ||| t.len() == 0
                    ||| exists|k: int| 0 <= k < t.len() && !is_hex_digit(#[trigger] t[k])
                    ||| spec_hex_value(t) > u64::MAX
                },
            }
        }),
{
    let len = s.unicode_len();
    let mut start: usize = 0;
    proof {
        assert(s@.skip(0) =~= s@);
    }
    while len - start >= 2 && s.get_char(start) == '0' && s.get_char(start + 1) == 'x'
        invariant
            len == s@.len(),
            start <= len,
            strip_hex_prefix(s@.skip(start as int)) == strip_hex_prefix(s@),
        decreases len - start,
    {
        proof {
            assert(s@.skip(start as int).len() >= 2);
            assert(s@.skip(start as int)[0] == s@[start as int]);
            assert(s@.skip(start as int)[1] == s@[start as int + 1]);
            assert(s@.skip(start as int).skip(2) =~= s@.skip(start as int + 2));
        }
        start = start + 2;
    }
    let ghost t = strip_hex_prefix(s@);
    proof {
        assert(t == s@.skip(start as int));
    }
    if start == len {
        return None;
    }
    let mut acc: u64 = 0;
    let mut j: usize = start;
    while j < len
        invariant
            len == s@.len(),
            start <= j <= len,
            start < len,
            t == s@.skip(start as int),
            t == strip_hex_prefix(s@),
            forall|k: int| 0 <= k < j - start ==> is_hex_digit(#[trigger] t[k]),
            acc == spec_hex_value(t.take(j - start)),
        decreases len - j,
    {
        let c = s.get_char(j);
        proof {
            assert(t[j - start] == s@[j as int]);
            assert(t.take(j - start + 1).drop_last() =~= t.take((j - start) as int));
            assert(t.take(j - start + 1).last() == t[j - start]);
        }
        match hex_digit(c) {
            None => {
                return None;
            },
            Some(d) => {
                let d64: u64 = d as u64;
                if acc > (u64::MAX - d64) / 16 {
                    proof {
                        lemma_fundamental_div_mod(u64::MAX - d64, 16);
                        assert(spec_hex_value(t.take(j - start + 1)) > u64::MAX);
                        lemma_hex_value_prefix_le(t, j - start + 1);
                    }
                    return None;
                }
                acc = acc * 16 + d64;
            },
        }
        j = j + 1;
    }
    proof {
        assert(t.take((len - start) as int) =~= t);
    }
    Some(acc)
}

/// Whether the app-specific deep verification pass runs: only when the
/// header's app-data index is non-empty, the confidence exceeds the
/// threshold, and a positive application id is configured.
pub fn should_verify_app_data(app_index_len: usize, confidence_e7: u64, app_id: u32) -> (r: bool)
    ensures
        r == (app_index_len > 0 && confidence_e7 > APP_DATA_CONFIDENCE_THRESHOLD_E7 && app_id > 0),
{
    app_index_len > 0 && confidence_e7 > APP_DATA_CONFIDENCE_THRESHOLD_E7 && app_id > 0
}

/// What one verified block produces: its scaled confidence, the packed
/// serialised confidence, and the notification for the downstream
/// reconstruction client.
pub struct BlockSummary {
    pub confidence_e7: u64,
    pub serialised_confidence: String,
    pub message: ClientMsg,
}

/// Score a block whose samples have been verified, record the count in
/// the confidence store, and build the downstream notification.
pub fn process_verified_block(
    store: &mut ConfidenceStore,
    block_number: u64,
    max_rows: u16,
    max_cols: u16,
    verified_count: u32,
) -> (r: BlockSummary)
    ensures
        final(store)@ == old(store)@.insert(block_number, verified_count),
        r.confidence_e7 == spec_confidence_e7(verified_count as nat),
        r.serialised_confidence@ == spec_decimal(
            pack_confidence(block_number as nat, r.confidence_e7 as nat),
        ),
        r.message == (ClientMsg { block_number, max_rows, max_cols }),
{
    let confidence_e7 = calculate_confidence(verified_count);
    let serialised = serialised_confidence(block_number, confidence_e7);
    store.upsert(block_number, verified_count);
    BlockSummary {
        confidence_e7,
        serialised_confidence: serialised,
        message: ClientMsg { block_number, max_rows, max_cols },
    }
}

/// Distribute a flat RPC proof response over the requested cells: cell `i`
/// receives bytes `[CELL_CONTENT_SIZE * i, CELL_CONTENT_SIZE * (i + 1))`.
/// The response must hold exactly `CELL_CONTENT_SIZE` bytes per cell.
pub fn fill_cells_with_proofs(cells: &mut Vec<Cell>, response: &BlockProofResponse)
    requires
        response.result@.len() == CELL_CONTENT_SIZE * old(cells)@.len(),
    ensures
        final(cells)@.len() == old(cells)@.len(),
        forall|i: int|
            0 <= i < old(cells)@.len() ==> {
                &&& (#[trigger] final(cells)@[i]).position == old(cells)@[i].position
                &&& final(cells)@[i].content@ == response.result@.subrange(
                    CELL_CONTENT_SIZE * i,
                    CELL_CONTENT_SIZE * i + CELL_CONTENT_SIZE,
                )
            },
{
    let n = cells.len();
    let response_len = response.result.len();
    let mut out: Vec<Cell> = Vec::new();
    let mut i: usize = 0;
    while i < n
        invariant
            cells@ == old(cells)@,
            n == cells@.len(),
            response_len == response.result@.len(),
            response.result@.len() == CELL_CONTENT_SIZE * n,
            i <= n,
            out@.len() == i,
            forall|k: int|
                0 <= k < i ==> {
                    &&& (#[trigger] out@[k]).position == cells@[k].position
                    &&& out@[k].content@ == response.result@.subrange(
                        CELL_CONTENT_SIZE * k,
                        CELL_CONTENT_SIZE * k + CELL_CONTENT_SIZE,
                    )
                },
        decreases n - i,
    {
        proof {
            assert(CELL_CONTENT_SIZE * (i as int) + CELL_CONTENT_SIZE <= CELL_CONTENT_SIZE * (
            n as int)) by (nonlinear_arith)
                requires
                    0 <= i as int,
                    i as int + 1 <= n as int,
            ;
        }
        let mut content: Vec<u8> = Vec::new();
        let mut j: usize = 0;
        while j < CELL_CONTENT_SIZE
            invariant
                i < n,
                n == cells@.len(),
                response_len == response.result@.len(),
                response.result@.len() == CELL_CONTENT_SIZE * n,
                CELL_CONTENT_SIZE * (i as int) + CELL_CONTENT_SIZE <= response.result@.len(),
                j <= CELL_CONTENT_SIZE,
                content@.len() == j,
                forall|k: int|
                    0 <= k < j ==> #[trigger] content@[k] == response.result@[CELL_CONTENT_SIZE * (
                    i as int) + k],
            decreases CELL_CONTENT_SIZE - j,
        {
            content.push(response.result[CELL_CONTENT_SIZE * i + j]);
            j = j + 1;
        }
        let position = cells[i].position;
        out.push(Cell { position, content });
        proof {
            assert(out@[i as int].content@ =~= response.result@.subrange(
                CELL_CONTENT_SIZE * (i as int),
                CELL_CONTENT_SIZE * (i as int) + CELL_CONTENT_SIZE,
            ));
        }
        i = i + 1;
    }
    *cells = out;
}

} // verus!
