//! Core data model: matrix positions, cells, block notifications, and the
//! DHT reference key that all nodes derive identically for one cell.

use crate::decimal::{lemma_decimal_digits_only, spec_decimal, u64_to_decimal};
use vstd::prelude::*;
use vstd::string::{StrSliceExecFns, StringExecFns};

verus! {

broadcast use vstd::string::group_string_axioms;

/// Size in bytes of the commitment part of a cell's content.
pub const COMMITMENT_SIZE: usize = 48;

/// Size in bytes of the data chunk part of a cell's content.
pub const CHUNK_SIZE: usize = 32;

/// Exact length of a cell's content: commitment followed by chunk.
pub const CELL_CONTENT_SIZE: usize = COMMITMENT_SIZE + CHUNK_SIZE;

/// A coordinate in a block's erasure-coded data matrix.
#[derive(Clone, Copy, Debug, PartialEq, Eq, Structural)]
pub struct Position {
    pub row: u32,
    pub col: u32,
}

/// The reference under which the cell at `(row, col)` of block `block` is
/// stored in the DHT: the three numbers in decimal, separated by colons,
/// column before row. A pure function of its arguments, so any two honest
/// nodes derive byte-identical keys for the same cell.
pub open spec fn spec_reference(block: nat, row: nat, col: nat) -> Seq<char> {
    spec_decimal(block) + seq![':'] + spec_decimal(col) + seq![':'] + spec_decimal(row)
}

/// The reference rendered as bytes, for use as a DHT record key.
pub open spec fn spec_reference_key(block: nat, row: nat, col: nat) -> Seq<u8> {
    let s = spec_reference(block, row, col);
    Seq::new(s.len(), |i: int| s[i] as u8)
}

/// Every character of a reference is an ASCII digit or a colon.
pub proof fn lemma_reference_ascii(block: nat, row: nat, col: nat)
    ensures
        vstd::utf8::is_ascii_chars(spec_reference(block, row, col)),
{
    lemma_decimal_digits_only(block);
    lemma_decimal_digits_only(col);
    lemma_decimal_digits_only(row);
    let s = spec_reference(block, row, col);
    let b = spec_decimal(block);
    let c = spec_decimal(col);
    let r = spec_decimal(row);
    assert forall|i: int| 0 <= i < s.len() implies '\0' <= #[trigger] s[i] <= '\u{7f}' by {
        if i < b.len() {
            assert(s[i] == b[i]);
        } else if i == b.len() {
            assert(s[i] == ':');
        } else if i < b.len() + 1 + c.len() {
            assert(s[i] == c[i - b.len() - 1]);
        } else if i == b.len() + 1 + c.len() {
            assert(s[i] == ':');
        } else {
            assert(s[i] == r[i - b.len() - 1 - c.len() - 1]);
        }
    }
}

impl DeepView for Position {
    type V = Position;

    open spec fn deep_view(&self) -> Position {
        *self
    }
}

impl Position {
    /// Build the reference string for this position in block `block`.
    pub fn reference(&self, block: u64) -> (s: String)
        ensures
            s@ == spec_reference(block as nat, self.row as nat, self.col as nat),
    {
        let mut s = u64_to_decimal(block);
        let colon: &str = ":";
        proof {
            reveal_strlit(":");
            assert(colon@ =~= seq![':']);
        }
        s.append(colon);
        let c = u64_to_decimal(self.col as u64);
        s.append(c.as_str());
        s.append(colon);
        let r = u64_to_decimal(self.row as u64);
        s.append(r.as_str());
        proof {
            assert(s@ =~= spec_reference(block as nat, self.row as nat, self.col as nat));
        }
        s
    }

    /// Build the reference key (the reference string's bytes) for this
    /// position in block `block`.
    pub fn reference_key(&self, block: u64) -> (k: Vec<u8>)
        ensures
            k@ == spec_reference_key(block as nat, self.row as nat, self.col as nat),
    {
        let s = self.reference(block);
        proof {
            lemma_reference_ascii(block as nat, self.row as nat, self.col as nat);
        }
        let k = s.as_str().as_bytes_vec();
        proof {
            broadcast use vstd::string::is_ascii_spec_bytes;
            broadcast use vstd::utf8::is_ascii_chars_encode_utf8;

            assert(k@ =~= spec_reference_key(block as nat, self.row as nat, self.col as nat));
        }
        k
    }
}

/// One matrix cell: its position and its content, which is well-formed
/// exactly when it holds `CELL_CONTENT_SIZE` bytes (commitment then chunk).
#[derive(Clone, Debug)]
pub struct Cell {
    pub position: Position,
    pub content: Vec<u8>,
}

impl Cell {
    /// A cell's content is always exactly `CELL_CONTENT_SIZE` bytes; any
    /// other length is a decode error, never silently truncated or padded.
    pub open spec fn wf(&self) -> bool {
        self.content@.len() == CELL_CONTENT_SIZE
    }

    /// The DHT reference string of this cell in block `block`.
    pub fn reference(&self, block: u64) -> (s: String)
        ensures
            s@ == spec_reference(block as nat, self.position.row as nat, self.position.col as nat),
    {
        self.position.reference(block)
    }
}

/// Notification sent downstream once a block has been sampled.
#[derive(Clone, Copy, Debug, PartialEq, Eq, Structural)]
pub struct ClientMsg {
    pub block_number: u64,
    pub max_rows: u16,
    pub max_cols: u16,
}

/// Raw proof bytes returned by the RPC proof fetcher: a flat buffer holding
/// `CELL_CONTENT_SIZE` bytes for each requested cell.
#[derive(Clone, Debug)]
pub struct BlockProofResponse {
    pub result: Vec<u8>,
}

} // verus!
