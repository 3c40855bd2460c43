//! The typed UTXO record handed to the library, the balance report it
//! returns, and the errors it reports.
use vstd::prelude::*;

verus! {

/// What a record says about the block at which it was spent.
#[derive(Clone, Debug)]
pub enum SpentField {
    /// No spent height: the output is still unspent.
    Absent,
    /// A non-negative integer height (not yet checked to fit in 32 bits).
    Height(u64),
    /// Present, but not a non-negative integer.
    Malformed,
}

/// One UTXO as read from the input. A field is `None` where it is absent or
/// does not have the expected shape; range checks are left to the library.
#[derive(Clone, Debug)]
pub struct UtxoRecord {
    pub token_protocol_id: Option<String>,
    /// The balance as decimal text.
    pub balance: Option<String>,
    /// The block at which the output was created.
    pub block: Option<u64>,
    pub block_spent: SpentField,
    /// The owning address, from the record's location data.
    pub address: Option<String>,
}

/// Why a request failed; record positions are zero-based.
#[derive(Clone, Copy, Debug, PartialEq, Eq, Structural)]
pub enum BalanceError {
    /// The payload is not an array of records.
    MalformedInput,
    /// The record has no token protocol id.
    MissingField(usize),
    /// The record's balance is absent or not an unsigned 128-bit decimal.
    InvalidBalance(usize),
    /// The record's creation block is absent or does not fit in 32 bits.
    InvalidBlock(usize),
    /// The record's spent block is malformed or does not fit in 32 bits.
    InvalidBlockSpent(usize),
    /// The record's token is missing from the token index.
    UnknownToken(usize),
    /// The block range times the number of tokens exceeds the cell limit.
    ComplexityExceeded,
    /// The record's creation block lies outside `[block_start, block_end)`.
    IndexOutOfBounds(usize),
    /// Adding the record's balance overflows 128 bits in some block.
    BalanceOverflow(usize),
    /// The first record has no address, or there is no record.
    MissingAddress,
}

/// Per-block balances of every token held by one address.
/// `balances[r][c]` is the balance of `tokens[c]` at block `block_start + r`.
pub struct BalanceReport {
    pub address: String,
    pub block_start: u32,
    pub tokens: Vec<String>,
    pub balances: Vec<Vec<u128>>,
}

/// The mathematical content of a `BalanceReport`.
pub struct ReportModel {
    pub address: Seq<char>,
    pub block_start: int,
    pub tokens: Seq<Seq<char>>,
    pub balances: Seq<Seq<int>>,
}

pub open spec fn strings_view(v: Seq<String>) -> Seq<Seq<char>> {
    v.map_values(|s: String| s@)
}

pub open spec fn row_view(row: Vec<u128>) -> Seq<int> {
    row@.map_values(|x: u128| x as int)
}

pub open spec fn matrix_view(m: Seq<Vec<u128>>) -> Seq<Seq<int>> {
    m.map_values(|row: Vec<u128>| row_view(row))
}

impl View for BalanceReport {
    type V = ReportModel;

    open spec fn view(&self) -> ReportModel {
        ReportModel {
            address: self.address@,
            block_start: self.block_start as int,
            tokens: strings_view(self.tokens@),
            balances: matrix_view(self.balances@),
        }
    }
}

} // verus!
