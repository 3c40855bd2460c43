//! The meaning of a balance request: which tokens are reported, what each
//! block's balance is, and which error a request ends in.
use vstd::prelude::*;
use crate::decimal::decimal_u128;
use crate::record::{BalanceError, ReportModel, SpentField, UtxoRecord};

verus! {

/// The cell limit used where the caller gives none.
pub const MAX_COMPLEXITY: u64 = 10_000_000;

pub open spec fn token_of(r: UtxoRecord) -> Seq<char> {
    r.token_protocol_id->0@
}

pub open spec fn balance_of(r: UtxoRecord) -> int {
    decimal_u128(r.balance->0@)->0 as int
}

pub open spec fn created_of(r: UtxoRecord) -> int {
    r.block->0 as int
}

/// The first block at which the record no longer counts: its spent block,
/// capped at `block_end`, or `block_end` where it is unspent.
pub open spec fn window_end(r: UtxoRecord, block_end: u32) -> int {
    match r.block_spent {
        SpentField::Height(h) => if h < block_end { h as int } else { block_end as int },
        _ => block_end as int,
    }
}

/// What the record adds to the balance of `token` at block `b`.
pub open spec fn contribution(r: UtxoRecord, token: Seq<char>, b: int, block_end: u32) -> int {
    if token_of(r) == token && created_of(r) <= b < window_end(r, block_end) {
        balance_of(r)
    } else {
        0
    }
}

/// The balance of `token` at block `b`: the sum of the records' contributions.
pub open spec fn total(recs: Seq<UtxoRecord>, token: Seq<char>, b: int, block_end: u32) -> int
    decreases recs.len(),
{
    if recs.len() == 0 {
        0
    } else {
        total(recs.drop_last(), token, b, block_end) + contribution(
            recs.last(),
            token,
            b,
            block_end,
        )
    }
}

/// The distinct token ids of the records, in order of first appearance.
pub open spec fn first_seen(recs: Seq<UtxoRecord>) -> Seq<Seq<char>>
    decreases recs.len(),
{
    if recs.len() == 0 {
        Seq::empty()
    } else {
        let p = first_seen(recs.drop_last());
        if p.contains(token_of(recs.last())) {
            p
        } else {
            p.push(token_of(recs.last()))
        }
    }
}

/// The position of the first record without a token id.
pub open spec fn first_missing_token(recs: Seq<UtxoRecord>) -> Option<int>
    decreases recs.len(),
{
    if recs.len() == 0 {
        None
    } else {
        match first_missing_token(recs.drop_last()) {
            Some(k) => Some(k),
            None => if recs.last().token_protocol_id is None {
                Some(recs.len() - 1)
            } else {
                None
            },
        }
    }
}

/// The error that the record at position `i` ends the request in on its own,
/// checked in this order: balance, creation block, spent block, bounds.
pub open spec fn record_error(r: UtxoRecord, i: int, block_start: u32, block_end: u32) -> Option<
    BalanceError,
> {
    if r.balance is None || decimal_u128(r.balance->0@) is None {
        Some(BalanceError::InvalidBalance(i as usize))
    } else if r.block is None || r.block->0 > u32::MAX {
        Some(BalanceError::InvalidBlock(i as usize))
    } else if r.block_spent is Malformed || (r.block_spent is Height && r.block_spent->0
        > u32::MAX) {
        Some(BalanceError::InvalidBlockSpent(i as usize))
    } else if r.block->0 < block_start || r.block->0 >= block_end {
        Some(BalanceError::IndexOutOfBounds(i as usize))
    } else {
        None
    }
}

/// Whether adding the last record makes some balance in its window exceed
/// 128 bits.
pub open spec fn last_overflows(recs: Seq<UtxoRecord>, block_end: u32) -> bool {
    let r = recs.last();
    exists|b: int|
        created_of(r) <= b < window_end(r, block_end) && #[trigger] total(
            recs,
            token_of(r),
            b,
            block_end,
        ) > u128::MAX
}

/// The first error met when the records are applied in order.
pub open spec fn run_error(recs: Seq<UtxoRecord>, block_start: u32, block_end: u32) -> Option<
    BalanceError,
>
    decreases recs.len(),
{
    if recs.len() == 0 {
        None
    } else {
        match run_error(recs.drop_last(), block_start, block_end) {
            Some(e) => Some(e),
            None => match record_error(recs.last(), recs.len() - 1, block_start, block_end) {
                Some(e) => Some(e),
                None => if last_overflows(recs, block_end) {
                    Some(BalanceError::BalanceOverflow((recs.len() - 1) as usize))
                } else {
                    None
                },
            },
        }
    }
}

/// The report of a request whose records all apply.
pub open spec fn report_of(recs: Seq<UtxoRecord>, block_start: u32, block_end: u32) -> ReportModel {
    let tokens = first_seen(recs);
    ReportModel {
        address: recs[0].address->0@,
        block_start: block_start as int,
        tokens,
        balances: Seq::new(
            (block_end - block_start) as nat,
            |r: int| Seq::new(tokens.len(), |c: int| total(recs, tokens[c], block_start + r, block_end)),
        ),
    }
}

/// The outcome of a request over `[block_start, block_end)` with at most
/// `max_cells` block-token cells. The address is checked first, then every
/// record's token id, then the cell limit, then each record in order.
pub open spec fn outcome(
    recs: Seq<UtxoRecord>,
    block_start: u32,
    block_end: u32,
    max_cells: u64,
) -> Result<ReportModel, BalanceError> {
    if recs.len() == 0 || recs[0].address is None {
        Err(BalanceError::MissingAddress)
    } else if first_missing_token(recs) is Some {
        Err(BalanceError::MissingField(first_missing_token(recs)->0 as usize))
    } else if (block_end - block_start) * first_seen(recs).len() > max_cells {
        Err(BalanceError::ComplexityExceeded)
    } else if run_error(recs, block_start, block_end) is Some {
        Err(run_error(recs, block_start, block_end)->0)
    } else {
        Ok(report_of(recs, block_start, block_end))
    }
}

pub proof fn lemma_first_missing_prefix(recs: Seq<UtxoRecord>, k: int)
    requires
        0 <= k <= recs.len(),
        first_missing_token(recs.subrange(0, k)) is Some,
    ensures
        first_missing_token(recs) == first_missing_token(recs.subrange(0, k)),
    decreases recs.len(),
{
    if k == recs.len() {
        assert(recs.subrange(0, k) =~= recs);
    } else {
        assert(recs.drop_last().subrange(0, k) =~= recs.subrange(0, k));
        lemma_first_missing_prefix(recs.drop_last(), k);
    }
}

pub proof fn lemma_first_missing_none(recs: Seq<UtxoRecord>)
    requires
        first_missing_token(recs) is None,
    ensures
        forall|i: int| 0 <= i < recs.len() ==> (#[trigger] recs[i]).token_protocol_id is Some,
    decreases recs.len(),
{
    if recs.len() > 0 {
        lemma_first_missing_none(recs.drop_last());
        assert forall|i: int| 0 <= i < recs.len() implies (#[trigger] recs[i]).token_protocol_id is Some by {
            if i < recs.len() - 1 {
                assert(recs[i] == recs.drop_last()[i]);
            }
        }
    }
}

pub proof fn lemma_run_error_prefix(recs: Seq<UtxoRecord>, k: int, block_start: u32, block_end: u32)
    requires
        0 <= k <= recs.len(),
        run_error(recs.subrange(0, k), block_start, block_end) is Some,
    ensures
        run_error(recs, block_start, block_end) == run_error(recs.subrange(0, k), block_start, block_end),
    decreases recs.len(),
{
    if k == recs.len() {
        assert(recs.subrange(0, k) =~= recs);
    } else {
        assert(recs.drop_last().subrange(0, k) =~= recs.subrange(0, k));
        lemma_run_error_prefix(recs.drop_last(), k, block_start, block_end);
    }
}

/// Every token id that occurs in the records is reported, and none twice.
pub proof fn lemma_first_seen_complete(recs: Seq<UtxoRecord>)
    ensures
        forall|i: int| 0 <= i < recs.len() ==> first_seen(recs).contains(token_of(#[trigger] recs[i])),
        forall|t: Seq<char>| first_seen(recs).contains(t) ==> exists|i: int| 0 <= i < recs.len() && token_of(#[trigger] recs[i]) == t,
        first_seen(recs).no_duplicates(),
    decreases recs.len(),
{
    if recs.len() > 0 {
        let p = recs.drop_last();
        lemma_first_seen_complete(p);
        let last = token_of(recs.last());
        assert forall|i: int| 0 <= i < recs.len() implies first_seen(recs).contains(token_of(#[trigger] recs[i])) by {
            if i < recs.len() - 1 {
                assert(recs[i] == p[i]);
                assert(first_seen(p).contains(token_of(p[i])));
                if !first_seen(p).contains(last) {
                    assert(first_seen(recs) == first_seen(p).push(last));
                    let j = choose|j: int| 0 <= j < first_seen(p).len() && first_seen(p)[j] == token_of(p[i]);
                    assert(first_seen(recs)[j] == token_of(p[i]));
                }
            } else {
                if !first_seen(p).contains(last) {
                    assert(first_seen(recs)[first_seen(p).len() as int] == last);
                }
            }
        }
        assert forall|t: Seq<char>| first_seen(recs).contains(t) implies exists|i: int| 0 <= i < recs.len() && token_of(#[trigger] recs[i]) == t by {
            if first_seen(p).contains(t) {
                let i = choose|i: int| 0 <= i < p.len() && token_of(#[trigger] p[i]) == t;
                assert(recs[i] == p[i]);
            } else {
                assert(token_of(recs[recs.len() - 1]) == t);
            }
        }
    }
}

} // verus!
