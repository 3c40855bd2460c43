//! Properties of balance requests, proved over the model in `ledger`.
use vstd::prelude::*;
use crate::ledger::{
    contribution, created_of, first_missing_token, first_seen, lemma_first_seen_complete,
    outcome, token_of, total, window_end,
};
use crate::record::{BalanceError, ReportModel, UtxoRecord};

verus! {

/// Balances add up over records: the balance from the records of `a`
/// followed by those of `b` is the balance from `a` plus that from `b`.
pub proof fn lemma_additive(
    a: Seq<UtxoRecord>,
    b: Seq<UtxoRecord>,
    token: Seq<char>,
    block: int,
    block_end: u32,
)
    ensures
        total(a + b, token, block, block_end) == total(a, token, block, block_end) + total(
            b,
            token,
            block,
            block_end,
        ),
    decreases b.len(),
{
    if b.len() == 0 {
        assert(a + b =~= a);
    } else {
        assert((a + b).drop_last() =~= a + b.drop_last());
        assert((a + b).last() == b.last());
        lemma_additive(a, b.drop_last(), token, block, block_end);
    }
}

/// A record whose window is empty adds nothing to any balance, wherever it
/// stands among the other records.
pub proof fn lemma_empty_window(
    a: Seq<UtxoRecord>,
    r: UtxoRecord,
    b: Seq<UtxoRecord>,
    token: Seq<char>,
    block: int,
    block_end: u32,
)
    requires
        created_of(r) >= window_end(r, block_end),
    ensures
        contribution(r, token, block, block_end) == 0,
        total(a.push(r) + b, token, block, block_end) == total(a + b, token, block, block_end),
{
    let one = seq![r];
    assert(one.drop_last() =~= Seq::<UtxoRecord>::empty());
    assert(one.last() == r);
    assert(total(Seq::<UtxoRecord>::empty(), token, block, block_end) == 0);
    assert(total(one, token, block, block_end) == 0);
    assert(a.push(r) =~= a + one);
    lemma_additive(a, one, token, block, block_end);
    lemma_additive(a.push(r), b, token, block, block_end);
    lemma_additive(a, b, token, block, block_end);
}

/// A successful report lists every token id that occurs in the records, once
/// each, and every block's row holds a balance for each of them.
pub proof fn lemma_zero_fill(
    recs: Seq<UtxoRecord>,
    block_start: u32,
    block_end: u32,
    max_cells: u64,
)
    requires
        block_start <= block_end,
        outcome(recs, block_start, block_end, max_cells) is Ok,
    ensures
        ({
            let rep = outcome(recs, block_start, block_end, max_cells)->Ok_0;
            &&& forall|i: int| 0 <= i < recs.len() ==> rep.tokens.contains(token_of(#[trigger] recs[i]))
            &&& rep.tokens.no_duplicates()
            &&& rep.balances.len() == block_end - block_start
            &&& forall|r: int| 0 <= r < rep.balances.len() ==> (#[trigger] rep.balances[r]).len()
                == rep.tokens.len()
        }),
{
    lemma_first_seen_complete(recs);
}

/// Some record of token `t` comes before every record of token `u`.
pub open spec fn appears_before(recs: Seq<UtxoRecord>, t: Seq<char>, u: Seq<char>) -> bool {
    exists|i: int|
        0 <= i < recs.len() && token_of(#[trigger] recs[i]) == t && forall|j: int|
            0 <= j <= i ==> token_of(#[trigger] recs[j]) != u
}

/// Tokens are listed in order of first appearance: each listed token occurs
/// in the records before any record of a token listed after it.
pub proof fn lemma_first_appearance_order(recs: Seq<UtxoRecord>)
    ensures
        forall|c: int, d: int|
            0 <= c < d < first_seen(recs).len() ==> #[trigger] appears_before(
                recs,
                first_seen(recs)[c],
                first_seen(recs)[d],
            ),
    decreases recs.len(),
{
    if recs.len() > 0 {
        let p = recs.drop_last();
        let last = token_of(recs.last());
        let fs = first_seen(recs);
        let fp = first_seen(p);
        lemma_first_appearance_order(p);
        lemma_first_seen_complete(p);
        assert forall|c: int, d: int| 0 <= c < d < fs.len() implies #[trigger] appears_before(
            recs,
            fs[c],
            fs[d],
        ) by {
            assert(fp.contains(fp[c]));
            assert(fs[c] == fp[c]);
            if d < fp.len() {
                assert(appears_before(p, fp[c], fp[d]));
                let i = choose|i: int|
                    0 <= i < p.len() && token_of(#[trigger] p[i]) == fp[c] && forall|j: int|
                        0 <= j <= i ==> token_of(#[trigger] p[j]) != fp[d];
                assert(recs[i] == p[i]);
                assert forall|j: int| 0 <= j <= i implies token_of(#[trigger] recs[j]) != fs[d] by {
                    assert(recs[j] == p[j]);
                }
            } else {
                let i = choose|i: int| 0 <= i < p.len() && token_of(#[trigger] p[i]) == fp[c];
                assert(recs[i] == p[i]);
                assert(fs[d] == last);
                assert forall|j: int| 0 <= j <= i implies token_of(#[trigger] recs[j]) != fs[d] by {
                    assert(recs[j] == p[j]);
                    assert(fp.contains(token_of(p[j])));
                }
            }
        }
    }
}

/// The outcome depends on the records and bounds alone, and the reported
/// tokens are the records' distinct token ids in order of first appearance.
pub proof fn lemma_deterministic(
    a: Seq<UtxoRecord>,
    b: Seq<UtxoRecord>,
    block_start: u32,
    block_end: u32,
    max_cells: u64,
)
    requires
        a == b,
    ensures
        outcome(a, block_start, block_end, max_cells) == outcome(b, block_start, block_end, max_cells),
        outcome(a, block_start, block_end, max_cells) is Ok ==> outcome(
            a,
            block_start,
            block_end,
            max_cells,
        )->Ok_0.tokens == first_seen(a),
{
}

/// A request whose block range times its number of distinct tokens exceeds
/// the cell limit fails with `ComplexityExceeded`, whatever its records'
/// balances and blocks hold.
pub proof fn lemma_complexity_gate(
    recs: Seq<UtxoRecord>,
    block_start: u32,
    block_end: u32,
    max_cells: u64,
)
    requires
        recs.len() > 0,
        recs[0].address is Some,
        first_missing_token(recs) is None,
        (block_end - block_start) * first_seen(recs).len() > max_cells,
    ensures
        outcome(recs, block_start, block_end, max_cells) == Err::<ReportModel, BalanceError>(
            BalanceError::ComplexityExceeded,
        ),
{
}

/// A request whose first record has no address fails with `MissingAddress`,
/// whatever the later records hold.
pub proof fn lemma_missing_address(
    recs: Seq<UtxoRecord>,
    block_start: u32,
    block_end: u32,
    max_cells: u64,
)
    requires
        recs.len() > 0,
        recs[0].address is None,
    ensures
        outcome(recs, block_start, block_end, max_cells) == Err::<ReportModel, BalanceError>(
            BalanceError::MissingAddress,
        ),
{
}

} // verus!
