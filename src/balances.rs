//! Building the token index and accumulating per-block balances.
use vstd::prelude::*;
use crate::decimal::parse_u128;
use crate::ledger::{
    balance_of, created_of, first_missing_token, first_seen, lemma_first_missing_none,
    lemma_first_missing_prefix, lemma_first_seen_complete, lemma_run_error_prefix, outcome,
    record_error, report_of, run_error, token_of, total, window_end, MAX_COMPLEXITY,
};
use crate::record::{strings_view, BalanceError, BalanceReport, ReportModel, SpentField, UtxoRecord};

verus! {

/// The position of the first id in `ids` equal to `t`.
fn position_of(ids: &Vec<String>, t: &String) -> (r: Option<usize>)
    ensures
        match r {
            Some(k) => k < ids.len() && ids@[k as int]@ == t@,
            None => !strings_view(ids@).contains(t@),
        },
{
    let mut k: usize = 0;
    while k < ids.len()
        invariant
            k <= ids.len(),
            forall|j: int| 0 <= j < k ==> ids@[j]@ != t@,
        decreases ids.len() - k,
    {
        if ids[k] == *t {
            return Some(k);
        }
        k += 1;
    }
    proof {
        if strings_view(ids@).contains(t@) {
            let j = choose|j: int| 0 <= j < ids.len() && strings_view(ids@)[j] == t@;
            assert(ids@[j]@ == t@);
        }
    }
    None
}

/// The distinct token ids of the records in order of first appearance, or
/// the position of the first record without one.
pub fn build_token_index(recs: &Vec<UtxoRecord>) -> (r: Result<Vec<String>, BalanceError>)
    ensures
        match r {
            Ok(ids) => first_missing_token(recs@) is None && strings_view(ids@) == first_seen(
                recs@,
            ),
            Err(e) => first_missing_token(recs@) is Some && e == BalanceError::MissingField(
                first_missing_token(recs@)->0 as usize,
            ),
        },
{
    let mut ids: Vec<String> = Vec::new();
    let mut i: usize = 0;
    while i < recs.len()
        invariant
            i <= recs.len(),
            first_missing_token(recs@.subrange(0, i as int)) is None,
            strings_view(ids@) == first_seen(recs@.subrange(0, i as int)),
        decreases recs.len() - i,
    {
        let ghost pre = recs@.subrange(0, i as int);
        let ghost cur = recs@.subrange(0, i as int + 1);
        assert(cur.drop_last() =~= pre);
        match &recs[i].token_protocol_id {
            None => {
                proof {
                    lemma_first_missing_prefix(recs@, i as int + 1);
                }
                return Err(BalanceError::MissingField(i));
            },
            Some(t) => match position_of(&ids, t) {
                Some(k) => {
                    assert(strings_view(ids@)[k as int] == t@);
                },
                None => {
                    let ghost before = ids@;
                    ids.push(t.clone());
                    assert(strings_view(ids@) =~= strings_view(before).push(t@));
                },
            },
        }
        i += 1;
    }
    assert(recs@.subrange(0, recs.len() as int) =~= recs@);
    Ok(ids)
}

/// A `rows` by `cols` matrix of zeros.
fn zero_matrix(rows: u32, cols: usize) -> (m: Vec<Vec<u128>>)
    ensures
        m.len() == rows,
        forall|r: int| 0 <= r < rows ==> (#[trigger] m@[r]).len() == cols,
        forall|r: int, c: int| 0 <= r < rows && 0 <= c < cols ==> #[trigger] m@[r]@[c] == 0,
{
    let mut m: Vec<Vec<u128>> = Vec::new();
    let mut r: u32 = 0;
    while r < rows
        invariant
            r <= rows,
            m.len() == r,
            forall|i: int| 0 <= i < r ==> (#[trigger] m@[i]).len() == cols,
            forall|i: int, c: int| 0 <= i < r && 0 <= c < cols ==> #[trigger] m@[i]@[c] == 0,
        decreases rows - r,
    {
        let mut row: Vec<u128> = Vec::new();
        let mut c: usize = 0;
        while c < cols
            invariant
                c <= cols,
                row.len() == c,
                forall|j: int| 0 <= j < c ==> row@[j] == 0,
            decreases cols - c,
        {
            row.push(0);
            c += 1;
        }
        m.push(row);
        r += 1;
    }
    m
}

/// Checks the record at position `i` and returns its balance, creation block
/// and the end of its window.
pub fn check_record(rec: &UtxoRecord, i: usize, block_start: u32, block_end: u32) -> (r: Result<
    (u128, u32, u32),
    BalanceError,
>)
    ensures
        match r {
            Ok((bal, created, wend)) => record_error(*rec, i as int, block_start, block_end) is None
                && bal == balance_of(*rec) && created == created_of(*rec) && wend == window_end(
                *rec,
                block_end,
            ),
            Err(e) => record_error(*rec, i as int, block_start, block_end) == Some(e),
        },
{
    let bal = match &rec.balance {
        None => {
            return Err(BalanceError::InvalidBalance(i));
        },
        Some(s) => match parse_u128(s.as_str()) {
            None => {
                return Err(BalanceError::InvalidBalance(i));
            },
            Some(v) => v,
        },
    };
    let created: u32 = match rec.block {
        None => {
            return Err(BalanceError::InvalidBlock(i));
        },
        Some(b) => {
            if b > u32::MAX as u64 {
                return Err(BalanceError::InvalidBlock(i));
            }
            b as u32
        },
    };
    let wend: u32 = match rec.block_spent {
        SpentField::Absent => block_end,
        SpentField::Height(h) => {
            if h > u32::MAX as u64 {
                return Err(BalanceError::InvalidBlockSpent(i));
            }
            if (h as u32) < block_end {
                h as u32
            } else {
                block_end
            }
        },
        SpentField::Malformed => {
            return Err(BalanceError::InvalidBlockSpent(i));
        },
    };
    if created < block_start || created >= block_end {
        return Err(BalanceError::IndexOutOfBounds(i));
    }
    Ok((bal, created, wend))
}

/// Adds `bal` to column `col` of every row whose block lies in `[from, to)`;
/// row `r` stands for block `block_start + r`. Returns `false` where some
/// cell would overflow, and the matrix is then of no further use.
fn add_window(
    m: &mut Vec<Vec<u128>>,
    col: usize,
    from: u32,
    to: u32,
    block_start: u32,
    bal: u128,
) -> (ok: bool)
    requires
        block_start <= from,
        to <= block_start + old(m).len(),
        forall|r: int| 0 <= r < old(m).len() ==> col < (#[trigger] old(m)@[r]).len(),
    ensures
        final(m).len() == old(m).len(),
        forall|r: int| 0 <= r < old(m).len() ==> (#[trigger] final(m)@[r]).len() == old(m)@[r].len(),
        ok ==> forall|r: int, c: int|
            0 <= r < old(m).len() && 0 <= c < old(m)@[r].len() ==> #[trigger] final(m)@[r]@[c]
                == old(m)@[r]@[c] + if c == col && from <= block_start + r < to {
                bal as int
            } else {
                0int
            },
        !ok ==> exists|r: int|
            from <= block_start + r < to && #[trigger] old(m)@[r]@[col as int] + bal > u128::MAX,
{
    let mut b: u32 = from;
    while b < to
        invariant
            from <= b,
            from <= to ==> b <= to,
            to < from ==> b == from,
            block_start <= from,
            to <= block_start + old(m).len(),
            m.len() == old(m).len(),
            forall|r: int| 0 <= r < old(m).len() ==> col < (#[trigger] old(m)@[r]).len(),
            forall|r: int| 0 <= r < old(m).len() ==> (#[trigger] m@[r]).len() == old(m)@[r].len(),
            forall|r: int, c: int|
                0 <= r < old(m).len() && 0 <= c < old(m)@[r].len() ==> #[trigger] m@[r]@[c]
                    == old(m)@[r]@[c] + if c == col && from <= block_start + r < b {
                    bal as int
                } else {
                    0int
                },
        decreases to - b,
    {
        let row = (b - block_start) as usize;
        match m[row][col].checked_add(bal) {
            None => {
                return false;
            },
            Some(v) => {
                m[row][col] = v;
            },
        }
        b += 1;
    }
    true
}

/// The balance report of `recs` over `[block_start, block_end)`, refusing
/// requests of more than `max_cells` block-token cells before any work.
pub fn process_utxo_balances(
    recs: &Vec<UtxoRecord>,
    block_start: u32,
    block_end: u32,
    max_cells: u64,
) -> (r: Result<BalanceReport, BalanceError>)
    requires
        block_start <= block_end,
    ensures
        match r {
            Ok(rep) => outcome(recs@, block_start, block_end, max_cells) == Ok::<
                ReportModel,
                BalanceError,
            >(rep@),
            Err(e) => outcome(recs@, block_start, block_end, max_cells) == Err::<
                ReportModel,
                BalanceError,
            >(e),
        },
{
    if recs.len() == 0 {
        return Err(BalanceError::MissingAddress);
    }
    let address = match &recs[0].address {
        None => {
            return Err(BalanceError::MissingAddress);
        },
        Some(a) => a.clone(),
    };
    let ids = match build_token_index(recs) {
        Err(e) => {
            return Err(e);
        },
        Ok(ids) => ids,
    };
    let range: u32 = block_end - block_start;
    assert((range as u128) * (ids.len() as u128) <= u128::MAX) by (nonlinear_arith)
        requires
            range <= u32::MAX,
            ids.len() <= u64::MAX,
    ;
    if (range as u128) * (ids.len() as u128) > max_cells as u128 {
        return Err(BalanceError::ComplexityExceeded);
    }
    let ghost tokens = strings_view(ids@);
    assert(tokens.len() == ids.len());
    assert(!((block_end - block_start) * first_seen(recs@).len() > max_cells));
    proof {
        lemma_first_seen_complete(recs@);
        lemma_first_missing_none(recs@);
    }
    let mut m = zero_matrix(range, ids.len());
    let mut i: usize = 0;
    while i < recs.len()
        invariant
            i <= recs.len(),
            block_start <= block_end,
            range == block_end - block_start,
            tokens == strings_view(ids@),
            tokens == first_seen(recs@),
            tokens.no_duplicates(),
            recs.len() > 0,
            recs@[0].address is Some,
            first_missing_token(recs@) is None,
            !((block_end - block_start) * first_seen(recs@).len() > max_cells),
            forall|j: int| 0 <= j < recs.len() ==> tokens.contains(token_of(#[trigger] recs@[j])),
            forall|j: int| 0 <= j < recs.len() ==> (#[trigger] recs@[j]).token_protocol_id is Some,
            m.len() == range,
            forall|r: int| 0 <= r < range ==> (#[trigger] m@[r]).len() == ids.len(),
            run_error(recs@.subrange(0, i as int), block_start, block_end) is None,
            forall|r: int, c: int|
                0 <= r < range && 0 <= c < ids.len() ==> #[trigger] m@[r]@[c] as int == total(
                    recs@.subrange(0, i as int),
                    tokens[c],
                    block_start + r,
                    block_end,
                ),
        decreases recs.len() - i,
    {
        let ghost pre = recs@.subrange(0, i as int);
        let ghost cur = recs@.subrange(0, i as int + 1);
        assert(cur.drop_last() =~= pre);
        assert(cur.last() == recs@[i as int]);
        let rec = &recs[i];
        let (bal, created, wend) = match check_record(rec, i, block_start, block_end) {
            Err(e) => {
                proof {
                    assert(run_error(cur, block_start, block_end) == Some(e));
                    lemma_run_error_prefix(recs@, i as int + 1, block_start, block_end);
                }
                return Err(e);
            },
            Ok(t) => t,
        };
        let t = match &rec.token_protocol_id {
            None => {
                return Err(BalanceError::UnknownToken(i));
            },
            Some(t) => t,
        };
        let col = match position_of(&ids, t) {
            None => {
                assert(tokens.contains(token_of(recs@[i as int])));
                return Err(BalanceError::UnknownToken(i));
            },
            Some(c) => c,
        };
        assert(tokens[col as int] == token_of(recs@[i as int]));
        let ghost before = m@;
        if !add_window(&mut m, col, created, wend, block_start, bal) {
            proof {
                let r = choose|r: int|
                    created <= block_start + r < wend && #[trigger] before[r]@[col as int] + bal
                        > u128::MAX;
                assert(total(cur, token_of(recs@[i as int]), block_start + r, block_end)
                    > u128::MAX);
                lemma_run_error_prefix(recs@, i as int + 1, block_start, block_end);
            }
            return Err(BalanceError::BalanceOverflow(i));
        }
        proof {
            assert forall|r: int, c: int|
                0 <= r < range && 0 <= c < ids.len() implies #[trigger] m@[r]@[c] as int == total(
                    cur,
                    tokens[c],
                    block_start + r,
                    block_end,
                ) by {
                if c != col {
                    assert(tokens[c] != tokens[col as int]);
                }
            }
            assert forall|b: int|
                created_of(recs@[i as int]) <= b < window_end(recs@[i as int], block_end) implies
                #[trigger] total(cur, token_of(cur.last()), b, block_end) <= u128::MAX by {
                assert(m@[b - block_start]@[col as int] as int == total(cur, tokens[col as int], b, block_end));
            }
        }
        i += 1;
    }
    assert(recs@.subrange(0, recs.len() as int) =~= recs@);
    let rep = BalanceReport { address, block_start, tokens: ids, balances: m };
    proof {
        let want = report_of(recs@, block_start, block_end);
        assert forall|r: int| 0 <= r < range implies #[trigger] rep@.balances[r] =~= want.balances[r] by {
        }
        assert(rep@.balances =~= want.balances);
    }
    Ok(rep)
}

/// The balance report of `recs` over `[block_start, block_end)` under the
/// default cell limit.
pub fn process_many_utxo_balances(recs: &Vec<UtxoRecord>, block_start: u32, block_end: u32) -> (r:
    Result<BalanceReport, BalanceError>)
    requires
        block_start <= block_end,
    ensures
        match r {
            Ok(rep) => outcome(recs@, block_start, block_end, MAX_COMPLEXITY) == Ok::<
                ReportModel,
                BalanceError,
            >(rep@),
            Err(e) => outcome(recs@, block_start, block_end, MAX_COMPLEXITY) == Err::<
                ReportModel,
                BalanceError,
            >(e),
        },
{
    process_utxo_balances(recs, block_start, block_end, MAX_COMPLEXITY)
}

} // verus!
