//! The report as text: every block height and balance in decimal.
use vstd::prelude::*;
use crate::decimal::{all_digits, decimal_u128, digit_value, digits_value, is_digit, literal_digits};
use crate::balances::process_many_utxo_balances;
use crate::ledger::{outcome, MAX_COMPLEXITY};
use crate::record::{BalanceError, BalanceReport, ReportModel, UtxoRecord};

verus! {

/// The decimal digit of `k`, for `0 <= k < 10`.
pub open spec fn digit_char(k: nat) -> char {
    ((('0' as u32) + k) as u32) as char
}

/// The decimal text of `n`: its digits without sign or leading zeros.
pub open spec fn decimal_text(n: nat) -> Seq<char>
    decreases n,
{
    if n < 10 {
        seq![digit_char(n)]
    } else {
        decimal_text(n / 10).push(digit_char(n % 10))
    }
}

/// Relies on `ToString` through `Display` for `u128`: plain decimal
/// digits, with no sign and no leading zeros.
#[verifier::external_body]
fn u128_text(v: u128) -> (r: String)
    ensures
        r@ == decimal_text(v as nat),
{
    v.to_string()
}

proof fn lemma_decimal_text_digits(n: nat)
    ensures
        all_digits(decimal_text(n)),
        decimal_text(n).len() > 0,
        digits_value(decimal_text(n)) == n,
    decreases n,
{
    let k = (n % 10) as nat;
    assert(is_digit(digit_char(k)) && digit_value(digit_char(k)) == k);
    if n < 10 {
        let t = decimal_text(n);
        assert(t.drop_last() =~= Seq::<char>::empty());
        assert(digits_value(Seq::<char>::empty()) == 0);
        assert(t.last() == digit_char(k));
    } else {
        lemma_decimal_text_digits(n / 10);
        let t = decimal_text(n);
        assert(t.drop_last() =~= decimal_text(n / 10));
        assert(t.last() == digit_char(k));
        assert(n == 10 * (n / 10) + k);
        assert forall|i: int| 0 <= i < t.len() implies is_digit(#[trigger] t[i]) by {
            if i < t.len() - 1 {
                assert(t[i] == decimal_text(n / 10)[i]);
            }
        }
    }
}

/// Rendering a balance as decimal text and reading it back gives the
/// balance.
pub proof fn lemma_decimal_round_trip(v: u128)
    ensures
        decimal_u128(decimal_text(v as nat)) == Some(v),
{
    let t = decimal_text(v as nat);
    lemma_decimal_text_digits(v as nat);
    assert(is_digit(t[0]));
    assert(literal_digits(t) == t);
}

/// One token's balance at one block.
pub struct TokenBalance {
    pub token_protocol_id: String,
    pub balance: String,
}

/// The balances of every token at one block.
pub struct BlockBalances {
    pub block: String,
    pub balances: Vec<TokenBalance>,
}

/// A balance report with every number in decimal text.
pub struct RenderedReport {
    pub address: String,
    pub blocks: Vec<BlockBalances>,
}

/// A report whose rows each hold one balance per token, for blocks that
/// fit in 32 bits.
pub open spec fn well_formed(rep: BalanceReport) -> bool {
    &&& rep.block_start + rep.balances.len() <= u32::MAX + 1
    &&& forall|r: int| 0 <= r < rep.balances.len() ==> (#[trigger] rep.balances@[r]).len()
        == rep.tokens.len()
}

/// Renders the report: one entry per block, in order, each listing every
/// token in the report's order with its balance in decimal.
pub fn render_report(rep: &BalanceReport) -> (out: RenderedReport)
    requires
        well_formed(*rep),
    ensures
        out.address@ == rep.address@,
        out.blocks.len() == rep.balances.len(),
        forall|r: int|
            0 <= r < out.blocks.len() ==> {
                let blk = #[trigger] out.blocks@[r];
                &&& blk.block@ == decimal_text((rep.block_start + r) as nat)
                &&& blk.balances.len() == rep.tokens.len()
                &&& forall|c: int|
                    0 <= c < rep.tokens.len() ==> (#[trigger] blk.balances@[c]).token_protocol_id@
                        == rep.tokens@[c]@ && blk.balances@[c].balance@ == decimal_text(
                        rep.balances@[r]@[c] as nat,
                    )
            },
{
    let mut blocks: Vec<BlockBalances> = Vec::new();
    let mut r: usize = 0;
    while r < rep.balances.len()
        invariant
            well_formed(*rep),
            r <= rep.balances.len(),
            blocks.len() == r,
            forall|i: int|
                0 <= i < r ==> {
                    let blk = #[trigger] blocks@[i];
                    &&& blk.block@ == decimal_text((rep.block_start + i) as nat)
                    &&& blk.balances.len() == rep.tokens.len()
                    &&& forall|c: int|
                        0 <= c < rep.tokens.len() ==> (#[trigger] blk.balances@[c]).token_protocol_id@
                            == rep.tokens@[c]@ && blk.balances@[c].balance@ == decimal_text(
                            rep.balances@[i]@[c] as nat,
                        )
                },
        decreases rep.balances.len() - r,
    {
        let row = &rep.balances[r];
        let mut entries: Vec<TokenBalance> = Vec::new();
        let mut c: usize = 0;
        while c < rep.tokens.len()
            invariant
                row.len() == rep.tokens.len(),
                row@ == rep.balances@[r as int]@,
                c <= rep.tokens.len(),
                entries.len() == c,
                forall|j: int|
                    0 <= j < c ==> (#[trigger] entries@[j]).token_protocol_id@ == rep.tokens@[j]@
                        && entries@[j].balance@ == decimal_text(row@[j] as nat),
            decreases rep.tokens.len() - c,
        {
            entries.push(
                TokenBalance { token_protocol_id: rep.tokens[c].clone(), balance: u128_text(row[c]) },
            );
            c += 1;
        }
        let height = (rep.block_start as u128) + (r as u128);
        blocks.push(BlockBalances { block: u128_text(height), balances: entries });
        r += 1;
    }
    RenderedReport { address: rep.address.clone(), blocks }
}

/// The balance report of `recs` over `[block_start, block_end)` under the
/// default cell limit, with every number in decimal text.
pub fn process_many_utxo_balances_text(recs: &Vec<UtxoRecord>, block_start: u32, block_end: u32) -> (r:
    Result<RenderedReport, BalanceError>)
    requires
        block_start <= block_end,
    ensures
        match r {
            Err(e) => outcome(recs@, block_start, block_end, MAX_COMPLEXITY) == Err::<
                ReportModel,
                BalanceError,
            >(e),
            Ok(out) => outcome(recs@, block_start, block_end, MAX_COMPLEXITY) is Ok && {
                let m = outcome(recs@, block_start, block_end, MAX_COMPLEXITY)->Ok_0;
                &&& out.address@ == m.address
                &&& out.blocks.len() == block_end - block_start
                &&& forall|r: int|
                    0 <= r < out.blocks.len() ==> {
                        let blk = #[trigger] out.blocks@[r];
                        &&& blk.block@ == decimal_text((block_start + r) as nat)
                        &&& blk.balances.len() == m.tokens.len()
                        &&& forall|c: int|
                            0 <= c < m.tokens.len() ==> (#[trigger] blk.balances@[c]).token_protocol_id@
                                == m.tokens[c] && blk.balances@[c].balance@ == decimal_text(
                                m.balances[r][c] as nat,
                            )
                    }
            },
        },
{
    match process_many_utxo_balances(recs, block_start, block_end) {
        Err(e) => Err(e),
        Ok(rep) => {
            proof {
                assert(rep@.balances.len() == rep.balances.len());
                assert(rep@.tokens.len() == rep.tokens.len());
                assert forall|r: int| 0 <= r < rep.balances.len() implies (
                #[trigger] rep.balances@[r]).len() == rep.tokens.len() by {
                    assert(rep@.balances[r].len() == rep.balances@[r].len());
                }
                assert forall|r: int, c: int|
                    0 <= r < rep.balances.len() && 0 <= c < rep.tokens.len() implies #[trigger] rep@.balances[r][c]
                        == rep.balances@[r]@[c] as int && rep@.tokens[c] == rep.tokens@[c]@ by {
                    assert(rep@.balances[r] == crate::record::row_view(rep.balances@[r]));
                }
            }
            Ok(render_report(&rep))
        },
    }
}

} // verus!
