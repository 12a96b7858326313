//! Building a configuration from the rows of trial balances.
use vstd::prelude::*;

use crate::balancer::str_eq;
use crate::date::Date;
use crate::schema::{
    bs_view, is_view, AccountType, BalanceSheetAccount, BalanceSheetAccountModel, BalanceSheetSnapshot,
    FinancialHistoryConfig, IncomeStatementAccount, IncomeStatementAccountModel,
    InterpolationMethod, PeriodConstraint, SeasonalityModel, SeasonalityProfileId, SourceMetadata,
};
use crate::text::{padded_decimal, push_padded_decimal, push_year, seq_lt, str_lt, year_text};

verus! {

/// One line of a trial balance: a year-to-date figure of an account at a date.
#[derive(Debug)]
pub struct TrialBalanceRow<V> {
    pub account_name: String,
    pub account_type: AccountType,
    pub date: Date,
    pub ytd_value: V,
    pub source_doc: String,
}

/// The source reference of a figure taken from document `doc`.
pub open spec fn doc_source(doc: String) -> Option<SourceMetadata> {
    Some(SourceMetadata { document_name: doc, original_text: None })
}

/// The rows that feed the balance sheet account named `n`, in order.
pub open spec fn bs_rows_named<V>(rows: Seq<TrialBalanceRow<V>>, n: Seq<char>) -> Seq<TrialBalanceRow<V>>
    decreases rows.len(),
{
    if rows.len() == 0 {
        rows
    } else {
        let r = bs_rows_named(rows.drop_last(), n);
        let last = rows.last();
        if last.account_type.is_balance_sheet_type() && last.account_name@ == n { r.push(last) } else { r }
    }
}

/// The rows that feed the income statement account named `n`, in order.
pub open spec fn is_rows_named<V>(rows: Seq<TrialBalanceRow<V>>, n: Seq<char>) -> Seq<TrialBalanceRow<V>>
    decreases rows.len(),
{
    if rows.len() == 0 {
        rows
    } else {
        let r = is_rows_named(rows.drop_last(), n);
        let last = rows.last();
        if !last.account_type.is_balance_sheet_type() && last.account_name@ == n { r.push(last) } else { r }
    }
}

/// The snapshot a balance sheet row becomes.
pub open spec fn row_snapshot<V>(row: TrialBalanceRow<V>) -> BalanceSheetSnapshot<V> {
    BalanceSheetSnapshot { date: row.date, value: row.ytd_value, source: doc_source(row.source_doc) }
}

/// A month as the chrono `%Y-%m` specifiers write it.
pub open spec fn year_month_text(y: int, m: int) -> Seq<char> {
    year_text(y) + "-"@ + padded_decimal(m as nat, 2)
}

/// The period of a year-to-date figure at `d`: from January of its year to
/// its month, written `YYYY-01:YYYY-MM`.
pub open spec fn ytd_period_text(d: Date) -> Seq<char> {
    year_month_text(d.year as int, 1) + ":"@ + year_month_text(d.year as int, d.month as int)
}

/// The balance sheet account built from `rows` (not empty), named `n`: the
/// type of its first row and one snapshot per row.
pub open spec fn bs_group<V>(rows: Seq<TrialBalanceRow<V>>, n: Seq<char>, zero: V) -> BalanceSheetAccountModel<V> {
    BalanceSheetAccountModel {
        name: n,
        category: None,
        account_type: rows[0].account_type,
        method: InterpolationMethod::Linear,
        snapshots: rows.map_values(|row: TrialBalanceRow<V>| row_snapshot(row)),
        is_balancing_account: false,
        noise_factor: zero,
    }
}

/// The income statement account built from `rows` (not empty), named `n`:
/// the type of its first row, a flat profile and one constraint per row.
pub open spec fn is_group_matches<V>(rows: Seq<TrialBalanceRow<V>>, n: Seq<char>, zero: V, acc: IncomeStatementAccountModel<V>) -> bool {
    &&& acc.name == n
    &&& acc.account_type == rows[0].account_type
    &&& acc.seasonality_profile == SeasonalityModel::<V>::Flat
    &&& acc.noise_factor == zero
    &&& acc.constraints.len() == rows.len()
    &&& forall|k: int| 0 <= k < rows.len() ==> {
        let c = #[trigger] acc.constraints[k];
        &&& c.period@ == ytd_period_text(rows[k].date)
        &&& c.value == rows[k].ytd_value
        &&& c.source == doc_source(rows[k].source_doc)
    }
}

/// Names strictly increase along the accounts.
pub open spec fn bs_names_increase<V>(s: Seq<BalanceSheetAccountModel<V>>) -> bool {
    forall|i: int, j: int| 0 <= i < j < s.len() ==> seq_lt(#[trigger] s[i].name, #[trigger] s[j].name)
}

/// Names strictly increase along the accounts.
pub open spec fn is_names_increase<V>(s: Seq<IncomeStatementAccountModel<V>>) -> bool {
    forall|i: int, j: int| 0 <= i < j < s.len() ==> seq_lt(#[trigger] s[i].name, #[trigger] s[j].name)
}

/// Some balance sheet account of `s` is named `n`.
pub open spec fn bs_has_name<V>(s: Seq<BalanceSheetAccountModel<V>>, n: Seq<char>) -> bool {
    exists|k: int| 0 <= k < s.len() && (#[trigger] s[k]).name == n
}

/// Some income statement account of `s` is named `n`.
pub open spec fn is_has_name<V>(s: Seq<IncomeStatementAccountModel<V>>, n: Seq<char>) -> bool {
    exists|k: int| 0 <= k < s.len() && (#[trigger] s[k]).name == n
}

/// `bs` holds one account per name that balance sheet rows carry, in name
/// order, each built from its rows.
pub open spec fn bs_from_rows<V>(rows: Seq<TrialBalanceRow<V>>, bs: Seq<BalanceSheetAccountModel<V>>, zero: V) -> bool {
    &&& bs_names_increase(bs)
    &&& forall|n: Seq<char>| #[trigger] bs_has_name(bs, n) <==> bs_rows_named(rows, n).len() > 0
    &&& forall|k: int| 0 <= k < bs.len() ==> #[trigger] bs[k] == bs_group(bs_rows_named(rows, bs[k].name), bs[k].name, zero)
}

/// `is` holds one account per name that income statement rows carry, in name
/// order, each built from its rows.
pub open spec fn is_from_rows<V>(rows: Seq<TrialBalanceRow<V>>, is: Seq<IncomeStatementAccountModel<V>>, zero: V) -> bool {
    &&& is_names_increase(is)
    &&& forall|n: Seq<char>| #[trigger] is_has_name(is, n) <==> is_rows_named(rows, n).len() > 0
    &&& forall|k: int| 0 <= k < is.len() ==> #[trigger] is_group_matches(is_rows_named(rows, is[k].name), is[k].name, zero, is[k])
}

/// The period of a year-to-date figure at `d`, written `YYYY-01:YYYY-MM`.
fn ytd_period_string(d: &Date) -> (r: String)
    requires
        1 <= d.month <= 12,
    ensures
        r@ == ytd_period_text(*d),
{
    let mut r = String::new();
    push_year(&mut r, d.year);
    r.append("-");
    push_padded_decimal(&mut r, 1, 2);
    r.append(":");
    push_year(&mut r, d.year);
    r.append("-");
    push_padded_decimal(&mut r, d.month as u64, 2);
    proof {
        reveal_strlit("-");
        reveal_strlit(":");
        assert(r@ =~= ytd_period_text(*d));
    }
    r
}

/// How the rows feeding each name change when one more row comes.
proof fn lemma_rows_named_push<V>(pre: Seq<TrialBalanceRow<V>>, row: TrialBalanceRow<V>)
    ensures
        forall|n: Seq<char>| #[trigger] bs_rows_named(pre.push(row), n) == if row.account_type.is_balance_sheet_type() && row.account_name@ == n {
            bs_rows_named(pre, n).push(row)
        } else {
            bs_rows_named(pre, n)
        },
        forall|n: Seq<char>| #[trigger] is_rows_named(pre.push(row), n) == if !row.account_type.is_balance_sheet_type() && row.account_name@ == n {
            is_rows_named(pre, n).push(row)
        } else {
            is_rows_named(pre, n)
        },
{
    assert(pre.push(row).drop_last() =~= pre);
}

/// Adds a balance sheet row to the accounts built from the rows before it.
fn insert_bs_row<V: Copy>(bs: &mut Vec<BalanceSheetAccount<V>>, row: &TrialBalanceRow<V>, Ghost(pre): Ghost<Seq<TrialBalanceRow<V>>>, zero: V)
    requires
        row.account_type.is_balance_sheet_type(),
        bs_from_rows(pre, bs_view(old(bs)@), zero),
    ensures
        bs_from_rows(pre.push(*row), bs_view(final(bs)@), zero),
{
    let ghost old_m = bs_view(bs@);
    let ghost post = pre.push(*row);
    let ghost rn = row.account_name@;
    proof {
        lemma_rows_named_push(pre, *row);
    }
    let mut p: usize = 0;
    while p < bs.len() && str_lt(bs[p].name.as_str(), row.account_name.as_str())
        invariant
            bs_view(bs@) == old_m,
            rn == row.account_name@,
            p <= bs.len(),
            forall|i: int| 0 <= i < p ==> seq_lt(#[trigger] old_m[i].name, rn),
        decreases bs.len() - p,
    {
        proof {
            assert(old_m[p as int] == bs@[p as int]@);
            assert(seq_lt(old_m[p as int].name, rn));
        }
        p = p + 1;
    }
    let snap = BalanceSheetSnapshot {
        date: row.date,
        value: row.ytd_value,
        source: Some(SourceMetadata { document_name: row.source_doc.clone(), original_text: None }),
    };
    if p < bs.len() && str_eq(bs[p].name.as_str(), row.account_name.as_str()) {
        let mut acc = bs.remove(p);
        let ghost before = acc@;
        acc.snapshots.push(snap);
        bs.insert(p, acc);
        proof {
            let g = bs_rows_named(pre, rn);
            assert(old_m[p as int] == before);
            assert(before == bs_group(g, rn, zero));
            assert(g.len() > 0) by {
                assert(bs_has_name(old_m, rn));
            }
            assert(g.push(*row)[0] == g[0]);
            assert(g.push(*row).map_values(|r: TrialBalanceRow<V>| row_snapshot(r))
                =~= g.map_values(|r: TrialBalanceRow<V>| row_snapshot(r)).push(row_snapshot(*row)));
            let new_m = bs_view(bs@);
            assert(new_m =~= old_m.update(p as int, acc@));
            assert(acc@ == bs_group(bs_rows_named(post, rn), rn, zero));
            assert forall|n: Seq<char>| #[trigger] bs_has_name(new_m, n) <==> bs_rows_named(post, n).len() > 0 by {
                if bs_has_name(new_m, n) {
                    let k = choose|k: int| 0 <= k < new_m.len() && (#[trigger] new_m[k]).name == n;
                    if k != p {
                        assert(old_m[k].name == n);
                        assert(bs_has_name(old_m, n));
                    }
                }
                if bs_has_name(old_m, n) {
                    let k = choose|k: int| 0 <= k < old_m.len() && (#[trigger] old_m[k]).name == n;
                    assert(new_m[k].name == n);
                }
            }
            assert forall|k: int| 0 <= k < new_m.len() implies #[trigger] new_m[k] == bs_group(bs_rows_named(post, new_m[k].name), new_m[k].name, zero) by {
                if k != p {
                    assert(new_m[k] == old_m[k]);
                    assert(old_m[k].name != rn) by {
                        if k < p {
                            assert(seq_lt(old_m[k].name, rn));
                            crate::text::lemma_seq_lt_irreflexive(rn);
                        } else {
                            assert(seq_lt(old_m[p as int].name, old_m[k].name));
                            crate::text::lemma_seq_lt_irreflexive(rn);
                        }
                    }
                }
            }
            assert(bs_names_increase(new_m)) by {
                assert forall|i: int, j: int| 0 <= i < j < new_m.len() implies seq_lt(#[trigger] new_m[i].name, #[trigger] new_m[j].name) by {
                    assert(new_m[i].name == old_m[i].name && new_m[j].name == old_m[j].name);
                }
            }
        }
    } else {
        let mut snaps: Vec<BalanceSheetSnapshot<V>> = Vec::new();
        snaps.push(snap);
        let acc = BalanceSheetAccount {
            name: row.account_name.clone(),
            category: None,
            account_type: row.account_type,
            method: InterpolationMethod::Linear,
            snapshots: snaps,
            is_balancing_account: false,
            noise_factor: zero,
        };
        bs.insert(p, acc);
        proof {
            let new_m = bs_view(bs@);
            assert(new_m =~= old_m.insert(p as int, acc@));
            assert(!bs_has_name(old_m, rn)) by {
                if bs_has_name(old_m, rn) {
                    let k = choose|k: int| 0 <= k < old_m.len() && (#[trigger] old_m[k]).name == rn;
                    crate::text::lemma_seq_lt_irreflexive(rn);
                    if k < p {
                        assert(seq_lt(old_m[k].name, rn));
                    } else if k > p {
                        assert(seq_lt(old_m[p as int].name, old_m[k].name));
                        crate::text::lemma_seq_lt_total(old_m[p as int].name, rn);
                        crate::text::lemma_seq_lt_transitive(rn, old_m[p as int].name, rn);
                    } else {
                        assert(old_m[p as int] == bs@[p as int]@);
                    }
                }
            }
            let g = bs_rows_named(pre, rn);
            assert(g.len() == 0);
            assert(g.push(*row) =~= seq![*row]);
            assert(seq![*row].map_values(|r: TrialBalanceRow<V>| row_snapshot(r)) =~= seq![row_snapshot(*row)]);
            assert(snaps@ =~= seq![row_snapshot(*row)]);
            assert(acc@ == bs_group(bs_rows_named(post, rn), rn, zero));
            if p < old_m.len() {
                assert(old_m[p as int] == bs@[p as int]@ || true);
            }
            assert forall|n: Seq<char>| #[trigger] bs_has_name(new_m, n) <==> bs_rows_named(post, n).len() > 0 by {
                if bs_has_name(new_m, n) {
                    let k = choose|k: int| 0 <= k < new_m.len() && (#[trigger] new_m[k]).name == n;
                    if k < p {
                        assert(old_m[k].name == n);
                        assert(bs_has_name(old_m, n));
                    } else if k > p {
                        assert(old_m[k - 1].name == n);
                        assert(bs_has_name(old_m, n));
                    }
                }
                if bs_has_name(old_m, n) {
                    let k = choose|k: int| 0 <= k < old_m.len() && (#[trigger] old_m[k]).name == n;
                    if k < p {
                        assert(new_m[k].name == n);
                    } else {
                        assert(new_m[k + 1].name == n);
                    }
                }
                if n == rn {
                    assert(new_m[p as int].name == n);
                }
            }
            assert forall|k: int| 0 <= k < new_m.len() implies #[trigger] new_m[k] == bs_group(bs_rows_named(post, new_m[k].name), new_m[k].name, zero) by {
                if k < p {
                    assert(new_m[k] == old_m[k]);
                    assert(old_m[k].name != rn);
                } else if k > p {
                    assert(new_m[k] == old_m[k - 1]);
                    assert(old_m[k - 1].name != rn) by {
                        assert(bs_has_name(old_m, old_m[k - 1].name));
                    }
                }
            }
            if p < old_m.len() {
                assert(old_m[p as int] == bs@[(p + 1) as int]@);
                crate::text::lemma_seq_lt_total(old_m[p as int].name, rn);
                assert(seq_lt(rn, old_m[p as int].name));
            }
            assert forall|q: int| p <= q < old_m.len() implies seq_lt(rn, #[trigger] old_m[q].name) by {
                if q > p {
                    crate::text::lemma_seq_lt_transitive(rn, old_m[p as int].name, old_m[q].name);
                }
            }
            assert(bs_names_increase(new_m)) by {
                assert forall|i: int, j: int| 0 <= i < j < new_m.len() implies seq_lt(#[trigger] new_m[i].name, #[trigger] new_m[j].name) by {
                    if j < p {
                        assert(new_m[i] == old_m[i] && new_m[j] == old_m[j]);
                    } else if j == p {
                        assert(new_m[i] == old_m[i]);
                    } else if i < p {
                        assert(new_m[i] == old_m[i] && new_m[j] == old_m[j - 1]);
                        assert(seq_lt(rn, old_m[j - 1].name));
                        crate::text::lemma_seq_lt_transitive(old_m[i].name, rn, old_m[j - 1].name);
                    } else if i == p {
                        assert(new_m[j] == old_m[j - 1]);
                        assert(seq_lt(rn, old_m[j - 1].name));
                    } else {
                        assert(new_m[i] == old_m[i - 1] && new_m[j] == old_m[j - 1]);
                    }
                }
            }
        }
    }
}

/// Adds an income statement row to the accounts built from the rows before
/// it.
fn insert_is_row<V: Copy>(bs: &mut Vec<IncomeStatementAccount<V>>, row: &TrialBalanceRow<V>, Ghost(pre): Ghost<Seq<TrialBalanceRow<V>>>, zero: V)
    requires
        !row.account_type.is_balance_sheet_type(),
        row.date.wf(),
        is_from_rows(pre, is_view(old(bs)@), zero),
    ensures
        is_from_rows(pre.push(*row), is_view(final(bs)@), zero),
{
    let ghost old_m = is_view(bs@);
    let ghost post = pre.push(*row);
    let ghost rn = row.account_name@;
    proof {
        lemma_rows_named_push(pre, *row);
    }
    let mut p: usize = 0;
    while p < bs.len() && str_lt(bs[p].name.as_str(), row.account_name.as_str())
        invariant
            is_view(bs@) == old_m,
            rn == row.account_name@,
            p <= bs.len(),
            forall|i: int| 0 <= i < p ==> seq_lt(#[trigger] old_m[i].name, rn),
        decreases bs.len() - p,
    {
        proof {
            assert(old_m[p as int] == bs@[p as int]@);
            assert(seq_lt(old_m[p as int].name, rn));
        }
        p = p + 1;
    }
    let c = PeriodConstraint {
        period: ytd_period_string(&row.date),
        value: row.ytd_value,
        source: Some(SourceMetadata { document_name: row.source_doc.clone(), original_text: None }),
    };
    if p < bs.len() && str_eq(bs[p].name.as_str(), row.account_name.as_str()) {
        let mut acc = bs.remove(p);
        let ghost before = acc@;
        acc.constraints.push(c);
        bs.insert(p, acc);
        proof {
            let g = is_rows_named(pre, rn);
            assert(old_m[p as int] == before);
            assert(before.name == rn);
            assert(is_group_matches(is_rows_named(pre, old_m[p as int].name), old_m[p as int].name, zero, old_m[p as int]));
            assert(is_group_matches(g, rn, zero, before));
            assert(g.len() > 0) by {
                assert(is_has_name(old_m, rn));
            }
            assert(g.push(*row)[0] == g[0]);
            assert forall|k: int| 0 <= k < g.len() + 1 implies {
                let cc = #[trigger] acc@.constraints[k];
                &&& cc.period@ == ytd_period_text(g.push(*row)[k].date)
                &&& cc.value == g.push(*row)[k].ytd_value
                &&& cc.source == doc_source(g.push(*row)[k].source_doc)
            } by {
                if k < g.len() {
                    assert(acc@.constraints[k] == before.constraints[k]);
                }
            }
            let new_m = is_view(bs@);
            assert(new_m =~= old_m.update(p as int, acc@));
            assert(is_group_matches(is_rows_named(post, rn), rn, zero, acc@));
            assert forall|n: Seq<char>| #[trigger] is_has_name(new_m, n) <==> is_rows_named(post, n).len() > 0 by {
                if is_has_name(new_m, n) {
                    let k = choose|k: int| 0 <= k < new_m.len() && (#[trigger] new_m[k]).name == n;
                    if k != p {
                        assert(old_m[k].name == n);
                        assert(is_has_name(old_m, n));
                    }
                }
                if is_has_name(old_m, n) {
                    let k = choose|k: int| 0 <= k < old_m.len() && (#[trigger] old_m[k]).name == n;
                    assert(new_m[k].name == n);
                }
            }
            assert forall|k: int| 0 <= k < new_m.len() implies #[trigger] is_group_matches(is_rows_named(post, new_m[k].name), new_m[k].name, zero, new_m[k]) by {
                if k != p {
                    assert(new_m[k] == old_m[k]);
                    assert(old_m[k].name != rn) by {
                        if k < p {
                            assert(seq_lt(old_m[k].name, rn));
                            crate::text::lemma_seq_lt_irreflexive(rn);
                        } else {
                            assert(seq_lt(old_m[p as int].name, old_m[k].name));
                            crate::text::lemma_seq_lt_irreflexive(rn);
                        }
                    }
                }
            }
            assert(is_names_increase(new_m)) by {
                assert forall|i: int, j: int| 0 <= i < j < new_m.len() implies seq_lt(#[trigger] new_m[i].name, #[trigger] new_m[j].name) by {
                    assert(new_m[i].name == old_m[i].name && new_m[j].name == old_m[j].name);
                }
            }
        }
    } else {
        let mut cons: Vec<PeriodConstraint<V>> = Vec::new();
        cons.push(c);
        let acc = IncomeStatementAccount {
            name: row.account_name.clone(),
            account_type: row.account_type,
            seasonality_profile: SeasonalityProfileId::Flat,
            constraints: cons,
            noise_factor: zero,
        };
        bs.insert(p, acc);
        proof {
            let new_m = is_view(bs@);
            assert(new_m =~= old_m.insert(p as int, acc@));
            assert(!is_has_name(old_m, rn)) by {
                if is_has_name(old_m, rn) {
                    let k = choose|k: int| 0 <= k < old_m.len() && (#[trigger] old_m[k]).name == rn;
                    crate::text::lemma_seq_lt_irreflexive(rn);
                    if k < p {
                        assert(seq_lt(old_m[k].name, rn));
                    } else if k > p {
                        assert(seq_lt(old_m[p as int].name, old_m[k].name));
                        crate::text::lemma_seq_lt_total(old_m[p as int].name, rn);
                        crate::text::lemma_seq_lt_transitive(rn, old_m[p as int].name, rn);
                    } else {
                        assert(old_m[p as int] == bs@[p as int]@);
                    }
                }
            }
            let g = is_rows_named(pre, rn);
            assert(g.len() == 0);
            assert(g.push(*row) =~= seq![*row]);
            assert(acc@.constraints[0] == c);
            assert(is_group_matches(is_rows_named(post, rn), rn, zero, acc@));
            assert forall|n: Seq<char>| #[trigger] is_has_name(new_m, n) <==> is_rows_named(post, n).len() > 0 by {
                if is_has_name(new_m, n) {
                    let k = choose|k: int| 0 <= k < new_m.len() && (#[trigger] new_m[k]).name == n;
                    if k < p {
                        assert(old_m[k].name == n);
                        assert(is_has_name(old_m, n));
                    } else if k > p {
                        assert(old_m[k - 1].name == n);
                        assert(is_has_name(old_m, n));
                    }
                }
                if is_has_name(old_m, n) {
                    let k = choose|k: int| 0 <= k < old_m.len() && (#[trigger] old_m[k]).name == n;
                    if k < p {
                        assert(new_m[k].name == n);
                    } else {
                        assert(new_m[k + 1].name == n);
                    }
                }
                if n == rn {
                    assert(new_m[p as int].name == n);
                }
            }
            assert forall|k: int| 0 <= k < new_m.len() implies #[trigger] is_group_matches(is_rows_named(post, new_m[k].name), new_m[k].name, zero, new_m[k]) by {
                if k < p {
                    assert(new_m[k] == old_m[k]);
                    assert(old_m[k].name != rn);
                } else if k > p {
                    assert(new_m[k] == old_m[k - 1]);
                    assert(old_m[k - 1].name != rn) by {
                        assert(is_has_name(old_m, old_m[k - 1].name));
                    }
                }
            }
            if p < old_m.len() {
                assert(old_m[p as int] == bs@[(p + 1) as int]@);
                crate::text::lemma_seq_lt_total(old_m[p as int].name, rn);
                assert(seq_lt(rn, old_m[p as int].name));
            }
            assert forall|q: int| p <= q < old_m.len() implies seq_lt(rn, #[trigger] old_m[q].name) by {
                if q > p {
                    crate::text::lemma_seq_lt_transitive(rn, old_m[p as int].name, old_m[q].name);
                }
            }
            assert(is_names_increase(new_m)) by {
                assert forall|i: int, j: int| 0 <= i < j < new_m.len() implies seq_lt(#[trigger] new_m[i].name, #[trigger] new_m[j].name) by {
                    if j < p {
                        assert(new_m[i] == old_m[i] && new_m[j] == old_m[j]);
                    } else if j == p {
                        assert(new_m[i] == old_m[i]);
                    } else if i < p {
                        assert(new_m[i] == old_m[i] && new_m[j] == old_m[j - 1]);
                        assert(seq_lt(rn, old_m[j - 1].name));
                        crate::text::lemma_seq_lt_transitive(old_m[i].name, rn, old_m[j - 1].name);
                    } else if i == p {
                        assert(new_m[j] == old_m[j - 1]);
                        assert(seq_lt(rn, old_m[j - 1].name));
                    } else {
                        assert(new_m[i] == old_m[i - 1] && new_m[j] == old_m[j - 1]);
                    }
                }
            }
        }
    }
}

/// Builds a configuration from trial balance rows: one balance sheet account
/// per name carried by asset, liability and equity rows, with one snapshot per
/// row; one income statement account per name carried by the other rows, with
/// one year-to-date constraint per row (from January of the row's year to its
/// month). Each account takes the type of its first row; accounts come in
/// name order and get `noise_factor`.
pub fn convert_tb_to_config<V: Copy>(
    rows: &Vec<TrialBalanceRow<V>>,
    organization_name: String,
    fiscal_year_end_month: u32,
    noise_factor: V,
) -> (r: FinancialHistoryConfig<V>)
    requires
        forall|k: int| 0 <= k < rows@.len() ==> (#[trigger] rows@[k]).date.wf(),
    ensures
        r@.organization_name == organization_name@,
        r@.fiscal_year_end_month == fiscal_year_end_month,
        bs_from_rows(rows@, r@.balance_sheet, noise_factor),
        is_from_rows(rows@, r@.income_statement, noise_factor),
{
    let mut bs: Vec<BalanceSheetAccount<V>> = Vec::new();
    let mut is: Vec<IncomeStatementAccount<V>> = Vec::new();
    proof {
        assert(rows@.take(0) =~= Seq::<TrialBalanceRow<V>>::empty());
        assert(bs_view(bs@) =~= Seq::<BalanceSheetAccountModel<V>>::empty());
        assert(is_view(is@) =~= Seq::<IncomeStatementAccountModel<V>>::empty());
    }
    for k in 0..rows.len()
        invariant
            forall|k: int| 0 <= k < rows@.len() ==> (#[trigger] rows@[k]).date.wf(),
            bs_from_rows(rows@.take(k as int), bs_view(bs@), noise_factor),
            is_from_rows(rows@.take(k as int), is_view(is@), noise_factor),
    {
        let row = &rows[k];
        let ghost pre = rows@.take(k as int);
        proof {
            assert(rows@.take(k + 1) =~= pre.push(*row));
            lemma_rows_named_push(pre, *row);
        }
        if row.account_type == AccountType::Asset || row.account_type == AccountType::Liability || row.account_type == AccountType::Equity {
            insert_bs_row(&mut bs, row, Ghost(pre), noise_factor);
            proof {
                let m = is_view(is@);
                assert forall|n: Seq<char>| #[trigger] is_has_name(m, n) <==> is_rows_named(pre.push(*row), n).len() > 0 by {
                    assert(is_rows_named(pre.push(*row), n) == is_rows_named(pre, n));
                }
                assert forall|j: int| 0 <= j < m.len() implies #[trigger] is_group_matches(is_rows_named(pre.push(*row), m[j].name), m[j].name, noise_factor, m[j]) by {
                    assert(is_rows_named(pre.push(*row), m[j].name) == is_rows_named(pre, m[j].name));
                }
            }
        } else {
            insert_is_row(&mut is, row, Ghost(pre), noise_factor);
            proof {
                let m = bs_view(bs@);
                assert forall|n: Seq<char>| #[trigger] bs_has_name(m, n) <==> bs_rows_named(pre.push(*row), n).len() > 0 by {
                    assert(bs_rows_named(pre.push(*row), n) == bs_rows_named(pre, n));
                }
                assert forall|j: int| 0 <= j < m.len() implies #[trigger] m[j] == bs_group(bs_rows_named(pre.push(*row), m[j].name), m[j].name, noise_factor) by {
                    assert(bs_rows_named(pre.push(*row), m[j].name) == bs_rows_named(pre, m[j].name));
                }
            }
        }
    }
    proof {
        assert(rows@.take(rows@.len() as int) =~= rows@);
    }
    FinancialHistoryConfig { organization_name, fiscal_year_end_month, balance_sheet: bs, income_statement: is }
}

/// Every year-to-date period starts in January of its date's year, whatever
/// the month: its text is the year, `-01:`, the year again, `-` and the
/// date's month in two digits.
pub proof fn law_ytd_period_starts_in_january(d: Date)
    requires
        1 <= d.month <= 12,
    ensures
        ytd_period_text(d) == year_text(d.year as int) + "-01:"@ + year_text(d.year as int) + "-"@ + padded_decimal(d.month as nat, 2),
{
    reveal_strlit("-01:");
    reveal_strlit("-");
    reveal_strlit(":");
    reveal_strlit("1");
    assert(padded_decimal(1, 2) =~= seq!['0', '1']);
    let y = year_text(d.year as int);
    assert(ytd_period_text(d) =~= y + "-01:"@ + y + "-"@ + padded_decimal(d.month as nat, 2));
}

/// Each row named `n` among the rows feeding an income statement account is a
/// row of the trial balance carrying that name.
proof fn lemma_is_rows_named_members<V>(rows: Seq<TrialBalanceRow<V>>, n: Seq<char>)
    ensures
        forall|j: int| 0 <= j < is_rows_named(rows, n).len() ==> rows.contains(#[trigger] is_rows_named(rows, n)[j])
            && is_rows_named(rows, n)[j].account_name@ == n,
    decreases rows.len(),
{
    if rows.len() > 0 {
        let pre = rows.drop_last();
        lemma_is_rows_named_members(pre, n);
        let r = is_rows_named(pre, n);
        assert forall|j: int| 0 <= j < is_rows_named(rows, n).len() implies rows.contains(#[trigger] is_rows_named(rows, n)[j])
            && is_rows_named(rows, n)[j].account_name@ == n by {
            if j < r.len() {
                assert(is_rows_named(rows, n)[j] == r[j]);
                assert(pre.contains(r[j]));
                let m = choose|m: int| 0 <= m < pre.len() && pre[m] == r[j];
                assert(rows[m] == r[j]);
            } else {
                assert(rows[rows.len() - 1] == rows.last());
            }
        }
    }
}

/// In a configuration built from trial balance rows, every income statement
/// constraint covers its row's year from January up to the row's month: the
/// `j`-th constraint of the `k`-th account comes from a row of the trial
/// balance with that account's name, and its period reads `YYYY-01:YYYY-MM`
/// for that row's date.
pub proof fn law_converted_periods_run_from_january<V>(rows: Seq<TrialBalanceRow<V>>, is: Seq<IncomeStatementAccountModel<V>>, zero: V, k: int, j: int)
    requires
        is_from_rows(rows, is, zero),
        forall|r: int| 0 <= r < rows.len() ==> (#[trigger] rows[r]).date.wf(),
        0 <= k < is.len(),
        0 <= j < is[k].constraints.len(),
    ensures
        ({
            let row = is_rows_named(rows, is[k].name)[j];
            &&& rows.contains(row)
            &&& row.account_name@ == is[k].name
            &&& is[k].constraints[j].period@ == year_text(row.date.year as int) + "-01:"@ + year_text(row.date.year as int) + "-"@
                + padded_decimal(row.date.month as nat, 2)
        }),
{
    let named = is_rows_named(rows, is[k].name);
    assert(is_group_matches(named, is[k].name, zero, is[k]));
    lemma_is_rows_named_members(rows, is[k].name);
    let row = named[j];
    assert(rows.contains(row));
    let m = choose|m: int| 0 <= m < rows.len() && rows[m] == row;
    assert(rows[m].date.wf());
    assert(is[k].constraints[j].period@ == ytd_period_text(row.date));
    law_ytd_period_starts_in_january(row.date);
}

} // verus!
