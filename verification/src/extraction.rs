//! Helpers around document extraction: splitting account lists into batches,
//! the manifest that numbers the documents, mapping document numbers back to
//! names, and the tables and checks shown while refining a configuration.
use vstd::prelude::*;

use crate::balancer::{collect_all_dates, holds_date, lemma_sorted_dates_unique, str_eq};
use crate::date::{date_text, push_date, Date};
use crate::schema::{
    bs_view, is_view, AccountType, BalanceSheetAccount, BalanceSheetAccountModel, BalanceSheetSnapshot, FinancialHistoryConfig,
    IncomeStatementAccount, IncomeStatementAccountModel, PeriodConstraint, SourceMetadata,
};
use crate::text::{
    decimal_text, lemma_decimal_text_injective, lemma_seq_lt_irreflexive, lemma_seq_lt_total, lemma_seq_lt_transitive,
    padded_decimal, push_decimal, push_padded_decimal, seq_lt, str_lt, strings_view,
};

verus! {

/// Progress of an extraction, as reported to a listener.
#[derive(Debug)]
pub enum ExtractionEvent {
    Starting,
    Uploading { filename: String },
    Step1Discovery,
    Step2Extraction,
    Step3Assembly,
    DraftingResponse,
    ProcessingResponse,
    Validating { attempt: usize },
    CorrectionNeeded { reason: String },
    Retry { attempt: usize, error: String },
    Success,
    Failed { reason: String },
}

/// A reply that consists of markdown text.
#[derive(Debug)]
pub struct MarkdownResponse {
    pub markdown: String,
}

/// `a / b` rounded up.
pub open spec fn div_ceil(a: int, b: int) -> int {
    (a + b - 1) / b
}

/// The size of the batches that `distribute_into_batches` makes: as even as
/// possible with no more batches than needed.
pub open spec fn batch_size_for(total: int, max_per_batch: int) -> int {
    div_ceil(total, div_ceil(total, max_per_batch))
}

/// Rounding up adds one to the quotient exactly when there is a remainder.
proof fn lemma_div_ceil(a: int, b: int)
    requires
        a >= 0,
        b > 0,
    ensures
        div_ceil(a, b) == a / b + (if a % b != 0 { 1int } else { 0int }),
        div_ceil(a, b) * b >= a,
        a > 0 ==> (div_ceil(a, b) - 1) * b < a,
        a > 0 ==> div_ceil(a, b) >= 1,
        div_ceil(a, b) <= a || a == 0,
{
    let q = a / b;
    let r = a % b;
    assert(a == b * q + r && 0 <= r < b) by (nonlinear_arith)
        requires
            b > 0,
            q == a / b,
            r == a % b,
    {
    }
    assert(q >= 0) by (nonlinear_arith)
        requires
            a >= 0,
            b > 0,
            q == a / b,
    ;
    let c = div_ceil(a, b);
    assert(c == q + (if r != 0 { 1int } else { 0int })) by (nonlinear_arith)
        requires
            b > 0,
            a == b * q + r,
            0 <= r < b,
            c == (a + b - 1) / b,
    {
        if r == 0 {
            assert(a + b - 1 == b * q + (b - 1));
        } else {
            assert(a + b - 1 == b * (q + 1) + (r - 1));
        }
    }
    assert(c * b >= a) by (nonlinear_arith)
        requires
            a == b * q + r,
            0 <= r < b,
            c == q + (if r != 0 { 1int } else { 0int }),
    ;
    assert(a > 0 ==> (c - 1) * b < a) by (nonlinear_arith)
        requires
            a == b * q + r,
            0 <= r < b,
            q >= 0,
            c == q + (if r != 0 { 1int } else { 0int }),
    ;
    assert(a > 0 ==> c >= 1) by (nonlinear_arith)
        requires
            a == b * q + r,
            0 <= r < b,
            q >= 0,
            c == q + (if r != 0 { 1int } else { 0int }),
    ;
    assert(c <= a || a == 0) by (nonlinear_arith)
        requires
            a == b * q + r,
            0 <= r < b,
            b >= 1,
            q >= 0,
            c == q + (if r != 0 { 1int } else { 0int }),
    ;
}

/// `a / b` rounded up, computed.
fn div_ceil_usize(a: usize, b: usize) -> (r: usize)
    requires
        b > 0,
    ensures
        r == div_ceil(a as int, b as int),
{
    proof {
        lemma_div_ceil(a as int, b as int);
    }
    let q = a / b;
    if a % b != 0 { q + 1 } else { q }
}

/// The batch size is at least one and at most `max_per_batch` (and the
/// number of items).
proof fn lemma_batch_size(total: int, m: int)
    requires
        total > 0,
        m > 0,
    ensures
        1 <= batch_size_for(total, m) <= m,
        batch_size_for(total, m) <= total,
{
    lemma_div_ceil(total, m);
    let nb = div_ceil(total, m);
    lemma_div_ceil(total, nb);
    let bs = div_ceil(total, nb);
    assert(bs <= m) by (nonlinear_arith)
        requires
            nb >= 1,
            nb * m >= total,
            (bs - 1) * nb < total,
    ;
}

/// `batches` cuts `items` into consecutive runs of `size` items, the last run
/// holding what is left.
pub open spec fn chunked(items: Seq<String>, size: int, batches: Seq<Seq<String>>) -> bool {
    &&& batches.len() == div_ceil(items.len() as int, size)
    &&& forall|b: int| 0 <= b < batches.len() ==> #[trigger] batches[b] == items.subrange(
        b * size,
        if (b + 1) * size < items.len() { (b + 1) * size } else { items.len() as int },
    )
}

/// A copy of `items[start..end]`.
fn copy_range(items: &Vec<String>, start: usize, end: usize) -> (r: Vec<String>)
    requires
        start <= end <= items.len(),
    ensures
        r@ == items@.subrange(start as int, end as int),
{
    let mut r: Vec<String> = Vec::new();
    for k in start..end
        invariant
            start <= end <= items.len(),
            r@ == items@.subrange(start as int, k as int),
    {
        r.push(items[k].clone());
        proof {
            assert(items@.subrange(start as int, k + 1) =~= items@.subrange(start as int, k as int).push(items@[k as int]));
        }
    }
    r
}

/// Splits `items` into as few batches as hold at most `max_per_batch` items
/// each, with sizes as even as possible: batches of `ceil(n / ceil(n / max))`
/// consecutive items, the last holding the rest. No items or a zero maximum
/// give no batches.
pub fn distribute_into_batches(items: &Vec<String>, max_per_batch: usize) -> (r: Vec<Vec<String>>)
    ensures
        items@.len() == 0 || max_per_batch == 0 ==> r@.len() == 0,
        items@.len() > 0 && max_per_batch > 0 ==> chunked(
            items@,
            batch_size_for(items@.len() as int, max_per_batch as int),
            r@.map_values(|b: Vec<String>| b@),
        ),
{
    if items.len() == 0 || max_per_batch == 0 {
        return Vec::new();
    }
    let total = items.len();
    let num_batches = div_ceil_usize(total, max_per_batch);
    proof {
        lemma_batch_size(total as int, max_per_batch as int);
        lemma_div_ceil(total as int, max_per_batch as int);
    }
    let size = div_ceil_usize(total, num_batches);
    let mut r: Vec<Vec<String>> = Vec::new();
    let mut start: usize = 0;
    while start < total
        invariant
            1 <= size <= total,
            total == items@.len(),
            start == (if r@.len() * size < total { r@.len() * size } else { total as int }),
            r@.len() >= 1 ==> (r@.len() - 1) * size < total,
            forall|b: int| 0 <= b < r@.len() ==> #[trigger] r@[b]@ == items@.subrange(
                b * size,
                if (b + 1) * size < total { (b + 1) * size } else { total as int },
            ),
        decreases total - start,
    {
        let end = if total - start > size { start + size } else { total };
        let batch = copy_range(items, start, end);
        let ghost old_r = r@;
        let ghost b = old_r.len() as int;
        proof {
            assert(b * size < total) by {
                if b * size >= total {
                    assert(start == total);
                }
            }
            assert(start == b * size);
            assert((b + 1) * size == b * size + size) by (nonlinear_arith);
        }
        r.push(batch);
        proof {
            assert forall|c: int| 0 <= c < r@.len() implies #[trigger] r@[c]@ == items@.subrange(
                c * size,
                if (c + 1) * size < total { (c + 1) * size } else { total as int },
            ) by {
                if c < b {
                    assert(r@[c] == old_r[c]);
                }
            }
        }
        start = end;
    }
    proof {
        let n = r@.len() as int;
        let t = total as int;
        let z = size as int;
        assert(n * z >= t);
        lemma_div_ceil(t, z);
        let c = div_ceil(t, z);
        assert(n == c) by (nonlinear_arith)
            requires
                z >= 1,
                n * z >= t,
                n >= 1,
                (n - 1) * z < t,
                c * z >= t,
                (c - 1) * z < t,
        {
            if n < c {
                assert(n * z <= (c - 1) * z);
            } else if n > c {
                assert(c * z <= (n - 1) * z);
            }
        }
    }
    r
}

/// Opening lines of the document manifest.
pub open spec fn manifest_header() -> Seq<char> {
    "═══════════════════════════════════════════════════════════════════\n📂 DOCUMENT MANIFEST\n═══════════════════════════════════════════════════════════════════\n\n"@
}

/// Closing lines of the document manifest: the instruction to cite documents
/// by number.
pub open spec fn manifest_footer() -> Seq<char> {
    "\n═══════════════════════════════════════════════════════════════════\n⚠️  CRITICAL INSTRUCTION ⚠️\n═══════════════════════════════════════════════════════════════════\nIn ALL `source.document` fields, use ONLY the Document ID number.\n\n✅ CORRECT:   \"document\": \"0\"\n✅ CORRECT:   \"document\": \"1\"\n❌ WRONG:     \"document\": \"2023_Annual_Report.pdf\"\n❌ WRONG:     \"document\": \"Financial Statements.pdf\"\n\nDo NOT use filenames. Use ONLY the numeric ID from the manifest above.\n═══════════════════════════════════════════════════════════════════\n\n"@
}

/// The manifest line of the document numbered `i`.
pub open spec fn manifest_line(i: int, name: Seq<char>) -> Seq<char> {
    "  Document ID: "@ + decimal_text(i as nat) + "  →  \""@ + name + "\"\n"@
}

/// The manifest lines of the first `n` documents.
pub open spec fn manifest_lines(names: Seq<String>, n: int) -> Seq<char>
    decreases n,
{
    if n <= 0 {
        Seq::<char>::empty()
    } else {
        manifest_lines(names, n - 1) + manifest_line(n - 1, names[n - 1]@)
    }
}

/// Numbers the documents from 0: the manifest text that lists them, and the
/// pairs (number written in decimal, display name).
pub fn create_document_manifest(display_names: &Vec<String>) -> (r: (String, Vec<(String, String)>))
    ensures
        r.0@ == manifest_header() + manifest_lines(display_names@, display_names@.len() as int) + manifest_footer(),
        r.1@.len() == display_names@.len(),
        forall|i: int| 0 <= i < display_names@.len() ==> (#[trigger] r.1@[i]).0@ == decimal_text(i as nat)
            && r.1@[i].1 == display_names@[i],
{
    let mut manifest = String::from_str("═══════════════════════════════════════════════════════════════════\n📂 DOCUMENT MANIFEST\n═══════════════════════════════════════════════════════════════════\n\n");
    proof {
        reveal_strlit("═══════════════════════════════════════════════════════════════════\n📂 DOCUMENT MANIFEST\n═══════════════════════════════════════════════════════════════════\n\n");
        reveal_strlit("  Document ID: ");
        reveal_strlit("  →  \"");
        reveal_strlit("\"\n");
    }
    let mut id_map: Vec<(String, String)> = Vec::new();
    for i in 0..display_names.len()
        invariant
            manifest@ == manifest_header() + manifest_lines(display_names@, i as int),
            id_map@.len() == i,
            forall|k: int| 0 <= k < i ==> (#[trigger] id_map@[k]).0@ == decimal_text(k as nat)
                && id_map@[k].1 == display_names@[k],
    {
        let id = crate::text::decimal_string(i as u64);
        let display_name = display_names[i].clone();
        let ghost before = manifest@;
        manifest.append("  Document ID: ");
        manifest.append(id.as_str());
        manifest.append("  →  \"");
        manifest.append(display_name.as_str());
        manifest.append("\"\n");
        proof {
            assert(manifest@ =~= before + manifest_line(i as int, display_names@[i as int]@));
            assert(manifest@ =~= manifest_header() + manifest_lines(display_names@, i + 1));
        }
        id_map.push((id, display_name));
    }
    manifest.append("\n═══════════════════════════════════════════════════════════════════\n⚠️  CRITICAL INSTRUCTION ⚠️\n═══════════════════════════════════════════════════════════════════\nIn ALL `source.document` fields, use ONLY the Document ID number.\n\n✅ CORRECT:   \"document\": \"0\"\n✅ CORRECT:   \"document\": \"1\"\n❌ WRONG:     \"document\": \"2023_Annual_Report.pdf\"\n❌ WRONG:     \"document\": \"Financial Statements.pdf\"\n\nDo NOT use filenames. Use ONLY the numeric ID from the manifest above.\n═══════════════════════════════════════════════════════════════════\n\n");
    proof {
        reveal_strlit("\n═══════════════════════════════════════════════════════════════════\n⚠️  CRITICAL INSTRUCTION ⚠️\n═══════════════════════════════════════════════════════════════════\nIn ALL `source.document` fields, use ONLY the Document ID number.\n\n✅ CORRECT:   \"document\": \"0\"\n✅ CORRECT:   \"document\": \"1\"\n❌ WRONG:     \"document\": \"2023_Annual_Report.pdf\"\n❌ WRONG:     \"document\": \"Financial Statements.pdf\"\n\nDo NOT use filenames. Use ONLY the numeric ID from the manifest above.\n═══════════════════════════════════════════════════════════════════\n\n");
    }
    (manifest, id_map)
}

/// The name paired with `key` in the first pair whose number is `key`.
pub open spec fn lookup_id(id_map: Seq<(String, String)>, key: Seq<char>) -> Option<String>
    decreases id_map.len(),
{
    if id_map.len() == 0 {
        None
    } else if id_map[0].0@ == key {
        Some(id_map[0].1)
    } else {
        lookup_id(id_map.drop_first(), key)
    }
}

/// A source whose document number has a name in `id_map` names it instead.
pub open spec fn resolved_source(src: Option<SourceMetadata>, id_map: Seq<(String, String)>) -> Option<SourceMetadata> {
    match src {
        Some(m) => match lookup_id(id_map, m.document_name@) {
            Some(name) => Some(SourceMetadata { document_name: name, ..m }),
            None => Some(m),
        },
        None => None,
    }
}

/// The snapshots with their sources resolved.
pub open spec fn resolved_snapshots<V>(s: Seq<BalanceSheetSnapshot<V>>, id_map: Seq<(String, String)>) -> Seq<BalanceSheetSnapshot<V>> {
    s.map_values(|x: BalanceSheetSnapshot<V>| BalanceSheetSnapshot { source: resolved_source(x.source, id_map), ..x })
}

/// The constraints with their sources resolved.
pub open spec fn resolved_constraints<V>(s: Seq<PeriodConstraint<V>>, id_map: Seq<(String, String)>) -> Seq<PeriodConstraint<V>> {
    s.map_values(|x: PeriodConstraint<V>| PeriodConstraint { source: resolved_source(x.source, id_map), ..x })
}

/// The name paired with `key`, if any.
fn lookup_document(id_map: &Vec<(String, String)>, key: &str) -> (r: Option<String>)
    ensures
        r == lookup_id(id_map@, key@),
{
    let mut i: usize = 0;
    proof {
        assert(id_map@.skip(0) =~= id_map@);
    }
    while i < id_map.len()
        invariant
            i <= id_map@.len(),
            lookup_id(id_map@.skip(i as int), key@) == lookup_id(id_map@, key@),
        decreases id_map@.len() - i,
    {
        proof {
            assert(id_map@.skip(i as int).drop_first() =~= id_map@.skip(i + 1));
            assert(id_map@.skip(i as int)[0] == id_map@[i as int]);
        }
        if str_eq(id_map[i].0.as_str(), key) {
            return Some(id_map[i].1.clone());
        }
        i = i + 1;
    }
    proof {
        assert(id_map@.skip(i as int) =~= Seq::<(String, String)>::empty());
    }
    None
}

/// A source with its document number resolved.
fn resolve_source(src: &Option<SourceMetadata>, id_map: &Vec<(String, String)>) -> (r: Option<SourceMetadata>)
    ensures
        r == resolved_source(*src, id_map@),
{
    match src {
        Some(m) => match lookup_document(id_map, m.document_name.as_str()) {
            Some(name) => Some(SourceMetadata { document_name: name, original_text: crate::schema::duplicate_opt_string(&m.original_text) }),
            None => Some(m.duplicate()),
        },
        None => None,
    }
}

/// Replaces each document number found in the sources of `config` by the
/// document name that `id_map` pairs with it (the first such pair); sources
/// with other document references, and everything else, stay as they are.
pub fn resolve_document_ids<V: Copy>(config: &mut FinancialHistoryConfig<V>, id_map: &Vec<(String, String)>)
    ensures
        final(config)@.organization_name == old(config)@.organization_name,
        final(config)@.fiscal_year_end_month == old(config)@.fiscal_year_end_month,
        final(config)@.balance_sheet.len() == old(config)@.balance_sheet.len(),
        forall|a: int| 0 <= a < old(config)@.balance_sheet.len() ==> #[trigger] final(config)@.balance_sheet[a] == (
        BalanceSheetAccountModel {
            snapshots: resolved_snapshots(old(config)@.balance_sheet[a].snapshots, id_map@),
            ..old(config)@.balance_sheet[a]
        }),
        final(config)@.income_statement.len() == old(config)@.income_statement.len(),
        forall|a: int| 0 <= a < old(config)@.income_statement.len() ==> #[trigger] final(config)@.income_statement[a] == (
        IncomeStatementAccountModel {
            constraints: resolved_constraints(old(config)@.income_statement[a].constraints, id_map@),
            ..old(config)@.income_statement[a]
        }),
{
    let mut old_bs: Vec<BalanceSheetAccount<V>> = Vec::new();
    std::mem::swap(&mut old_bs, &mut config.balance_sheet);
    let ghost orig = bs_view(old_bs@);
    let mut new_bs: Vec<BalanceSheetAccount<V>> = Vec::new();
    for a in 0..old_bs.len()
        invariant
            orig == bs_view(old_bs@),
            new_bs@.len() == a,
            forall|k: int| 0 <= k < a ==> #[trigger] new_bs@[k]@ == (BalanceSheetAccountModel {
                snapshots: resolved_snapshots(orig[k].snapshots, id_map@),
                ..orig[k]
            }),
    {
        let acc = &old_bs[a];
        let mut snaps: Vec<BalanceSheetSnapshot<V>> = Vec::new();
        for i in 0..acc.snapshots.len()
            invariant
                acc == &old_bs@[a as int],
                snaps@ == resolved_snapshots(acc.snapshots@.take(i as int), id_map@),
        {
            let x = &acc.snapshots[i];
            let src = resolve_source(&x.source, id_map);
            let ghost before = snaps@;
            snaps.push(BalanceSheetSnapshot { date: x.date, value: x.value, source: src });
            proof {
                assert(acc.snapshots@.take(i + 1) =~= acc.snapshots@.take(i as int).push(*x));
                assert(snaps@ =~= resolved_snapshots(acc.snapshots@.take(i + 1), id_map@));
            }
        }
        proof {
            assert(acc.snapshots@.take(acc.snapshots@.len() as int) =~= acc.snapshots@);
        }
        let copy = BalanceSheetAccount {
            name: acc.name.clone(),
            category: crate::schema::duplicate_opt_string(&acc.category),
            account_type: acc.account_type,
            method: acc.method,
            snapshots: snaps,
            is_balancing_account: acc.is_balancing_account,
            noise_factor: acc.noise_factor,
        };
        proof {
            assert(orig[a as int] == acc@);
        }
        new_bs.push(copy);
    }
    config.balance_sheet = new_bs;

    let mut old_is: Vec<IncomeStatementAccount<V>> = Vec::new();
    std::mem::swap(&mut old_is, &mut config.income_statement);
    let ghost orig2 = is_view(old_is@);
    let mut new_is: Vec<IncomeStatementAccount<V>> = Vec::new();
    for a in 0..old_is.len()
        invariant
            orig2 == is_view(old_is@),
            new_is@.len() == a,
            forall|k: int| 0 <= k < a ==> #[trigger] new_is@[k]@ == (IncomeStatementAccountModel {
                constraints: resolved_constraints(orig2[k].constraints, id_map@),
                ..orig2[k]
            }),
    {
        let acc = &old_is[a];
        let mut cons: Vec<PeriodConstraint<V>> = Vec::new();
        for i in 0..acc.constraints.len()
            invariant
                acc == &old_is@[a as int],
                cons@ == resolved_constraints(acc.constraints@.take(i as int), id_map@),
        {
            let x = &acc.constraints[i];
            let src = resolve_source(&x.source, id_map);
            cons.push(PeriodConstraint { period: x.period.clone(), value: x.value, source: src });
            proof {
                assert(acc.constraints@.take(i + 1) =~= acc.constraints@.take(i as int).push(*x));
                assert(cons@ =~= resolved_constraints(acc.constraints@.take(i + 1), id_map@));
            }
        }
        proof {
            assert(acc.constraints@.take(acc.constraints@.len() as int) =~= acc.constraints@);
        }
        let copy = IncomeStatementAccount {
            name: acc.name.clone(),
            account_type: acc.account_type,
            seasonality_profile: acc.seasonality_profile.duplicate(),
            constraints: cons,
            noise_factor: acc.noise_factor,
        };
        proof {
            assert(orig2[a as int] == acc@);
        }
        new_is.push(copy);
    }
    config.income_statement = new_is;
}

/// The densified series of one account, its figures already written out.
#[derive(Debug)]
pub struct FormattedSeries {
    pub name: String,
    pub cells: Vec<(Date, String)>,
}

/// The series hold dense data as a map from account name to a map from date
/// to figure holds it: no two series carry the same name, and each lists its
/// cells in strictly increasing date order.
pub open spec fn formatted_wf(dense: Seq<FormattedSeries>) -> bool {
    &&& forall|k: int, j: int| 0 <= k < j < dense.len() ==> (#[trigger] dense[k]).name@ != (#[trigger] dense[j]).name@
    &&& forall|k: int, a: int, b: int| 0 <= k < dense.len() && 0 <= a < b < dense[k].cells@.len()
        ==> (#[trigger] dense[k].cells@[a]).0.key() < (#[trigger] dense[k].cells@[b]).0.key()
}

/// Position of the first series named `name`.
pub open spec fn series_index(dense: Seq<FormattedSeries>, name: Seq<char>) -> Option<int>
    decreases dense.len(),
{
    if dense.len() == 0 {
        None
    } else if dense[0].name@ == name {
        Some(0)
    } else {
        match series_index(dense.drop_first(), name) {
            Some(i) => Some(i + 1),
            None => None,
        }
    }
}

/// The dates of the series of the account named `name` (none without one).
pub open spec fn account_dates(dense: Seq<FormattedSeries>, name: Seq<char>) -> Seq<Date> {
    match series_index(dense, name) {
        Some(i) => dense[i].cells@.map_values(|c: (Date, String)| c.0),
        None => Seq::<Date>::empty(),
    }
}

/// Some listed account has a figure dated `d`.
pub open spec fn in_table(accounts: Seq<(String, AccountType)>, dense: Seq<FormattedSeries>, d: Date) -> bool {
    exists|k: int| 0 <= k < accounts.len() && #[trigger] holds_date(account_dates(dense, accounts[k].0@), d)
}

/// `ds` lists, in chronological order and once each, the dates on which some
/// listed account has a figure.
pub open spec fn table_dates(accounts: Seq<(String, AccountType)>, dense: Seq<FormattedSeries>, ds: Seq<Date>) -> bool {
    &&& forall|i: int, j: int| 0 <= i < j < ds.len() ==> (#[trigger] ds[i]).key() < (#[trigger] ds[j]).key()
    &&& forall|d: Date| #[trigger] holds_date(ds, d) <==> in_table(accounts, dense, d)
}

/// The text of the first cell dated `d` (empty without one).
pub open spec fn cell_text(cells: Seq<(Date, String)>, d: Date) -> Seq<char>
    decreases cells.len(),
{
    if cells.len() == 0 {
        Seq::<char>::empty()
    } else if cells[0].0 == d {
        cells[0].1@
    } else {
        cell_text(cells.drop_first(), d)
    }
}

/// The header row: the account column, then one column per date.
pub open spec fn header_line(ds: Seq<Date>) -> Seq<char>
    decreases ds.len(),
{
    if ds.len() == 0 {
        "| Account |"@
    } else {
        header_line(ds.drop_last()) + " "@ + date_text(ds.last()) + " |"@
    }
}

/// The separator row under the header for `n` date columns.
pub open spec fn separator_line(n: nat) -> Seq<char>
    decreases n,
{
    if n == 0 {
        "| --- |"@
    } else {
        separator_line((n - 1) as nat) + " --- |"@
    }
}

/// The cells of a series on the dates `ds`.
pub open spec fn cells_line(cells: Seq<(Date, String)>, ds: Seq<Date>) -> Seq<char>
    decreases ds.len(),
{
    if ds.len() == 0 {
        Seq::<char>::empty()
    } else {
        cells_line(cells, ds.drop_last()) + " "@ + cell_text(cells, ds.last()) + " |"@
    }
}

/// `n` empty cells.
pub open spec fn blank_cells(n: nat) -> Seq<char>
    decreases n,
{
    if n == 0 {
        Seq::<char>::empty()
    } else {
        blank_cells((n - 1) as nat) + "  |"@
    }
}

/// The row of the account named `name`.
pub open spec fn account_line(name: Seq<char>, dense: Seq<FormattedSeries>, ds: Seq<Date>) -> Seq<char> {
    "| "@ + name + " |"@ + match series_index(dense, name) {
        Some(i) => cells_line(dense[i].cells@, ds),
        None => blank_cells(ds.len()),
    }
}

/// The rows of the first `n` accounts, each after a line break.
pub open spec fn account_lines(accounts: Seq<(String, AccountType)>, dense: Seq<FormattedSeries>, ds: Seq<Date>, n: int) -> Seq<char>
    decreases n,
{
    if n <= 0 {
        Seq::<char>::empty()
    } else {
        account_lines(accounts, dense, ds, n - 1) + "\n"@ + account_line(accounts[n - 1].0@, dense, ds)
    }
}

/// The markdown table of the accounts over the dates `ds`.
pub open spec fn table_text(accounts: Seq<(String, AccountType)>, dense: Seq<FormattedSeries>, ds: Seq<Date>) -> Seq<char> {
    header_line(ds) + "\n"@ + separator_line(ds.len()) + account_lines(accounts, dense, ds, accounts.len() as int)
}

/// Position of the first series named `name`.
fn find_series(dense: &Vec<FormattedSeries>, name: &str) -> (r: Option<usize>)
    ensures
        r is Some <==> series_index(dense@, name@) is Some,
        r matches Some(i) ==> series_index(dense@, name@) == Some(i as int) && i < dense@.len(),
{
    let mut i: usize = 0;
    proof {
        assert(dense@.skip(0) =~= dense@);
    }
    while i < dense.len()
        invariant
            i <= dense@.len(),
            series_index(dense@, name@) == (match series_index(dense@.skip(i as int), name@) {
                Some(j) => Some(j + i),
                None => None::<int>,
            }),
        decreases dense@.len() - i,
    {
        proof {
            assert(dense@.skip(i as int).drop_first() =~= dense@.skip(i + 1));
            assert(dense@.skip(i as int)[0] == dense@[i as int]);
        }
        if str_eq(dense[i].name.as_str(), name) {
            return Some(i);
        }
        i = i + 1;
    }
    proof {
        assert(dense@.skip(i as int) =~= Seq::<FormattedSeries>::empty());
    }
    None
}

/// The text of the first cell dated `d`.
fn find_cell<'a>(cells: &'a Vec<(Date, String)>, d: &Date) -> (r: &'a str)
    ensures
        r@ == cell_text(cells@, *d),
{
    let mut i: usize = 0;
    proof {
        assert(cells@.skip(0) =~= cells@);
    }
    while i < cells.len()
        invariant
            i <= cells@.len(),
            cell_text(cells@, *d) == cell_text(cells@.skip(i as int), *d),
        decreases cells@.len() - i,
    {
        proof {
            assert(cells@.skip(i as int).drop_first() =~= cells@.skip(i + 1));
            assert(cells@.skip(i as int)[0] == cells@[i as int]);
        }
        if cells[i].0 == *d {
            return cells[i].1.as_str();
        }
        i = i + 1;
    }
    proof {
        assert(cells@.skip(i as int) =~= Seq::<(Date, String)>::empty());
        reveal_strlit("");
    }
    ""
}

/// Appends a line break and the row of the account named `name`.
fn push_account_line(out: &mut String, name: &str, dense_data: &Vec<FormattedSeries>, dates: &Vec<Date>)
    ensures
        final(out)@ == old(out)@ + "\n"@ + account_line(name@, dense_data@, dates@),
{
    proof {
        reveal_strlit("\n| ");
        reveal_strlit("\n");
        reveal_strlit("| ");
        reveal_strlit(" |");
    }
    out.append("\n| ");
    out.append(name);
    out.append(" |");
    let ghost head = out@;
    match find_series(dense_data, name) {
        Some(j) => {
            let cells = &dense_data[j].cells;
            for m in 0..dates.len()
                invariant
                    cells == &dense_data@[j as int].cells,
                    out@ == head + cells_line(cells@, dates@.take(m as int)),
            {
                out.append(" ");
                out.append(find_cell(cells, &dates[m]));
                out.append(" |");
                proof {
                    reveal_strlit(" ");
                    reveal_strlit(" |");
                    assert(dates@.take(m + 1).drop_last() =~= dates@.take(m as int));
                    assert(out@ =~= head + cells_line(cells@, dates@.take(m + 1)));
                }
            }
        },
        None => {
            for m in 0..dates.len()
                invariant
                    out@ == head + blank_cells(m as nat),
            {
                out.append("  |");
                proof {
                    reveal_strlit("  |");
                    assert(out@ =~= head + blank_cells((m + 1) as nat));
                }
            }
        },
    }
    proof {
        assert(dates@.take(dates@.len() as int) =~= dates@);
        let tail = match series_index(dense_data@, name@) {
            Some(i) => cells_line(dense_data@[i].cells@, dates@),
            None => blank_cells(dates@.len()),
        };
        assert(out@ =~= head + tail);
        assert(out@ =~= old(out)@ + "\n"@ + account_line(name@, dense_data@, dates@));
    }
}

/// The table of the listed accounts, when some of them has a figure.
pub open spec fn dense_table_text(accounts: Seq<(String, AccountType)>, dense: Seq<FormattedSeries>) -> Option<Seq<char>> {
    if exists|d: Date| in_table(accounts, dense, d) {
        Some(table_text(accounts, dense, choose|ds: Seq<Date>| table_dates(accounts, dense, ds)))
    } else {
        None
    }
}

/// A markdown table of the listed accounts over every date on which one of
/// them has a figure (in date order): a header row, a separator row, then one
/// row per account with its figures, or empty cells for an account without a
/// series. No dates give no table.
pub fn render_dense_table(accounts: &Vec<(String, AccountType)>, dense_data: &Vec<FormattedSeries>) -> (r: Option<String>)
    requires
        formatted_wf(dense_data@),
        forall|i: int, k: int| 0 <= i < dense_data@.len() && 0 <= k < dense_data@[i].cells@.len()
            ==> (#[trigger] dense_data@[i].cells@[k]).0.wf(),
    ensures
        r is None <==> dense_table_text(accounts@, dense_data@) is None,
        r matches Some(t) ==> dense_table_text(accounts@, dense_data@) == Some(t@),
{
    let mut series_dates: Vec<Vec<Date>> = Vec::new();
    for k in 0..accounts.len()
        invariant
            series_dates@.len() == k,
            forall|i: int, m: int| 0 <= i < dense_data@.len() && 0 <= m < dense_data@[i].cells@.len()
                ==> (#[trigger] dense_data@[i].cells@[m]).0.wf(),
            forall|j: int| 0 <= j < k ==> (#[trigger] series_dates@[j])@ == account_dates(dense_data@, accounts@[j].0@),
    {
        let mut ds: Vec<Date> = Vec::new();
        match find_series(dense_data, accounts[k].0.as_str()) {
            Some(i) => {
                let cells = &dense_data[i].cells;
                for m in 0..cells.len()
                    invariant
                        cells == &dense_data@[i as int].cells,
                        ds@ == cells@.take(m as int).map_values(|c: (Date, String)| c.0),
                {
                    ds.push(cells[m].0);
                    proof {
                        assert(cells@.take(m + 1) =~= cells@.take(m as int).push(cells@[m as int]));
                        assert(ds@ =~= cells@.take(m + 1).map_values(|c: (Date, String)| c.0));
                    }
                }
                proof {
                    assert(cells@.take(cells@.len() as int) =~= cells@);
                }
            },
            None => {},
        }
        proof {
            assert(ds@ =~= account_dates(dense_data@, accounts@[k as int].0@));
        }
        series_dates.push(ds);
    }
    proof {
        assert forall|i: int, m: int| 0 <= i < series_dates@.len() && 0 <= m < series_dates@[i]@.len()
            implies (#[trigger] series_dates@[i]@[m]).wf() by {
            let name = accounts@[i].0@;
            let j = series_index(dense_data@, name)->0;
            lemma_series_index_range(dense_data@, name);
            assert(series_dates@[i]@[m] == dense_data@[j].cells@[m].0);
        }
    }
    let dates = collect_all_dates(&series_dates);
    proof {
        assert forall|d: Date| #[trigger] holds_date(dates@, d) <==> in_table(accounts@, dense_data@, d) by {
            if holds_date(dates@, d) {
                let i = choose|i: int| 0 <= i < series_dates@.len() && #[trigger] holds_date(series_dates@[i]@, d);
                assert(holds_date(account_dates(dense_data@, accounts@[i].0@), d));
            }
            if in_table(accounts@, dense_data@, d) {
                let k = choose|k: int| 0 <= k < accounts@.len() && #[trigger] holds_date(account_dates(dense_data@, accounts@[k].0@), d);
                assert(holds_date(series_dates@[k]@, d));
            }
        }
    }
    if dates.len() == 0 {
        proof {
            assert forall|d: Date| !in_table(accounts@, dense_data@, d) by {
                if in_table(accounts@, dense_data@, d) {
                    assert(holds_date(dates@, d));
                    let t = choose|t: int| 0 <= t < dates@.len() && dates@[t] == d;
                }
            }
            assert(!exists|d: Date| in_table(accounts@, dense_data@, d));
        }
        return None;
    }
    proof {
        assert(holds_date(dates@, dates@[0]));
    }
    let mut out = String::from_str("| Account |");
    proof {
        reveal_strlit("| Account |");
        reveal_strlit(" ");
        reveal_strlit(" |");
        reveal_strlit("\n");
        reveal_strlit("| --- |");
        reveal_strlit(" --- |");
        reveal_strlit("| ");
        reveal_strlit("  |");
        reveal_strlit("\n| --- |");
        reveal_strlit("\n| ");
        assert(out@ == header_line(dates@.take(0)));
    }
    for i in 0..dates.len()
        invariant
            out@ == header_line(dates@.take(i as int)),
    {
        out.append(" ");
        push_date(&mut out, &dates[i]);
        out.append(" |");
        proof {
            reveal_strlit(" ");
            reveal_strlit(" |");
            assert(dates@.take(i + 1).drop_last() =~= dates@.take(i as int));
            assert(out@ =~= header_line(dates@.take(i + 1)));
        }
    }
    proof {
        assert(dates@.take(dates@.len() as int) =~= dates@);
    }
    out.append("\n| --- |");
    for i in 0..dates.len()
        invariant
            out@ == header_line(dates@) + "\n"@ + separator_line(i as nat),
    {
        out.append(" --- |");
        proof {
            reveal_strlit(" --- |");
            assert(out@ =~= header_line(dates@) + "\n"@ + separator_line((i + 1) as nat));
        }
    }
    for k in 0..accounts.len()
        invariant
            out@ == header_line(dates@) + "\n"@ + separator_line(dates@.len()) + account_lines(accounts@, dense_data@, dates@, k as int),
    {
        push_account_line(&mut out, accounts[k].0.as_str(), dense_data, &dates);
    }
    proof {
        assert(table_dates(accounts@, dense_data@, dates@));
        assert(in_table(accounts@, dense_data@, dates@[0]));
        let ds = choose|ds: Seq<Date>| table_dates(accounts@, dense_data@, ds);
        assert(table_dates(accounts@, dense_data@, ds));
        assert forall|d: Date| #![trigger holds_date(ds, d)] #![trigger holds_date(dates@, d)] holds_date(ds, d) <==> holds_date(dates@, d) by {}
        lemma_sorted_dates_unique(ds, dates@);
    }
    Some(out)
}

/// A reported series position lies within range.
proof fn lemma_series_index_range(dense: Seq<FormattedSeries>, name: Seq<char>)
    ensures
        series_index(dense, name) matches Some(i) ==> 0 <= i < dense.len() && dense[i].name@ == name,
    decreases dense.len(),
{
    if dense.len() > 0 {
        lemma_series_index_range(dense.drop_first(), name);
    }
}

/// Name and type of each income statement account.
pub open spec fn is_rows<V>(config: FinancialHistoryConfig<V>) -> Seq<(String, AccountType)> {
    config.income_statement@.map_values(|a: IncomeStatementAccount<V>| (a.name, a.account_type))
}

/// Name and type of each balance sheet account.
pub open spec fn bs_rows<V>(config: FinancialHistoryConfig<V>) -> Seq<(String, AccountType)> {
    config.balance_sheet@.map_values(|a: BalanceSheetAccount<V>| (a.name, a.account_type))
}

/// A titled section holding a table, or a notice that there is no data.
pub open spec fn section_text(title: Seq<char>, empty: Seq<char>, table: Option<Seq<char>>) -> Seq<char> {
    match table {
        Some(t) => title + t + "\n\n"@,
        None => empty,
    }
}

/// The text shown when the configuration could not be densified.
pub open spec fn densification_failed_text(e: Seq<char>) -> Seq<char> {
    "⚠️ Unable to generate tables - Densification failed: "@ + e
        + "\n\nThis indicates a problem with the configuration that needs to be fixed."@
}

/// The income statement and balance sheet tables of the densified data of
/// `config` (or, when densification failed, a notice with its error).
pub fn generate_markdown_tables<V>(config: &FinancialHistoryConfig<V>, dense: &Result<Vec<FormattedSeries>, String>) -> (r: String)
    requires
        dense matches Ok(d) ==> formatted_wf(d@),
        dense matches Ok(d) ==> forall|i: int, k: int| 0 <= i < d@.len() && 0 <= k < d@[i].cells@.len()
            ==> (#[trigger] d@[i].cells@[k]).0.wf(),
    ensures
        match dense {
            Err(e) => r@ == densification_failed_text(e@),
            Ok(d) => r@ == section_text(
                "## Income Statement (P&L) - Densified Monthly Data\n\n"@,
                "## Income Statement (P&L)\n\n⚠️ No data available\n\n"@,
                dense_table_text(is_rows(*config), d@),
            ) + section_text(
                "## Balance Sheet - Densified Monthly Data\n\n"@,
                "## Balance Sheet\n\n⚠️ No data available\n\n"@,
                dense_table_text(bs_rows(*config), d@),
            ),
        },
{
    proof {
        reveal_strlit("⚠️ Unable to generate tables - Densification failed: ");
        reveal_strlit("\n\nThis indicates a problem with the configuration that needs to be fixed.");
        reveal_strlit("## Income Statement (P&L) - Densified Monthly Data\n\n");
        reveal_strlit("## Income Statement (P&L)\n\n⚠️ No data available\n\n");
        reveal_strlit("## Balance Sheet - Densified Monthly Data\n\n");
        reveal_strlit("## Balance Sheet\n\n⚠️ No data available\n\n");
        reveal_strlit("\n\n");
    }
    let dense_data = match dense {
        Ok(d) => d,
        Err(e) => {
            let mut out = String::from_str("⚠️ Unable to generate tables - Densification failed: ");
            out.append(e.as_str());
            out.append("\n\nThis indicates a problem with the configuration that needs to be fixed.");
            return out;
        },
    };
    let mut pl_accounts: Vec<(String, AccountType)> = Vec::new();
    for k in 0..config.income_statement.len()
        invariant
            pl_accounts@ == is_rows(*config).take(k as int),
    {
        let a = &config.income_statement[k];
        pl_accounts.push((a.name.clone(), a.account_type));
        proof {
            assert(is_rows(*config).take(k + 1) =~= is_rows(*config).take(k as int).push((a.name, a.account_type)));
        }
    }
    proof {
        assert(is_rows(*config).take(config.income_statement@.len() as int) =~= is_rows(*config));
    }
    let mut bs_accounts: Vec<(String, AccountType)> = Vec::new();
    for k in 0..config.balance_sheet.len()
        invariant
            bs_accounts@ == bs_rows(*config).take(k as int),
    {
        let a = &config.balance_sheet[k];
        bs_accounts.push((a.name.clone(), a.account_type));
        proof {
            assert(bs_rows(*config).take(k + 1) =~= bs_rows(*config).take(k as int).push((a.name, a.account_type)));
        }
    }
    proof {
        assert(bs_rows(*config).take(config.balance_sheet@.len() as int) =~= bs_rows(*config));
    }
    let mut output = String::new();
    match render_dense_table(&pl_accounts, dense_data) {
        Some(t) => {
            output.append("## Income Statement (P&L) - Densified Monthly Data\n\n");
            output.append(t.as_str());
            output.append("\n\n");
        },
        None => {
            output.append("## Income Statement (P&L)\n\n⚠️ No data available\n\n");
        },
    }
    let ghost first = output@;
    match render_dense_table(&bs_accounts, dense_data) {
        Some(t) => {
            output.append("## Balance Sheet - Densified Monthly Data\n\n");
            output.append(t.as_str());
            output.append("\n\n");
        },
        None => {
            output.append("## Balance Sheet\n\n⚠️ No data available\n\n");
        },
    }
    proof {
        assert(output@ =~= first + section_text(
            "## Balance Sheet - Densified Monthly Data\n\n"@,
            "## Balance Sheet\n\n⚠️ No data available\n\n"@,
            dense_table_text(bs_rows(*config), dense_data@),
        ));
    }
    output
}

/// Resolving a document number through the pairs of the manifest gives back
/// the name of the document that the manifest gave that number.
pub proof fn law_manifest_numbers_resolve(names: Seq<String>, pairs: Seq<(String, String)>, i: int)
    requires
        pairs.len() == names.len(),
        forall|k: int| 0 <= k < names.len() ==> (#[trigger] pairs[k]).0@ == decimal_text(k as nat) && pairs[k].1 == names[k],
        0 <= i < names.len(),
    ensures
        lookup_id(pairs, decimal_text(i as nat)) == Some(names[i]),
{
    lemma_lookup_first(pairs, 0, i);
}

/// In pairs numbered `off`, `off + 1`, ..., the number `off + i` finds the
/// pair at `i`.
proof fn lemma_lookup_first(pairs: Seq<(String, String)>, off: int, i: int)
    requires
        off >= 0,
        0 <= i < pairs.len(),
        forall|m: int| 0 <= m < pairs.len() ==> (#[trigger] pairs[m]).0@ == decimal_text((m + off) as nat),
    ensures
        lookup_id(pairs, decimal_text((i + off) as nat)) == Some(pairs[i].1),
    decreases i,
{
    if i > 0 {
        assert(pairs[0].0@ != decimal_text((i + off) as nat)) by {
            if pairs[0].0@ == decimal_text((i + off) as nat) {
                lemma_decimal_text_injective(off as nat, (i + off) as nat);
            }
        }
        let rest = pairs.drop_first();
        assert forall|m: int| 0 <= m < rest.len() implies (#[trigger] rest[m]).0@ == decimal_text((m + (off + 1)) as nat) by {
            assert(rest[m] == pairs[m + 1]);
        }
        lemma_lookup_first(rest, off + 1, i - 1);
    }
}

/// The batches one after another.
pub open spec fn concat_batches(batches: Seq<Seq<String>>) -> Seq<String>
    decreases batches.len(),
{
    if batches.len() == 0 {
        Seq::<String>::empty()
    } else {
        concat_batches(batches.drop_last()) + batches.last()
    }
}

/// The first `k` runs of `size` items of a chunking hold the first
/// `min(k * size, n)` items.
proof fn lemma_chunk_prefix(items: Seq<String>, size: int, batches: Seq<Seq<String>>, k: int)
    requires
        size >= 1,
        chunked(items, size, batches),
        0 <= k <= batches.len(),
    ensures
        concat_batches(batches.take(k)) == items.subrange(0, if k * size < items.len() { k * size } else { items.len() as int }),
    decreases k,
{
    if k == 0 {
        assert(batches.take(0) =~= Seq::<Seq<String>>::empty());
        assert(items.subrange(0, 0) =~= Seq::<String>::empty());
    } else {
        lemma_chunk_prefix(items, size, batches, k - 1);
        assert(batches.take(k).drop_last() =~= batches.take(k - 1));
        assert(batches.take(k).last() == batches[k - 1]);
        let n = items.len() as int;
        lemma_div_ceil(n, size);
        assert(n > 0) by {
            if n == 0 {
                assert((0 + size - 1) / size == 0) by (nonlinear_arith)
                    requires
                        size >= 1,
                ;
            }
        }
        assert((k - 1) * size < n) by (nonlinear_arith)
            requires
                k <= batches.len(),
                batches.len() == div_ceil(n, size),
                (div_ceil(n, size) - 1) * size < n,
                size >= 1,
        {
            assert((k - 1) * size <= (div_ceil(n, size) - 1) * size);
        }
        assert(k * size == (k - 1) * size + size) by (nonlinear_arith);
        let lo = (k - 1) * size;
        let hi = if k * size < n { k * size } else { n };
        assert(items.subrange(0, lo) + items.subrange(lo, hi) =~= items.subrange(0, hi));
    }
}

/// Batching keeps every item, in order, and puts between one and
/// `max_per_batch` items in each batch.
pub proof fn law_batches_cover_items(items: Seq<String>, max_per_batch: int, batches: Seq<Seq<String>>)
    requires
        items.len() > 0,
        max_per_batch > 0,
        chunked(items, batch_size_for(items.len() as int, max_per_batch), batches),
    ensures
        concat_batches(batches) == items,
        forall|b: int| 0 <= b < batches.len() ==> 1 <= (#[trigger] batches[b]).len() <= max_per_batch,
{
    let n = items.len() as int;
    let size = batch_size_for(n, max_per_batch);
    lemma_batch_size(n, max_per_batch);
    lemma_div_ceil(n, size);
    lemma_chunk_prefix(items, size, batches, batches.len() as int);
    assert(batches.take(batches.len() as int) =~= batches);
    assert(batches.len() * size >= n);
    assert(items.subrange(0, n) =~= items);
    assert forall|b: int| 0 <= b < batches.len() implies 1 <= (#[trigger] batches[b]).len() <= max_per_batch by {
        assert(b * size < n) by (nonlinear_arith)
            requires
                0 <= b < batches.len(),
                batches.len() == div_ceil(n, size),
                (div_ceil(n, size) - 1) * size < n,
                size >= 1,
        {
            assert(b * size <= (div_ceil(n, size) - 1) * size);
        }
        assert((b + 1) * size == b * size + size) by (nonlinear_arith);
    }
}

/// Texts joined with `sep` between them.
pub open spec fn join_with(parts: Seq<Seq<char>>, sep: Seq<char>) -> Seq<char>
    decreases parts.len(),
{
    if parts.len() == 0 {
        Seq::<char>::empty()
    } else if parts.len() == 1 {
        parts[0]
    } else {
        join_with(parts.drop_last(), sep) + sep + parts.last()
    }
}

/// Names listed strictly in name order.
pub open spec fn names_increase(ns: Seq<Seq<char>>) -> bool {
    forall|i: int, j: int| 0 <= i < j < ns.len() ==> seq_lt(#[trigger] ns[i], #[trigger] ns[j])
}

/// Some entry of amount `c` belongs to the account named `name`.
pub open spec fn has_entry(entries: Seq<(u64, String)>, c: u64, name: Seq<char>) -> bool {
    exists|k: int| 0 <= k < entries.len() && (#[trigger] entries[k]).0 == c && entries[k].1@ == name
}

/// `ns` lists, in name order and once each, the accounts with an entry of
/// amount `c`.
pub open spec fn names_for(entries: Seq<(u64, String)>, c: u64, ns: Seq<Seq<char>>) -> bool {
    &&& names_increase(ns)
    &&& forall|n: Seq<char>| #![trigger ns.contains(n)] #![trigger has_entry(entries, c, n)] ns.contains(n) <==> has_entry(entries, c, n)
}

/// The accounts with an entry of amount `c`, in name order, once each.
pub open spec fn sorted_names(entries: Seq<(u64, String)>, c: u64) -> Seq<Seq<char>> {
    choose|ns: Seq<Seq<char>>| names_for(entries, c, ns)
}

/// The amounts of the entries, once each, in order of first appearance.
pub open spec fn first_amounts(entries: Seq<(u64, String)>) -> Seq<u64>
    decreases entries.len(),
{
    if entries.len() == 0 {
        Seq::<u64>::empty()
    } else {
        let r = first_amounts(entries.drop_last());
        if r.contains(entries.last().0) { r } else { r.push(entries.last().0) }
    }
}

/// An amount in cents written with two decimals.
pub open spec fn cents_text(c: nat) -> Seq<char> {
    decimal_text(c / 100) + "."@ + padded_decimal(c % 100, 2)
}

/// The warning for amount `c`, when more than one account carries it.
pub open spec fn amount_warning(entries: Seq<(u64, String)>, c: u64) -> Option<Seq<char>> {
    let ns = sorted_names(entries, c);
    if ns.len() > 1 {
        Some("- Value "@ + cents_text(c as nat) + " appears in multiple accounts: "@ + join_with(ns, ", "@))
    } else {
        None
    }
}

/// The warnings for the first `n` amounts.
pub open spec fn warnings_for(entries: Seq<(u64, String)>, amounts: Seq<u64>, n: int) -> Seq<Seq<char>>
    decreases n,
{
    if n <= 0 {
        Seq::<Seq<char>>::empty()
    } else {
        let r = warnings_for(entries, amounts, n - 1);
        match amount_warning(entries, amounts[n - 1]) {
            Some(w) => r.push(w),
            None => r,
        }
    }
}

/// The report on amounts that several accounts carry, if any.
pub open spec fn duplicate_report(entries: Seq<(u64, String)>) -> Option<Seq<char>> {
    let amounts = first_amounts(entries);
    let w = warnings_for(entries, amounts, amounts.len() as int);
    if w.len() == 0 { None } else { Some(join_with(w, "\n"@)) }
}

/// Two name lists in strict name order that hold the same names are the same
/// list.
proof fn lemma_sorted_names_unique(a: Seq<Seq<char>>, b: Seq<Seq<char>>)
    requires
        names_increase(a),
        names_increase(b),
        forall|n: Seq<char>| #![trigger a.contains(n)] #![trigger b.contains(n)] a.contains(n) <==> b.contains(n),
    ensures
        a == b,
    decreases a.len(),
{
    if a.len() == 0 {
        if b.len() > 0 {
            assert(b.contains(b[0]));
        }
        assert(a =~= b);
    } else {
        assert(a.contains(a[0]));
        let j = choose|j: int| 0 <= j < b.len() && b[j] == a[0];
        assert(b.contains(b[0]));
        let i = choose|i: int| 0 <= i < a.len() && a[i] == b[0];
        if j > 0 {
            assert(seq_lt(b[0], b[j]));
            if i > 0 {
                assert(seq_lt(a[0], a[i]));
                lemma_seq_lt_total(a[0], b[0]);
            } else {
                lemma_seq_lt_irreflexive(a[0]);
            }
        }
        assert(j == 0);
        let a1 = a.drop_first();
        let b1 = b.drop_first();
        assert forall|n: Seq<char>| #![trigger a1.contains(n)] #![trigger b1.contains(n)] a1.contains(n) <==> b1.contains(n) by {
            if a1.contains(n) {
                let k = choose|k: int| 0 <= k < a1.len() && a1[k] == n;
                assert(a[k + 1] == n);
                assert(seq_lt(a[0], a[k + 1]));
                lemma_seq_lt_irreflexive(n);
                assert(a.contains(n));
                let m = choose|m: int| 0 <= m < b.len() && b[m] == n;
                assert(m != 0);
                assert(b1[m - 1] == n);
            }
            if b1.contains(n) {
                let k = choose|k: int| 0 <= k < b1.len() && b1[k] == n;
                assert(b[k + 1] == n);
                assert(seq_lt(b[0], b[k + 1]));
                lemma_seq_lt_irreflexive(n);
                assert(b.contains(n));
                let m = choose|m: int| 0 <= m < a.len() && a[m] == n;
                assert(m != 0);
                assert(a1[m - 1] == n);
            }
        }
        assert(names_increase(a1)) by {
            assert forall|x: int, y: int| 0 <= x < y < a1.len() implies seq_lt(#[trigger] a1[x], #[trigger] a1[y]) by {
                assert(a1[x] == a[x + 1] && a1[y] == a[y + 1]);
            }
        }
        assert(names_increase(b1)) by {
            assert forall|x: int, y: int| 0 <= x < y < b1.len() implies seq_lt(#[trigger] b1[x], #[trigger] b1[y]) by {
                assert(b1[x] == b[x + 1] && b1[y] == b[y + 1]);
            }
        }
        lemma_sorted_names_unique(a1, b1);
        assert(a =~= seq![a[0]] + a1);
        assert(b =~= seq![b[0]] + b1);
    }
}

/// Whether `x` is among `v`.
fn holds_amount(v: &Vec<u64>, x: u64) -> (r: bool)
    ensures
        r == v@.contains(x),
{
    for k in 0..v.len()
        invariant
            forall|m: int| 0 <= m < k ==> v@[m] != x,
    {
        if v[k] == x {
            return true;
        }
    }
    false
}

/// The amounts of the entries, once each, in order of first appearance.
fn amounts_in_order(entries: &Vec<(u64, String)>) -> (r: Vec<u64>)
    ensures
        r@ == first_amounts(entries@),
{
    let mut r: Vec<u64> = Vec::new();
    proof {
        assert(entries@.take(0) =~= Seq::<(u64, String)>::empty());
    }
    for k in 0..entries.len()
        invariant
            r@ == first_amounts(entries@.take(k as int)),
    {
        proof {
            assert(entries@.take(k + 1).drop_last() =~= entries@.take(k as int));
            assert(entries@.take(k + 1).last() == entries@[k as int]);
        }
        if !holds_amount(&r, entries[k].0) {
            r.push(entries[k].0);
        }
    }
    proof {
        assert(entries@.take(entries@.len() as int) =~= entries@);
    }
    r
}

/// Adds `name` to names kept in strict name order, unless it is there.
fn insert_name(ns: &mut Vec<String>, name: &String)
    requires
        names_increase(strings_view(old(ns)@)),
    ensures
        names_increase(strings_view(final(ns)@)),
        forall|n: Seq<char>| #![trigger strings_view(final(ns)@).contains(n)]
            strings_view(final(ns)@).contains(n) <==> (strings_view(old(ns)@).contains(n) || n == name@),
{
    let ghost old_v = strings_view(ns@);
    let mut p: usize = 0;
    while p < ns.len() && str_lt(ns[p].as_str(), name.as_str())
        invariant
            strings_view(ns@) == old_v,
            p <= ns.len(),
            forall|i: int| 0 <= i < p ==> seq_lt(#[trigger] old_v[i], name@),
        decreases ns.len() - p,
    {
        proof {
            assert(old_v[p as int] == ns@[p as int]@);
        }
        p = p + 1;
    }
    if p < ns.len() && str_eq(ns[p].as_str(), name.as_str()) {
        proof {
            assert(old_v[p as int] == name@);
            assert(old_v.contains(name@));
        }
        return;
    }
    ns.insert(p, name.clone());
    proof {
        let new_v = strings_view(ns@);
        assert(new_v =~= old_v.insert(p as int, name@));
        if p < old_v.len() {
            assert(old_v[p as int] == ns@[(p + 1) as int]@);
            lemma_seq_lt_total(old_v[p as int], name@);
            assert(seq_lt(name@, old_v[p as int]));
        }
        assert forall|q: int| p <= q < old_v.len() implies seq_lt(name@, #[trigger] old_v[q]) by {
            if q > p {
                lemma_seq_lt_transitive(name@, old_v[p as int], old_v[q]);
            }
        }
        assert forall|i: int, j: int| 0 <= i < j < new_v.len() implies seq_lt(#[trigger] new_v[i], #[trigger] new_v[j]) by {
            if j < p {
                assert(new_v[i] == old_v[i] && new_v[j] == old_v[j]);
            } else if j == p {
                assert(new_v[i] == old_v[i]);
            } else if i < p {
                assert(new_v[i] == old_v[i] && new_v[j] == old_v[j - 1]);
                lemma_seq_lt_transitive(old_v[i], name@, old_v[j - 1]);
            } else if i == p {
                assert(new_v[j] == old_v[j - 1]);
            } else {
                assert(new_v[i] == old_v[i - 1] && new_v[j] == old_v[j - 1]);
            }
        }
        assert forall|n: Seq<char>| #![trigger new_v.contains(n)] new_v.contains(n) <==> (old_v.contains(n) || n == name@) by {
            if new_v.contains(n) {
                let t = choose|t: int| 0 <= t < new_v.len() && new_v[t] == n;
                if t < p {
                    assert(old_v[t] == n);
                } else if t > p {
                    assert(old_v[t - 1] == n);
                }
            }
            if old_v.contains(n) {
                let t = choose|t: int| 0 <= t < old_v.len() && old_v[t] == n;
                if t < p {
                    assert(new_v[t] == n);
                } else {
                    assert(new_v[t + 1] == n);
                }
            }
            if n == name@ {
                assert(new_v[p as int] == n);
            }
        }
    }
}

/// The accounts with an entry of amount `c`, in name order, once each.
fn names_with_amount(entries: &Vec<(u64, String)>, c: u64) -> (r: Vec<String>)
    ensures
        names_for(entries@, c, strings_view(r@)),
{
    let mut r: Vec<String> = Vec::new();
    proof {
        assert(entries@.take(0) =~= Seq::<(u64, String)>::empty());
        assert(strings_view(r@) =~= Seq::<Seq<char>>::empty());
    }
    for k in 0..entries.len()
        invariant
            names_for(entries@.take(k as int), c, strings_view(r@)),
    {
        let ghost pre = entries@.take(k as int);
        let ghost post = entries@.take(k + 1);
        proof {
            assert(post =~= pre.push(entries@[k as int]));
        }
        if entries[k].0 == c {
            insert_name(&mut r, &entries[k].1);
        }
        proof {
            assert forall|n: Seq<char>| #![trigger strings_view(r@).contains(n)] #![trigger has_entry(post, c, n)]
                strings_view(r@).contains(n) <==> has_entry(post, c, n) by {
                if has_entry(post, c, n) {
                    let t = choose|t: int| 0 <= t < post.len() && (#[trigger] post[t]).0 == c && post[t].1@ == n;
                    if t < k {
                        assert(pre[t] == post[t]);
                        assert(has_entry(pre, c, n));
                    }
                }
                if has_entry(pre, c, n) {
                    let t = choose|t: int| 0 <= t < pre.len() && (#[trigger] pre[t]).0 == c && pre[t].1@ == n;
                    assert(post[t] == pre[t]);
                }
                if entries@[k as int].0 == c && n == entries@[k as int].1@ {
                    assert(post[k as int] == entries@[k as int]);
                }
            }
        }
    }
    proof {
        assert(entries@.take(entries@.len() as int) =~= entries@);
    }
    r
}

/// Appends an amount in cents with two decimals.
fn push_cents(out: &mut String, c: u64)
    ensures
        final(out)@ == old(out)@ + cents_text(c as nat),
{
    push_decimal(out, c / 100);
    out.append(".");
    push_padded_decimal(out, c % 100, 2);
    proof {
        reveal_strlit(".");
        assert(final(out)@ =~= old(out)@ + cents_text(c as nat)) by {
            assert(final(out)@ =~= old(out)@ + decimal_text((c / 100) as nat) + "."@ + padded_decimal((c % 100) as nat, 2));
        }
    }
}

/// Appends texts joined with `sep`.
fn push_joined(out: &mut String, parts: &Vec<String>, sep: &str)
    ensures
        final(out)@ == old(out)@ + join_with(strings_view(parts@), sep@),
{
    let ghost start = out@;
    for k in 0..parts.len()
        invariant
            out@ == start + join_with(strings_view(parts@.take(k as int)), sep@),
    {
        let ghost before = strings_view(parts@.take(k as int));
        if k > 0 {
            out.append(sep);
        }
        out.append(parts[k].as_str());
        proof {
            let after = strings_view(parts@.take(k + 1));
            assert(after.drop_last() =~= before);
            assert(after.last() == parts@[k as int]@);
            if k == 0 {
                assert(after.len() == 1);
            }
            assert(out@ =~= start + join_with(after, sep@));
        }
    }
    proof {
        assert(parts@.take(parts@.len() as int) =~= parts@);
    }
}

/// Reports amounts (in cents) that more than one account carries: for each
/// such amount, in order of first appearance, a line naming the accounts in
/// name order. `entries` pairs each amount with its account.
pub fn suspicious_duplicates_report(entries: &Vec<(u64, String)>) -> (r: Option<String>)
    ensures
        r is None <==> duplicate_report(entries@) is None,
        r matches Some(t) ==> duplicate_report(entries@) == Some(t@),
{
    let amounts = amounts_in_order(entries);
    let mut warnings: Vec<String> = Vec::new();
    proof {
        reveal_strlit("- Value ");
        reveal_strlit(" appears in multiple accounts: ");
        reveal_strlit(", ");
        reveal_strlit("\n");
    }
    for i in 0..amounts.len()
        invariant
            amounts@ == first_amounts(entries@),
            strings_view(warnings@) == warnings_for(entries@, amounts@, i as int),
    {
        let c = amounts[i];
        let ns = names_with_amount(entries, c);
        proof {
            let chosen = sorted_names(entries@, c);
            assert(names_for(entries@, c, chosen));
            lemma_sorted_names_unique(chosen, strings_view(ns@));
        }
        let ghost before = strings_view(warnings@);
        if ns.len() > 1 {
            let mut w = String::from_str("- Value ");
            push_cents(&mut w, c);
            w.append(" appears in multiple accounts: ");
            push_joined(&mut w, &ns, ", ");
            proof {
                reveal_strlit("- Value ");
                reveal_strlit(" appears in multiple accounts: ");
                reveal_strlit(", ");
                assert(amount_warning(entries@, c) == Some(w@));
            }
            warnings.push(w);
            proof {
                assert(strings_view(warnings@) =~= before.push(w@));
            }
        }
    }
    if warnings.len() == 0 {
        return None;
    }
    let mut out = String::new();
    push_joined(&mut out, &warnings, "\n");
    proof {
        reveal_strlit("\n");
        assert(out@ =~= join_with(strings_view(warnings@), "\n"@));
    }
    Some(out)
}

/// The instruction that opens a question about documents.
pub open spec fn assistant_preamble() -> Seq<char> {
    "You are a helpful assistant analyzing the provided documents.\n\n"@
}

/// The prompt that asks `question` about the attached documents: the
/// instruction followed by the question.
pub fn assistant_prompt(question: &str) -> (r: String)
    ensures
        r@ == assistant_preamble() + question@,
{
    let mut r = String::from_str("You are a helpful assistant analyzing the provided documents.\n\n");
    r.append(question);
    proof {
        reveal_strlit("You are a helpful assistant analyzing the provided documents.\n\n");
    }
    r
}

} // verus!
