//! The chart of accounts: every account of a configuration, grouped by kind
//! and sorted by name.
use vstd::prelude::*;
use vstd::string::*;

use crate::schema::{AccountType, BalanceSheetAccount, FinancialHistoryConfig, IncomeStatementAccount};
use crate::sort::{law_sort_by_name, sort_by_name, sort_by_name_spec, Named};
use crate::text::{bool_str, bool_text, decimal_text, push_decimal};

verus! {

/// One account of the chart.
#[derive(Debug)]
pub struct AccountEntry {
    pub name: String,
    pub account_type: AccountType,
    pub is_balancing_account: bool,
    pub code: Option<String>,
}

impl Named for AccountEntry {
    open spec fn name_view(&self) -> Seq<char> {
        self.name@
    }

    fn name_ref(&self) -> (r: &str) {
        self.name.as_str()
    }
}

/// Accounts of an organisation grouped by kind, each group sorted by name.
#[derive(Debug)]
pub struct ChartOfAccounts {
    pub organization_name: String,
    pub fiscal_year_end_month: u32,
    pub assets: Vec<AccountEntry>,
    pub liabilities: Vec<AccountEntry>,
    pub equity: Vec<AccountEntry>,
    pub revenue: Vec<AccountEntry>,
    pub cost_of_sales: Vec<AccountEntry>,
    pub operating_expenses: Vec<AccountEntry>,
    pub other_income: Vec<AccountEntry>,
    pub interest: Vec<AccountEntry>,
    pub depreciation: Vec<AccountEntry>,
    pub shareholder_salaries: Vec<AccountEntry>,
    pub income_tax: Vec<AccountEntry>,
}

/// The chart entry of a balance sheet account.
pub open spec fn entry_of_bs<V>(a: BalanceSheetAccount<V>) -> AccountEntry {
    AccountEntry { name: a.name, account_type: a.account_type, is_balancing_account: a.is_balancing_account, code: None }
}

/// The chart entry of an income statement account (never a balancing account).
pub open spec fn entry_of_is<V>(a: IncomeStatementAccount<V>) -> AccountEntry {
    AccountEntry { name: a.name, account_type: a.account_type, is_balancing_account: false, code: None }
}

/// Entries of the balance sheet accounts of type `t`, in configuration order.
pub open spec fn bs_entries<V>(s: Seq<BalanceSheetAccount<V>>, t: AccountType) -> Seq<AccountEntry>
    decreases s.len(),
{
    if s.len() == 0 {
        Seq::<AccountEntry>::empty()
    } else {
        let r = bs_entries(s.drop_last(), t);
        if s.last().account_type == t {
            r.push(entry_of_bs(s.last()))
        } else {
            r
        }
    }
}

/// Entries of the income statement accounts of type `t`, in configuration order.
pub open spec fn is_entries<V>(s: Seq<IncomeStatementAccount<V>>, t: AccountType) -> Seq<AccountEntry>
    decreases s.len(),
{
    if s.len() == 0 {
        Seq::<AccountEntry>::empty()
    } else {
        let r = is_entries(s.drop_last(), t);
        if s.last().account_type == t {
            r.push(entry_of_is(s.last()))
        } else {
            r
        }
    }
}

/// The section of the chart that holds accounts of type `t`: balance sheet
/// kinds come from the balance sheet, income statement kinds from the income
/// statement; sorted by name.
pub open spec fn section_spec<V>(config: FinancialHistoryConfig<V>, t: AccountType) -> Seq<AccountEntry> {
    if t.is_balance_sheet_type() {
        sort_by_name_spec(bs_entries(config.balance_sheet@, t))
    } else {
        sort_by_name_spec(is_entries(config.income_statement@, t))
    }
}

/// All entries of the chart, section after section.
pub open spec fn all_entries(c: ChartOfAccounts) -> Seq<AccountEntry> {
    c.assets@ + c.liabilities@ + c.equity@ + c.revenue@ + c.cost_of_sales@ + c.operating_expenses@
        + c.other_income@ + c.interest@ + c.depreciation@ + c.shareholder_salaries@ + c.income_tax@
}

/// The first entry of `s` that is marked as balancing.
pub open spec fn first_balancing(s: Seq<AccountEntry>) -> Option<AccountEntry>
    decreases s.len(),
{
    if s.len() == 0 {
        None
    } else if s[0].is_balancing_account {
        Some(s[0])
    } else {
        first_balancing(s.drop_first())
    }
}

/// A section's lines as `to_csv` writes them.
pub open spec fn csv_lines(section: Seq<char>, s: Seq<AccountEntry>) -> Seq<char>
    decreases s.len(),
{
    if s.len() == 0 {
        Seq::<char>::empty()
    } else {
        csv_lines(section, s.drop_last()) + section + ","@ + s.last().name@ + ","@
            + s.last().account_type.name_spec() + ","@ + bool_text(s.last().is_balancing_account) + "\n"@
    }
}

/// The marker that flags the balancing account in the markdown chart.
pub open spec fn marker_text(b: bool) -> Seq<char> {
    if b { " 🔄 **[BALANCING]**"@ } else { ""@ }
}

/// A balance sheet section's bullet lines as `to_markdown` writes them.
pub open spec fn md_lines_marked(s: Seq<AccountEntry>) -> Seq<char>
    decreases s.len(),
{
    if s.len() == 0 {
        Seq::<char>::empty()
    } else {
        md_lines_marked(s.drop_last()) + "- "@ + s.last().name@ + marker_text(s.last().is_balancing_account) + "\n"@
    }
}

/// An income statement section's bullet lines as `to_markdown` writes them.
pub open spec fn md_lines(s: Seq<AccountEntry>) -> Seq<char>
    decreases s.len(),
{
    if s.len() == 0 {
        Seq::<char>::empty()
    } else {
        md_lines(s.drop_last()) + "- "@ + s.last().name@ + "\n"@
    }
}

/// A copy of a string.
fn copy_string(s: &String) -> (r: String)
    ensures
        r == *s,
{
    s.clone()
}

fn push_csv_lines(out: &mut String, section: &str, entries: &Vec<AccountEntry>)
    ensures
        final(out)@ == old(out)@ + csv_lines(section@, entries@),
{
    let ghost start = out@;
    for i in 0..entries.len()
        invariant
            out@ == start + csv_lines(section@, entries@.take(i as int)),
    {
        let e = &entries[i];
        proof {
            assert(entries@.take(i + 1).drop_last() == entries@.take(i as int));
        }
        out.append(section);
        out.append(",");
        out.append(e.name.as_str());
        out.append(",");
        out.append(e.account_type.name());
        out.append(",");
        out.append(bool_str(e.is_balancing_account));
        out.append("\n");
    }
    proof {
        assert(entries@.take(entries.len() as int) == entries@);
    }
}

fn push_md_lines_marked(out: &mut String, entries: &Vec<AccountEntry>)
    ensures
        final(out)@ == old(out)@ + md_lines_marked(entries@),
{
    let ghost start = out@;
    for i in 0..entries.len()
        invariant
            out@ == start + md_lines_marked(entries@.take(i as int)),
    {
        let e = &entries[i];
        proof {
            assert(entries@.take(i + 1).drop_last() == entries@.take(i as int));
        }
        out.append("- ");
        out.append(e.name.as_str());
        if e.is_balancing_account {
            out.append(" 🔄 **[BALANCING]**");
        } else {
            out.append("");
        }
        out.append("\n");
    }
    proof {
        assert(entries@.take(entries.len() as int) == entries@);
    }
}

fn push_md_lines(out: &mut String, entries: &Vec<AccountEntry>)
    ensures
        final(out)@ == old(out)@ + md_lines(entries@),
{
    let ghost start = out@;
    for i in 0..entries.len()
        invariant
            out@ == start + md_lines(entries@.take(i as int)),
    {
        let e = &entries[i];
        proof {
            assert(entries@.take(i + 1).drop_last() == entries@.take(i as int));
        }
        out.append("- ");
        out.append(e.name.as_str());
        out.append("\n");
    }
    proof {
        assert(entries@.take(entries.len() as int) == entries@);
    }
}

/// The chart of a configuration extended by the names of `dense_account_names`
/// that no configured account carries (balancing accounts created while
/// processing): those become balancing equity entries.
pub open spec fn extra_equity_entries<V>(config: FinancialHistoryConfig<V>, names: Seq<String>) -> Seq<AccountEntry>
    decreases names.len(),
{
    if names.len() == 0 {
        Seq::<AccountEntry>::empty()
    } else {
        let r = extra_equity_entries(config, names.drop_last());
        let n = names.last();
        if (exists|k: int| 0 <= k < config.balance_sheet@.len() && (#[trigger] config.balance_sheet@[k]).name@ == n@)
            || (exists|k: int| 0 <= k < config.income_statement@.len() && (#[trigger] config.income_statement@[k]).name@ == n@) {
            r
        } else {
            r.push(AccountEntry { name: n, account_type: AccountType::Equity, is_balancing_account: true, code: None })
        }
    }
}

impl ChartOfAccounts {
    /// The chart of the accounts of `config`.
    pub fn from_config<V>(config: &FinancialHistoryConfig<V>) -> (r: ChartOfAccounts)
        ensures
            r.organization_name == config.organization_name,
            r.fiscal_year_end_month == config.fiscal_year_end_month,
            r.assets@ == section_spec(*config, AccountType::Asset),
            r.liabilities@ == section_spec(*config, AccountType::Liability),
            r.equity@ == section_spec(*config, AccountType::Equity),
            r.revenue@ == section_spec(*config, AccountType::Revenue),
            r.cost_of_sales@ == section_spec(*config, AccountType::CostOfSales),
            r.operating_expenses@ == section_spec(*config, AccountType::OperatingExpense),
            r.other_income@ == section_spec(*config, AccountType::OtherIncome),
            r.interest@ == section_spec(*config, AccountType::Interest),
            r.depreciation@ == section_spec(*config, AccountType::Depreciation),
            r.shareholder_salaries@ == section_spec(*config, AccountType::ShareholderSalaries),
            r.income_tax@ == section_spec(*config, AccountType::IncomeTax),
            all_entries(r).len() == bs_typed_count(config.balance_sheet@) + is_typed_count(config.income_statement@),
    {
        let mut assets: Vec<AccountEntry> = Vec::new();
        let mut liabilities: Vec<AccountEntry> = Vec::new();
        let mut equity: Vec<AccountEntry> = Vec::new();
        let mut revenue: Vec<AccountEntry> = Vec::new();
        let mut cost_of_sales: Vec<AccountEntry> = Vec::new();
        let mut operating_expenses: Vec<AccountEntry> = Vec::new();
        let mut other_income: Vec<AccountEntry> = Vec::new();
        let mut interest: Vec<AccountEntry> = Vec::new();
        let mut depreciation: Vec<AccountEntry> = Vec::new();
        let mut shareholder_salaries: Vec<AccountEntry> = Vec::new();
        let mut income_tax: Vec<AccountEntry> = Vec::new();

        let bs = &config.balance_sheet;
        for i in 0..bs.len()
            invariant
                bs == &config.balance_sheet,
                assets@ == bs_entries(bs@.take(i as int), AccountType::Asset),
                liabilities@ == bs_entries(bs@.take(i as int), AccountType::Liability),
                equity@ == bs_entries(bs@.take(i as int), AccountType::Equity),
        {
            let account = &bs[i];
            proof {
                assert(bs@.take(i + 1).drop_last() == bs@.take(i as int));
            }
            let entry = AccountEntry {
                name: copy_string(&account.name),
                account_type: account.account_type,
                is_balancing_account: account.is_balancing_account,
                code: None,
            };
            match account.account_type {
                AccountType::Asset => assets.push(entry),
                AccountType::Liability => liabilities.push(entry),
                AccountType::Equity => equity.push(entry),
                _ => {},
            }
        }
        proof {
            assert(bs@.take(bs.len() as int) == bs@);
        }

        let is = &config.income_statement;
        for i in 0..is.len()
            invariant
                is == &config.income_statement,
                revenue@ == is_entries(is@.take(i as int), AccountType::Revenue),
                cost_of_sales@ == is_entries(is@.take(i as int), AccountType::CostOfSales),
                operating_expenses@ == is_entries(is@.take(i as int), AccountType::OperatingExpense),
                other_income@ == is_entries(is@.take(i as int), AccountType::OtherIncome),
                interest@ == is_entries(is@.take(i as int), AccountType::Interest),
                depreciation@ == is_entries(is@.take(i as int), AccountType::Depreciation),
                shareholder_salaries@ == is_entries(is@.take(i as int), AccountType::ShareholderSalaries),
                income_tax@ == is_entries(is@.take(i as int), AccountType::IncomeTax),
        {
            let account = &is[i];
            proof {
                assert(is@.take(i + 1).drop_last() == is@.take(i as int));
            }
            let entry = AccountEntry {
                name: copy_string(&account.name),
                account_type: account.account_type,
                is_balancing_account: false,
                code: None,
            };
            match account.account_type {
                AccountType::Revenue => revenue.push(entry),
                AccountType::CostOfSales => cost_of_sales.push(entry),
                AccountType::OperatingExpense => operating_expenses.push(entry),
                AccountType::OtherIncome => other_income.push(entry),
                AccountType::Interest => interest.push(entry),
                AccountType::Depreciation => depreciation.push(entry),
                AccountType::ShareholderSalaries => shareholder_salaries.push(entry),
                AccountType::IncomeTax => income_tax.push(entry),
                _ => {},
            }
        }
        proof {
            assert(is@.take(is.len() as int) == is@);
        }

        let chart = ChartOfAccounts {
            organization_name: copy_string(&config.organization_name),
            fiscal_year_end_month: config.fiscal_year_end_month,
            assets: sort_by_name(assets),
            liabilities: sort_by_name(liabilities),
            equity: sort_by_name(equity),
            revenue: sort_by_name(revenue),
            cost_of_sales: sort_by_name(cost_of_sales),
            operating_expenses: sort_by_name(operating_expenses),
            other_income: sort_by_name(other_income),
            interest: sort_by_name(interest),
            depreciation: sort_by_name(depreciation),
            shareholder_salaries: sort_by_name(shareholder_salaries),
            income_tax: sort_by_name(income_tax),
        };
        proof {
            lemma_config_chart_count(*config, chart);
        }
        chart
    }

    /// The chart of `config` plus a balancing equity entry for every account
    /// of the processed data (named in `dense_account_names`) that the
    /// configuration does not hold.
    pub fn from_dense_data<V>(config: &FinancialHistoryConfig<V>, dense_account_names: &Vec<String>) -> (r: ChartOfAccounts)
        ensures
            r.organization_name == config.organization_name,
            r.fiscal_year_end_month == config.fiscal_year_end_month,
            r.assets@ == section_spec(*config, AccountType::Asset),
            r.liabilities@ == section_spec(*config, AccountType::Liability),
            r.equity@ == sort_by_name_spec(
                section_spec(*config, AccountType::Equity) + extra_equity_entries(*config, dense_account_names@),
            ),
            r.revenue@ == section_spec(*config, AccountType::Revenue),
            r.cost_of_sales@ == section_spec(*config, AccountType::CostOfSales),
            r.operating_expenses@ == section_spec(*config, AccountType::OperatingExpense),
            r.other_income@ == section_spec(*config, AccountType::OtherIncome),
            r.interest@ == section_spec(*config, AccountType::Interest),
            r.depreciation@ == section_spec(*config, AccountType::Depreciation),
            r.shareholder_salaries@ == section_spec(*config, AccountType::ShareholderSalaries),
            r.income_tax@ == section_spec(*config, AccountType::IncomeTax),
            all_entries(r).len() == bs_typed_count(config.balance_sheet@) + is_typed_count(config.income_statement@)
                + extra_equity_entries(*config, dense_account_names@).len(),
    {
        let mut chart = Self::from_config(config);
        let ghost base_equity = chart.equity@;
        let ghost c0 = chart;
        for j in 0..dense_account_names.len()
            invariant
                chart.equity@ == base_equity + extra_equity_entries(*config, dense_account_names@.take(j as int)),
                chart.organization_name == c0.organization_name,
                chart.fiscal_year_end_month == c0.fiscal_year_end_month,
                chart.assets == c0.assets,
                chart.liabilities == c0.liabilities,
                chart.revenue == c0.revenue,
                chart.cost_of_sales == c0.cost_of_sales,
                chart.operating_expenses == c0.operating_expenses,
                chart.other_income == c0.other_income,
                chart.interest == c0.interest,
                chart.depreciation == c0.depreciation,
                chart.shareholder_salaries == c0.shareholder_salaries,
                chart.income_tax == c0.income_tax,
        {
            let account_name = &dense_account_names[j];
            proof {
                assert(dense_account_names@.take(j + 1).drop_last() == dense_account_names@.take(j as int));
            }
            let mut is_in_balance_sheet = false;
            let mut k: usize = 0;
            while k < config.balance_sheet.len()
                invariant
                    k <= config.balance_sheet.len(),
                    is_in_balance_sheet == exists|m: int| 0 <= m < k && (#[trigger] config.balance_sheet@[m]).name@ == account_name@,
                decreases config.balance_sheet.len() - k,
            {
                if config.balance_sheet[k].name == *account_name {
                    is_in_balance_sheet = true;
                }
                k = k + 1;
            }
            let mut is_in_income_statement = false;
            let mut k: usize = 0;
            while k < config.income_statement.len()
                invariant
                    k <= config.income_statement.len(),
                    is_in_income_statement == exists|m: int| 0 <= m < k && (#[trigger] config.income_statement@[m]).name@ == account_name@,
                decreases config.income_statement.len() - k,
            {
                if config.income_statement[k].name == *account_name {
                    is_in_income_statement = true;
                }
                k = k + 1;
            }
            if !is_in_balance_sheet && !is_in_income_statement {
                let entry = AccountEntry {
                    name: copy_string(account_name),
                    account_type: AccountType::Equity,
                    is_balancing_account: true,
                    code: None,
                };
                chart.equity.push(entry);
            }
        }
        proof {
            assert(dense_account_names@.take(dense_account_names.len() as int) == dense_account_names@);
        }
        let mut equity: Vec<AccountEntry> = Vec::new();
        std::mem::swap(&mut equity, &mut chart.equity);
        chart.equity = sort_by_name(equity);
        proof {
            law_chart_counts_accounts(*config, dense_account_names@, chart);
        }
        chart
    }

    /// The chart as CSV: a header line, then one line per account, section by
    /// section.
    pub fn to_csv(&self) -> (r: String)
        ensures
            r@ == "Section,Account Name,Account Type,Is Balancing Account\n"@
                + csv_lines("Assets"@, self.assets@) + csv_lines("Liabilities"@, self.liabilities@)
                + csv_lines("Equity"@, self.equity@) + csv_lines("Revenue"@, self.revenue@)
                + csv_lines("Cost of Sales"@, self.cost_of_sales@)
                + csv_lines("Operating Expenses"@, self.operating_expenses@)
                + csv_lines("Other Income"@, self.other_income@) + csv_lines("Interest"@, self.interest@)
                + csv_lines("Depreciation"@, self.depreciation@)
                + csv_lines("Shareholder Salaries"@, self.shareholder_salaries@)
                + csv_lines("Income Tax"@, self.income_tax@),
    {
        let mut output = String::new();
        output.append("Section,Account Name,Account Type,Is Balancing Account\n");
        push_csv_lines(&mut output, "Assets", &self.assets);
        push_csv_lines(&mut output, "Liabilities", &self.liabilities);
        push_csv_lines(&mut output, "Equity", &self.equity);
        push_csv_lines(&mut output, "Revenue", &self.revenue);
        push_csv_lines(&mut output, "Cost of Sales", &self.cost_of_sales);
        push_csv_lines(&mut output, "Operating Expenses", &self.operating_expenses);
        push_csv_lines(&mut output, "Other Income", &self.other_income);
        push_csv_lines(&mut output, "Interest", &self.interest);
        push_csv_lines(&mut output, "Depreciation", &self.depreciation);
        push_csv_lines(&mut output, "Shareholder Salaries", &self.shareholder_salaries);
        push_csv_lines(&mut output, "Income Tax", &self.income_tax);
        output
    }

    /// The chart as a markdown document: a title, the fiscal year end, then a
    /// bullet list per section; balance sheet entries carry a marker when they
    /// are the balancing account.
    pub fn to_markdown(&self) -> (r: String)
        ensures
            r@ == "# Chart of Accounts - "@ + self.organization_name@ + "\n\n"@
                + "**Fiscal Year End:** Month "@ + decimal_text(self.fiscal_year_end_month as nat) + "\n\n"@
                + "## Balance Sheet\n\n"@
                + "### Assets\n\n"@ + md_lines_marked(self.assets@) + "\n"@
                + "### Liabilities\n\n"@ + md_lines_marked(self.liabilities@) + "\n"@
                + "### Equity\n\n"@ + md_lines_marked(self.equity@) + "\n"@
                + "## Income Statement\n\n"@
                + "### Revenue\n\n"@ + md_lines(self.revenue@) + "\n"@
                + "### Cost of Sales\n\n"@ + md_lines(self.cost_of_sales@) + "\n"@
                + "### Operating Expenses\n\n"@ + md_lines(self.operating_expenses@) + "\n"@
                + "### Other Income\n\n"@ + md_lines(self.other_income@) + "\n"@
                + "### Interest\n\n"@ + md_lines(self.interest@) + "\n"@
                + "### Depreciation\n\n"@ + md_lines(self.depreciation@) + "\n"@
                + "### Shareholder Salaries\n\n"@ + md_lines(self.shareholder_salaries@) + "\n"@
                + "### Income Tax\n\n"@ + md_lines(self.income_tax@) + "\n"@,
    {
        let mut output = String::new();
        output.append("# Chart of Accounts - ");
        output.append(self.organization_name.as_str());
        output.append("\n\n");
        output.append("**Fiscal Year End:** Month ");
        push_decimal(&mut output, self.fiscal_year_end_month as u64);
        output.append("\n\n");
        output.append("## Balance Sheet\n\n");
        output.append("### Assets\n\n");
        push_md_lines_marked(&mut output, &self.assets);
        output.append("\n");
        output.append("### Liabilities\n\n");
        push_md_lines_marked(&mut output, &self.liabilities);
        output.append("\n");
        output.append("### Equity\n\n");
        push_md_lines_marked(&mut output, &self.equity);
        output.append("\n");
        output.append("## Income Statement\n\n");
        output.append("### Revenue\n\n");
        push_md_lines(&mut output, &self.revenue);
        output.append("\n");
        output.append("### Cost of Sales\n\n");
        push_md_lines(&mut output, &self.cost_of_sales);
        output.append("\n");
        output.append("### Operating Expenses\n\n");
        push_md_lines(&mut output, &self.operating_expenses);
        output.append("\n");
        output.append("### Other Income\n\n");
        push_md_lines(&mut output, &self.other_income);
        output.append("\n");
        output.append("### Interest\n\n");
        push_md_lines(&mut output, &self.interest);
        output.append("\n");
        output.append("### Depreciation\n\n");
        push_md_lines(&mut output, &self.depreciation);
        output.append("\n");
        output.append("### Shareholder Salaries\n\n");
        push_md_lines(&mut output, &self.shareholder_salaries);
        output.append("\n");
        output.append("### Income Tax\n\n");
        push_md_lines(&mut output, &self.income_tax);
        output.append("\n");
        output
    }

    /// The number of accounts in the chart.
    pub fn total_accounts(&self) -> (r: usize)
        requires
            all_entries(*self).len() <= usize::MAX,
        ensures
            r == all_entries(*self).len(),
    {
        self.assets.len() + self.liabilities.len() + self.equity.len() + self.revenue.len()
            + self.cost_of_sales.len() + self.operating_expenses.len() + self.other_income.len()
            + self.interest.len() + self.depreciation.len() + self.shareholder_salaries.len()
            + self.income_tax.len()
    }

    /// The first balancing entry, looking at the sections in chart order.
    pub fn get_balancing_account(&self) -> (r: Option<&AccountEntry>)
        ensures
            r is Some <==> first_balancing(all_entries(*self)) is Some,
            r matches Some(e) ==> first_balancing(all_entries(*self)) == Some(*e),
    {
        proof {
            let a1 = self.assets@;
            let a2 = a1 + self.liabilities@;
            let a3 = a2 + self.equity@;
            let a4 = a3 + self.revenue@;
            let a5 = a4 + self.cost_of_sales@;
            let a6 = a5 + self.operating_expenses@;
            let a7 = a6 + self.other_income@;
            let a8 = a7 + self.interest@;
            let a9 = a8 + self.depreciation@;
            let a10 = a9 + self.shareholder_salaries@;
            lemma_first_balancing_concat(a1, self.liabilities@);
            lemma_first_balancing_concat(a2, self.equity@);
            lemma_first_balancing_concat(a3, self.revenue@);
            lemma_first_balancing_concat(a4, self.cost_of_sales@);
            lemma_first_balancing_concat(a5, self.operating_expenses@);
            lemma_first_balancing_concat(a6, self.other_income@);
            lemma_first_balancing_concat(a7, self.interest@);
            lemma_first_balancing_concat(a8, self.depreciation@);
            lemma_first_balancing_concat(a9, self.shareholder_salaries@);
            lemma_first_balancing_concat(a10, self.income_tax@);
        }
        if let Some(i) = find_balancing(&self.assets) {
            return Some(&self.assets[i]);
        }
        if let Some(i) = find_balancing(&self.liabilities) {
            return Some(&self.liabilities[i]);
        }
        if let Some(i) = find_balancing(&self.equity) {
            return Some(&self.equity[i]);
        }
        if let Some(i) = find_balancing(&self.revenue) {
            return Some(&self.revenue[i]);
        }
        if let Some(i) = find_balancing(&self.cost_of_sales) {
            return Some(&self.cost_of_sales[i]);
        }
        if let Some(i) = find_balancing(&self.operating_expenses) {
            return Some(&self.operating_expenses[i]);
        }
        if let Some(i) = find_balancing(&self.other_income) {
            return Some(&self.other_income[i]);
        }
        if let Some(i) = find_balancing(&self.interest) {
            return Some(&self.interest[i]);
        }
        if let Some(i) = find_balancing(&self.depreciation) {
            return Some(&self.depreciation[i]);
        }
        if let Some(i) = find_balancing(&self.shareholder_salaries) {
            return Some(&self.shareholder_salaries[i]);
        }
        if let Some(i) = find_balancing(&self.income_tax) {
            return Some(&self.income_tax[i]);
        }
        None
    }
}

/// The first balancing entry of `a + b` is that of `a`, or else that of `b`.
pub proof fn lemma_first_balancing_concat(a: Seq<AccountEntry>, b: Seq<AccountEntry>)
    ensures
        first_balancing(a + b) == (if first_balancing(a) is Some { first_balancing(a) } else { first_balancing(b) }),
    decreases a.len(),
{
    if a.len() == 0 {
        assert(a + b =~= b);
    } else {
        assert((a + b).drop_first() =~= a.drop_first() + b);
        lemma_first_balancing_concat(a.drop_first(), b);
    }
}

/// Index of the first balancing entry of `v`.
fn find_balancing(v: &Vec<AccountEntry>) -> (r: Option<usize>)
    ensures
        r is Some <==> first_balancing(v@) is Some,
        r matches Some(i) ==> i < v.len() && first_balancing(v@) == Some(v@[i as int]),
{
    let mut i: usize = 0;
    proof {
        assert(v@.skip(0) =~= v@);
    }
    while i < v.len()
        invariant
            i <= v.len(),
            first_balancing(v@) == first_balancing(v@.skip(i as int)),
        decreases v.len() - i,
    {
        proof {
            assert(v@.skip(i as int).drop_first() =~= v@.skip(i + 1));
        }
        if v[i].is_balancing_account {
            return Some(i);
        }
        i = i + 1;
    }
    None
}

/// The number of balance sheet accounts whose type is a balance sheet type.
pub open spec fn bs_typed_count<V>(s: Seq<BalanceSheetAccount<V>>) -> nat
    decreases s.len(),
{
    if s.len() == 0 {
        0
    } else {
        bs_typed_count(s.drop_last()) + if s.last().account_type.is_balance_sheet_type() { 1nat } else { 0nat }
    }
}

/// The number of income statement accounts whose type is an income statement
/// type.
pub open spec fn is_typed_count<V>(s: Seq<IncomeStatementAccount<V>>) -> nat
    decreases s.len(),
{
    if s.len() == 0 {
        0
    } else {
        is_typed_count(s.drop_last()) + if !s.last().account_type.is_balance_sheet_type() { 1nat } else { 0nat }
    }
}

proof fn lemma_bs_sections_count<V>(s: Seq<BalanceSheetAccount<V>>)
    ensures
        bs_entries(s, AccountType::Asset).len() + bs_entries(s, AccountType::Liability).len()
            + bs_entries(s, AccountType::Equity).len() == bs_typed_count(s),
    decreases s.len(),
{
    if s.len() > 0 {
        lemma_bs_sections_count(s.drop_last());
    }
}

proof fn lemma_is_sections_count<V>(s: Seq<IncomeStatementAccount<V>>)
    ensures
        is_entries(s, AccountType::Revenue).len() + is_entries(s, AccountType::CostOfSales).len()
            + is_entries(s, AccountType::OperatingExpense).len() + is_entries(s, AccountType::OtherIncome).len()
            + is_entries(s, AccountType::Interest).len() + is_entries(s, AccountType::Depreciation).len()
            + is_entries(s, AccountType::ShareholderSalaries).len() + is_entries(s, AccountType::IncomeTax).len()
            == is_typed_count(s),
    decreases s.len(),
{
    if s.len() > 0 {
        lemma_is_sections_count(s.drop_last());
    }
}

/// A chart with the sections of a configuration counts its balance sheet
/// accounts of a balance sheet type and its income statement accounts of an
/// income statement type.
proof fn lemma_config_chart_count<V>(config: FinancialHistoryConfig<V>, chart: ChartOfAccounts)
    requires
        chart.assets@ == section_spec(config, AccountType::Asset),
        chart.liabilities@ == section_spec(config, AccountType::Liability),
        chart.equity@ == section_spec(config, AccountType::Equity),
        chart.revenue@ == section_spec(config, AccountType::Revenue),
        chart.cost_of_sales@ == section_spec(config, AccountType::CostOfSales),
        chart.operating_expenses@ == section_spec(config, AccountType::OperatingExpense),
        chart.other_income@ == section_spec(config, AccountType::OtherIncome),
        chart.interest@ == section_spec(config, AccountType::Interest),
        chart.depreciation@ == section_spec(config, AccountType::Depreciation),
        chart.shareholder_salaries@ == section_spec(config, AccountType::ShareholderSalaries),
        chart.income_tax@ == section_spec(config, AccountType::IncomeTax),
    ensures
        all_entries(chart).len() == bs_typed_count(config.balance_sheet@) + is_typed_count(config.income_statement@),
{
    let bs = config.balance_sheet@;
    let is = config.income_statement@;
    lemma_bs_sections_count(bs);
    lemma_is_sections_count(is);
    law_sort_by_name(bs_entries(bs, AccountType::Asset));
    law_sort_by_name(bs_entries(bs, AccountType::Liability));
    law_sort_by_name(bs_entries(bs, AccountType::Equity));
    law_sort_by_name(is_entries(is, AccountType::Revenue));
    law_sort_by_name(is_entries(is, AccountType::CostOfSales));
    law_sort_by_name(is_entries(is, AccountType::OperatingExpense));
    law_sort_by_name(is_entries(is, AccountType::OtherIncome));
    law_sort_by_name(is_entries(is, AccountType::Interest));
    law_sort_by_name(is_entries(is, AccountType::Depreciation));
    law_sort_by_name(is_entries(is, AccountType::ShareholderSalaries));
    law_sort_by_name(is_entries(is, AccountType::IncomeTax));
}

/// A chart built from a configuration and the names of the processed series
/// (as `from_dense_data` builds it; with no names, as `from_config` does)
/// counts every balance sheet account of a balance sheet type, every income
/// statement account of an income statement type, and every series name that
/// names no account of the configuration.
pub proof fn law_chart_counts_accounts<V>(config: FinancialHistoryConfig<V>, names: Seq<String>, chart: ChartOfAccounts)
    requires
        chart.assets@ == section_spec(config, AccountType::Asset),
        chart.liabilities@ == section_spec(config, AccountType::Liability),
        chart.equity@ == sort_by_name_spec(section_spec(config, AccountType::Equity) + extra_equity_entries(config, names)),
        chart.revenue@ == section_spec(config, AccountType::Revenue),
        chart.cost_of_sales@ == section_spec(config, AccountType::CostOfSales),
        chart.operating_expenses@ == section_spec(config, AccountType::OperatingExpense),
        chart.other_income@ == section_spec(config, AccountType::OtherIncome),
        chart.interest@ == section_spec(config, AccountType::Interest),
        chart.depreciation@ == section_spec(config, AccountType::Depreciation),
        chart.shareholder_salaries@ == section_spec(config, AccountType::ShareholderSalaries),
        chart.income_tax@ == section_spec(config, AccountType::IncomeTax),
    ensures
        all_entries(chart).len() == bs_typed_count(config.balance_sheet@) + is_typed_count(config.income_statement@)
            + extra_equity_entries(config, names).len(),
{
    let bs = config.balance_sheet@;
    let is = config.income_statement@;
    lemma_bs_sections_count(bs);
    lemma_is_sections_count(is);
    law_sort_by_name(bs_entries(bs, AccountType::Asset));
    law_sort_by_name(bs_entries(bs, AccountType::Liability));
    law_sort_by_name(bs_entries(bs, AccountType::Equity));
    law_sort_by_name(section_spec(config, AccountType::Equity) + extra_equity_entries(config, names));
    law_sort_by_name(is_entries(is, AccountType::Revenue));
    law_sort_by_name(is_entries(is, AccountType::CostOfSales));
    law_sort_by_name(is_entries(is, AccountType::OperatingExpense));
    law_sort_by_name(is_entries(is, AccountType::OtherIncome));
    law_sort_by_name(is_entries(is, AccountType::Interest));
    law_sort_by_name(is_entries(is, AccountType::Depreciation));
    law_sort_by_name(is_entries(is, AccountType::ShareholderSalaries));
    law_sort_by_name(is_entries(is, AccountType::IncomeTax));
}

} // verus!
