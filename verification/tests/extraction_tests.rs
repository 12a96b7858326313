use financial_history_builder::date::Date;
use financial_history_builder::extraction::{
    create_document_manifest, distribute_into_batches, generate_markdown_tables, render_dense_table,
    resolve_document_ids, suspicious_duplicates_report, FormattedSeries,
};
use financial_history_builder::schema::{
    AccountType, BalanceSheetAccount, BalanceSheetSnapshot, FinancialHistoryConfig, IncomeStatementAccount,
    InterpolationMethod, PeriodConstraint, SeasonalityProfileId, SourceMetadata,
};

fn names(n: usize) -> Vec<String> {
    (0..n).map(|i| format!("Account {}", i)).collect()
}

#[test]
fn batches_are_even_and_bounded() {
    let items = names(60);
    let batches = distribute_into_batches(&items, 25);
    let sizes: Vec<usize> = batches.iter().map(|b| b.len()).collect();
    assert_eq!(sizes, vec![20, 20, 20]);
    assert_eq!(batches.concat(), items);

    let items = names(26);
    let sizes: Vec<usize> = distribute_into_batches(&items, 25).iter().map(|b| b.len()).collect();
    assert_eq!(sizes, vec![13, 13]);

    let items = names(7);
    let sizes: Vec<usize> = distribute_into_batches(&items, 3).iter().map(|b| b.len()).collect();
    assert_eq!(sizes, vec![3, 3, 1]);
}

#[test]
fn no_items_or_no_room_gives_no_batches() {
    assert!(distribute_into_batches(&vec![], 25).is_empty());
    assert!(distribute_into_batches(&names(3), 0).is_empty());
    assert_eq!(distribute_into_batches(&names(3), 10), vec![names(3)]);
}

#[test]
fn manifest_numbers_documents() {
    let docs = vec!["2023 Annual Report.pdf".to_string(), "Q1.xlsx".to_string()];
    let (manifest, ids) = create_document_manifest(&docs);
    assert!(manifest.starts_with("═══"));
    assert!(manifest.contains("📂 DOCUMENT MANIFEST\n"));
    assert!(manifest.contains("  Document ID: 0  →  \"2023 Annual Report.pdf\"\n  Document ID: 1  →  \"Q1.xlsx\"\n"));
    assert!(manifest.contains("Do NOT use filenames. Use ONLY the numeric ID from the manifest above.\n"));
    assert_eq!(ids, vec![("0".to_string(), docs[0].clone()), ("1".to_string(), docs[1].clone())]);
}

fn source(doc: &str) -> Option<SourceMetadata> {
    Some(SourceMetadata { document_name: doc.to_string(), original_text: Some("note".to_string()) })
}

fn sample_config() -> FinancialHistoryConfig<f64> {
    FinancialHistoryConfig {
        organization_name: "Docs Co".to_string(),
        fiscal_year_end_month: 12,
        balance_sheet: vec![BalanceSheetAccount {
            name: "Cash".to_string(),
            category: None,
            account_type: AccountType::Asset,
            method: InterpolationMethod::Linear,
            snapshots: vec![
                BalanceSheetSnapshot { date: Date { year: 2023, month: 12, day: 31 }, value: 1.0, source: source("1") },
                BalanceSheetSnapshot { date: Date { year: 2022, month: 12, day: 31 }, value: 2.0, source: source("report.pdf") },
                BalanceSheetSnapshot { date: Date { year: 2021, month: 12, day: 31 }, value: 3.0, source: None },
            ],
            is_balancing_account: true,
            noise_factor: 0.0,
        }],
        income_statement: vec![IncomeStatementAccount {
            name: "Sales".to_string(),
            account_type: AccountType::Revenue,
            seasonality_profile: SeasonalityProfileId::Flat,
            constraints: vec![PeriodConstraint { period: "2023-01:2023-12".to_string(), value: 9.0, source: source("0") }],
            noise_factor: 0.0,
        }],
    }
}

#[test]
fn document_numbers_are_resolved_to_names() {
    let mut config = sample_config();
    let (_, ids) = create_document_manifest(&vec!["a.pdf".to_string(), "b.pdf".to_string()]);
    resolve_document_ids(&mut config, &ids);
    let snaps = &config.balance_sheet[0].snapshots;
    assert_eq!(snaps[0].source.as_ref().unwrap().document_name, "b.pdf");
    assert_eq!(snaps[0].source.as_ref().unwrap().original_text, Some("note".to_string()));
    assert_eq!(snaps[1].source.as_ref().unwrap().document_name, "report.pdf");
    assert!(snaps[2].source.is_none());
    assert_eq!(config.income_statement[0].constraints[0].source.as_ref().unwrap().document_name, "a.pdf");
    assert_eq!(config.balance_sheet[0].snapshots[0].value, 1.0);
}

fn d(y: i32, m: u32, day: u32) -> Date {
    Date { year: y, month: m, day }
}

#[test]
fn dense_table_lists_every_date_once() {
    let accounts = vec![("Sales".to_string(), AccountType::Revenue), ("Missing".to_string(), AccountType::Revenue)];
    let dense = vec![
        FormattedSeries { name: "Other".to_string(), cells: vec![(d(2022, 1, 31), "9.00".to_string())] },
        FormattedSeries {
            name: "Sales".to_string(),
            cells: vec![(d(2023, 2, 28), "2.00".to_string()), (d(2023, 1, 31), "1.50".to_string())],
        },
    ];
    let table = render_dense_table(&accounts, &dense).unwrap();
    assert_eq!(
        table,
        "| Account | 2023-01-31 | 2023-02-28 |\n| --- | --- | --- |\n| Sales | 1.50 | 2.00 |\n| Missing |  |  |"
    );
    assert!(render_dense_table(&vec![("Missing".to_string(), AccountType::Revenue)], &dense).is_none());
}

#[test]
fn markdown_tables_have_both_sections() {
    let config = sample_config();
    let dense = vec![FormattedSeries { name: "Cash".to_string(), cells: vec![(d(2023, 12, 31), "1.00".to_string())] }];
    let text = generate_markdown_tables(&config, &Ok(dense));
    assert_eq!(
        text,
        "## Income Statement (P&L)\n\n⚠️ No data available\n\n\
         ## Balance Sheet - Densified Monthly Data\n\n| Account | 2023-12-31 |\n| --- | --- |\n| Cash | 1.00 |\n\n"
    );
    let failed = generate_markdown_tables(&config, &Err("boom".to_string()));
    assert_eq!(
        failed,
        "⚠️ Unable to generate tables - Densification failed: boom\n\nThis indicates a problem with the configuration that needs to be fixed."
    );
}

#[test]
fn amounts_shared_by_accounts_are_reported() {
    let entries = vec![
        (1234567u64, "Wages".to_string()),
        (50000u64, "Rent".to_string()),
        (1234567u64, "Salaries".to_string()),
        (1234567u64, "Wages".to_string()),
        (50000u64, "Rent".to_string()),
        (10005u64, "Fees".to_string()),
        (10005u64, "Bank Fees".to_string()),
    ];
    assert_eq!(
        suspicious_duplicates_report(&entries),
        Some(
            "- Value 12345.67 appears in multiple accounts: Salaries, Wages\n\
             - Value 100.05 appears in multiple accounts: Bank Fees, Fees"
                .to_string()
        )
    );
    assert_eq!(suspicious_duplicates_report(&vec![(10100u64, "A".to_string()), (10100u64, "A".to_string())]), None);
    assert_eq!(suspicious_duplicates_report(&vec![]), None);
}

#[test]
fn assistant_prompt_opens_with_the_instruction() {
    let p = financial_history_builder::extraction::assistant_prompt("What was revenue in 2023?");
    assert_eq!(p, "You are a helpful assistant analyzing the provided documents.\n\nWhat was revenue in 2023?");
}
