use stocks_api::cash::{
    account_standing, add_cash_account, add_cash_transfer, booked_transfer, cash_balance,
    cash_tx_kinds,
    check_cash_edit, date_to_store, delete_cash_account, delete_cash_transaction, is_trade_owned_kind,
    is_transaction_owned, is_valid_cash_tx_kind, update_cash_account, update_cash_transaction,
    validate_cash_tx, CashAccountPayload, CashTransferPayload, CashTxOwner, CashTxPayload, Deletion,
    LedgerAmount,
};
use stocks_api::dividends::HeldTrade;
use stocks_api::fields::DayClose;
use stocks_api::number::{Decimals, Formula, Number};
use stocks_api::records::{
    dividend_account_for_currency, parse_int, record_new_dividends, DividendRecordResult,
    Exclusion, RecordInputs, ReportedDividend,
};
use stocks_api::reply::Reason;
use stocks_api::settle::{
    settlement_of, sync_trade_cash_leg, trade_cash_legs, CashLeg, LedgerRow, Settlement, StoredTrade,
    HALF_CENT_BITS,
};
use stocks_api::textmap::TextMap;
use stocks_api::transactions::{
    insert_holding_transaction, modify_holding_transaction, NewHoldingTransaction,
};

fn n(x: f64) -> Number {
    Number { bits: x.to_bits() }
}

fn f(x: Number) -> f64 {
    f64::from_bits(x.bits)
}

fn value(formula: &Formula) -> f64 {
    match formula {
        Formula::Value(x) => f(*x),
        Formula::Whole(w) => *w as f64,
        Formula::Sum(a, b) => value(a) + value(b),
        Formula::Difference(a, b) => value(a) - value(b),
        Formula::Product(a, b) => value(a) * value(b),
        Formula::Quotient(a, b) => value(a) / value(b),
        Formula::Opposite(a) => -value(a),
        Formula::Rounded(a) => value(a).round(),
    }
}

fn calc(formula: Formula) -> Number {
    n(value(&formula))
}

fn render(x: Number, decimals: Decimals) -> String {
    match decimals {
        Decimals::Fixed(places) => format!("{:.*}", places as usize, f(x)),
        Decimals::Shortest => format!("{}", f(x)),
    }
}

fn trade_payload(kind: &str, quantity: f64, price: f64) -> NewHoldingTransaction {
    NewHoldingTransaction {
        transaction_type: kind.to_string(),
        date: "2026-02-02".to_string(),
        quantity: Some(n(quantity)),
        price: Some(n(price)),
        amount: None,
        brokerage: None,
        notes: None,
        currency: None,
        original_price: None,
        fx_rate: None,
        cash_account_id: None,
        withholding_amount: None,
        confirm: None,
    }
}

/// A ledger with its accounts, as the service keeps it.
struct Ledger {
    accounts: Vec<(i64, &'static str)>,
    rows: Vec<LedgerRow>,
}

impl Ledger {
    fn new(accounts: &[(i64, &'static str)]) -> Ledger {
        Ledger { accounts: accounts.to_vec(), rows: vec![] }
    }

    fn settle(
        &mut self,
        id: i64,
        trade: Option<&StoredTrade>,
        payment_date: Option<&str>,
        withholding: Option<f64>,
    ) -> Result<(), String> {
        let currency = trade
            .and_then(|t| t.cash_account_id)
            .and_then(|a| self.accounts.iter().find(|x| x.0 == a).map(|x| x.1));
        let rows = std::mem::take(&mut self.rows);
        let (rows, outcome) = sync_trade_cash_leg(
            rows,
            id,
            trade,
            currency,
            payment_date,
            withholding.map(n),
            &calc,
            &render,
        );
        self.rows = rows;
        outcome
    }

    fn insert(
        &mut self,
        id: i64,
        symbol: &str,
        payload: &NewHoldingTransaction,
        payment_date: Option<&str>,
        withholding: Option<f64>,
    ) -> Result<(), String> {
        let trade = insert_holding_transaction(symbol, payload)?;
        self.settle(id, Some(&trade), payment_date, withholding)
    }

    fn legs(&self, id: i64) -> Vec<(f64, String, i64)> {
        self.rows
            .iter()
            .filter(|r| r.holding_tx_id == Some(id))
            .map(|r| (f(r.leg.amount), r.leg.kind.clone(), r.leg.account_id))
            .collect()
    }

    fn balance(&self, account: i64) -> f64 {
        let amounts: Vec<LedgerAmount> = self
            .rows
            .iter()
            .map(|r| LedgerAmount {
                account_id: r.leg.account_id,
                date: r.leg.date.clone(),
                amount: r.leg.amount,
            })
            .collect();
        f(cash_balance(&amounts, account, None, &calc))
    }
}

#[test]
fn trade_writes_a_settlement_leg_in_the_right_direction() {
    let mut ledger = Ledger::new(&[(1, "AUD")]);
    let mut buy = trade_payload("purchase", 100.0, 10.0);
    buy.brokerage = Some(n(9.5));
    buy.cash_account_id = Some(1);
    ledger.insert(1, "BHP.AX", &buy, None, None).unwrap();
    assert_eq!(ledger.legs(1), vec![(-1009.5, "trade_buy".to_string(), 1)]);

    let mut sell = trade_payload("sale", 50.0, 12.0);
    sell.brokerage = Some(n(9.5));
    sell.cash_account_id = Some(1);
    ledger.insert(2, "BHP.AX", &sell, None, None).unwrap();
    assert_eq!(ledger.legs(2), vec![(590.5, "trade_sell".to_string(), 1)]);
    assert!((ledger.balance(1) - (-419.0)).abs() < 1e-9);
}

#[test]
fn trade_without_an_account_writes_no_leg() {
    let mut ledger = Ledger::new(&[]);
    ledger.insert(1, "BHP.AX", &trade_payload("purchase", 10.0, 5.0), None, None).unwrap();
    assert!(ledger.legs(1).is_empty());
}

#[test]
fn editing_a_trade_rewrites_its_leg_and_clearing_the_account_removes_it() {
    let mut ledger = Ledger::new(&[(1, "AUD"), (2, "AUD")]);
    let mut buy = trade_payload("purchase", 100.0, 10.0);
    buy.cash_account_id = Some(1);
    ledger.insert(1, "BHP.AX", &buy, None, None).unwrap();
    assert_eq!(ledger.legs(1), vec![(-1000.0, "trade_buy".to_string(), 1)]);

    let mut edit = trade_payload("purchase", 100.0, 11.0);
    edit.cash_account_id = Some(2);
    let edited = modify_holding_transaction("BHP.AX", &edit, None).unwrap();
    ledger.settle(1, Some(&edited), None, None).unwrap();
    assert_eq!(ledger.legs(1), vec![(-1100.0, "trade_buy".to_string(), 2)]);

    let detached = modify_holding_transaction("BHP.AX", &trade_payload("purchase", 100.0, 11.0), None).unwrap();
    ledger.settle(1, Some(&detached), None, None).unwrap();
    assert!(ledger.legs(1).is_empty());
}

#[test]
fn deleting_a_trade_removes_its_leg() {
    let mut ledger = Ledger::new(&[(1, "AUD")]);
    let mut buy = trade_payload("purchase", 100.0, 10.0);
    buy.cash_account_id = Some(1);
    ledger.insert(1, "BHP.AX", &buy, None, None).unwrap();
    ledger.settle(1, None, None, None).unwrap();
    assert!(ledger.legs(1).is_empty());
    assert_eq!(ledger.balance(1), 0.0);
}

#[test]
fn settling_again_changes_nothing() {
    let mut ledger = Ledger::new(&[(1, "AUD")]);
    let mut buy = trade_payload("purchase", 100.0, 10.0);
    buy.cash_account_id = Some(1);
    let trade = insert_holding_transaction("BHP.AX", &buy).unwrap();
    ledger.settle(1, Some(&trade), None, None).unwrap();
    ledger.settle(1, Some(&trade), None, None).unwrap();
    assert_eq!(ledger.legs(1).len(), 1);
}

fn foreign_buy(brokerage: f64) -> NewHoldingTransaction {
    let mut buy = trade_payload("purchase", 10.0, 150.0);
    buy.currency = Some("USD".to_string());
    buy.original_price = Some(n(100.0));
    buy.fx_rate = Some(n(1.5));
    buy.brokerage = Some(n(brokerage));
    buy.cash_account_id = Some(1);
    buy
}

#[test]
fn foreign_trade_settles_in_native_currency_including_brokerage() {
    let mut ledger = Ledger::new(&[(1, "USD")]);
    ledger.insert(1, "AAPL", &foreign_buy(15.0), None, None).unwrap();
    assert_eq!(ledger.legs(1), vec![(-1010.0, "trade_buy".to_string(), 1)]);
}

fn dividend(quantity: Option<f64>, price: Option<f64>, amount: f64) -> NewHoldingTransaction {
    let mut div = trade_payload("dividend", 0.0, 0.0);
    div.quantity = quantity.map(n);
    div.price = price.map(n);
    div.amount = Some(n(amount));
    div.cash_account_id = Some(1);
    div
}

#[test]
fn dividend_settles_on_its_payment_date() {
    let mut ledger = Ledger::new(&[(1, "AUD")]);
    let mut div = dividend(Some(200.0), Some(0.64), 128.0);
    div.date = "2026-03-12".to_string();
    ledger.insert(1, "SUL.AX", &div, Some("2026-04-08"), None).unwrap();
    assert_eq!(ledger.legs(1), vec![(128.0, "dividend".to_string(), 1)]);
    assert_eq!(ledger.rows[0].leg.date, "2026-04-08", "cash lands on the payment date");
}

#[test]
fn dividend_withholding_is_recorded_as_its_own_leg() {
    let mut ledger = Ledger::new(&[(1, "AUD")]);
    ledger.insert(1, "VEU.AX", &dividend(Some(22.0), Some(0.5644), 12.42), None, Some(30.0)).unwrap();
    let mut legs = ledger.legs(1);
    legs.sort_by(|a, b| b.0.partial_cmp(&a.0).unwrap());
    assert_eq!(legs, vec![(12.42, "dividend".to_string(), 1), (-3.73, "fee".to_string(), 1)]);
    assert!((legs.iter().map(|l| l.0).sum::<f64>() - 8.69).abs() < 0.005);
}

#[test]
fn a_payments_own_withholding_amount_overrides_the_symbol_rate() {
    let mut ledger = Ledger::new(&[(1, "AUD")]);
    let mut div = dividend(Some(50.0), Some(0.555), 27.75);
    div.withholding_amount = Some(n(12.00));
    ledger.insert(1, "DMP.AX", &div, None, Some(30.0)).unwrap();
    let mut legs = ledger.legs(1);
    legs.sort_by(|a, b| b.0.partial_cmp(&a.0).unwrap());
    assert_eq!(legs, vec![(27.75, "dividend".to_string(), 1), (-12.00, "fee".to_string(), 1)]);
    assert!((legs.iter().map(|l| l.0).sum::<f64>() - 15.75).abs() < 0.005);
}

#[test]
fn dividend_without_withholding_keeps_one_leg() {
    let mut ledger = Ledger::new(&[(1, "AUD")]);
    ledger.insert(1, "VAS.AX", &dividend(None, None, 26.01), None, None).unwrap();
    assert_eq!(ledger.legs(1), vec![(26.01, "dividend".to_string(), 1)]);
}

#[test]
fn dividend_recorded_as_a_total_alone_still_settles() {
    let mut ledger = Ledger::new(&[(1, "AUD")]);
    ledger.insert(1, "VAS.AX", &dividend(None, None, 185.22), None, None).unwrap();
    assert_eq!(ledger.legs(1), vec![(185.22, "dividend".to_string(), 1)]);
}

#[test]
fn foreign_dividend_settles_natively_from_the_recorded_total() {
    let mut ledger = Ledger::new(&[(1, "USD")]);
    let mut div = dividend(None, None, 7.68);
    div.currency = Some("USD".to_string());
    div.fx_rate = Some(n(1.42178702354431));
    ledger.insert(1, "NSC", &div, None, None).unwrap();
    let legs = ledger.legs(1);
    assert_eq!(legs.len(), 1);
    assert!((legs[0].0 - 7.68 / 1.42178702354431).abs() < 0.01, "got {}", legs[0].0);
}

#[test]
fn dividend_without_a_known_payment_date_settles_on_its_own_date() {
    let mut ledger = Ledger::new(&[(1, "AUD")]);
    let mut div = dividend(Some(100.0), Some(0.5), 50.0);
    div.date = "2025-09-11".to_string();
    ledger.insert(1, "XRF.AX", &div, None, None).unwrap();
    assert_eq!(ledger.rows[0].leg.date, "2025-09-11");
}

#[test]
fn a_dividend_leg_cannot_be_edited_as_a_manual_entry() {
    let owner = CashTxOwner { transfer_group_id: None, holding_tx_id: Some(7) };
    let payload = cash_payload("dividend", "2026-03-12", 999.0, 1);
    let refusal = update_cash_transaction(3, Some(&owner), &payload, Some("AUD")).unwrap_err();
    assert_eq!(refusal.reason.status(), 400);
    let refusal = delete_cash_transaction(3, Some(&owner)).unwrap_err();
    assert_eq!(refusal.reason.status(), 400);
    assert!(is_transaction_owned(Some(7)) && !is_transaction_owned(None));
}

#[test]
fn foreign_trade_settles_from_an_aud_account_by_converting() {
    let mut ledger = Ledger::new(&[(1, "AUD")]);
    ledger.insert(1, "AAPL", &foreign_buy(11.95), None, None).unwrap();
    assert_eq!(ledger.legs(1), vec![(-1511.95, "trade_buy".to_string(), 1)]);
    let notes = &ledger.rows[0].leg.notes;
    assert!(notes.contains("USD 1000.00"), "note should state the foreign amount: {notes}");
    assert!(notes.contains("1.5000"), "note should state the rate used: {notes}");
}

#[test]
fn foreign_trade_settles_natively_from_a_matching_account() {
    let mut ledger = Ledger::new(&[(1, "USD")]);
    ledger.insert(1, "AAPL", &foreign_buy(15.0), None, None).unwrap();
    assert_eq!(ledger.legs(1), vec![(-1010.0, "trade_buy".to_string(), 1)]);
}

#[test]
fn cross_currency_without_an_aud_leg_is_still_refused() {
    let mut ledger = Ledger::new(&[(1, "USD")]);
    let mut buy = trade_payload("purchase", 10.0, 40.0);
    buy.currency = Some("AUD".to_string());
    buy.cash_account_id = Some(1);
    let err = ledger.insert(1, "BHP.AX", &buy, None, None).unwrap_err();
    assert!(err.contains("settles in AUD"), "unhelpful error: {err}");
    assert!(err.contains("USD"), "error should name the account currency: {err}");
}

#[test]
fn a_missing_account_is_refused() {
    let mut buy = trade_payload("purchase", 10.0, 40.0);
    buy.cash_account_id = Some(42);
    let trade = insert_holding_transaction("BHP.AX", &buy).unwrap();
    let err = trade_cash_legs(&trade, None, None, None, &calc, &render).unwrap_err();
    assert_eq!(err, "Cash account 42 not found");
}

#[test]
fn accounts_settle_their_own_currency_or_convert_home() {
    assert!(matches!(settlement_of("AUD", "AUD"), Some(Settlement::Home)));
    assert!(matches!(settlement_of("USD", "USD"), Some(Settlement::Native)));
    assert!(matches!(settlement_of("USD", "AUD"), Some(Settlement::Converted)));
    assert!(settlement_of("AUD", "USD").is_none());
    assert_eq!(f64::from_bits(HALF_CENT_BITS), 0.005);
}

#[test]
fn other_entries_are_left_alone() {
    let mut ledger = Ledger::new(&[(1, "AUD")]);
    ledger.rows.push(LedgerRow {
        leg: CashLeg {
            account_id: 1,
            date: "2026-01-01".to_string(),
            amount: n(5.0),
            kind: "deposit".to_string(),
            notes: String::new(),
        },
        holding_tx_id: None,
    });
    let mut buy = trade_payload("purchase", 1.0, 1.0);
    buy.cash_account_id = Some(1);
    ledger.insert(1, "BHP.AX", &buy, None, None).unwrap();
    ledger.settle(1, None, None, None).unwrap();
    assert_eq!(ledger.rows.len(), 1);
    assert_eq!(ledger.balance(1), 5.0);
}

fn amounts(rows: &[(i64, &str, f64)]) -> Vec<LedgerAmount> {
    rows.iter()
        .map(|(account_id, date, amount)| LedgerAmount {
            account_id: *account_id,
            date: date.to_string(),
            amount: n(*amount),
        })
        .collect()
}

#[test]
fn cash_balance_is_derived_as_at_a_date() {
    let rows = amounts(&[(1, "2026-01-01", 1000.0), (1, "2026-02-01", 1000.0), (1, "2026-03-01", 4.10)]);
    assert_eq!(f(cash_balance(&rows, 1, Some("2026-01-15"), &calc)), 1000.0);
    assert_eq!(f(cash_balance(&rows, 1, Some("2026-02-01"), &calc)), 2000.0);
    assert!((f(cash_balance(&rows, 1, None, &calc)) - 2004.10).abs() < 1e-9);
    assert_eq!(f(cash_balance(&vec![], 1, None, &calc)), 0.0, "an empty ledger is a legitimate zero");
}

#[test]
fn an_account_is_listed_with_its_standing() {
    let rows = amounts(&[(1, "2026-01-01", 100.0), (2, "2026-01-01", 7.0), (1, "2026-02-01", -40.0)]);
    let points = vec![DayClose { date: "2026-01-01".to_string(), close: n(1.5) }];
    let standing = account_standing(&rows, 1, "USD", &points, "2026-03-01", &calc);
    assert_eq!(f(standing.balance), 60.0);
    assert_eq!(standing.balance_aud.map(f), Some(90.0));
    assert_eq!(standing.transaction_count, 2);
    let standing = account_standing(&rows, 1, "USD", &vec![], "2026-03-01", &calc);
    assert_eq!(standing.balance_aud, None, "no rate on record yet");
}

fn cash_payload(kind: &str, date: &str, amount: f64, account: i64) -> CashTxPayload {
    CashTxPayload {
        account_id: account,
        date: date.to_string(),
        amount: n(amount),
        kind: kind.to_string(),
        notes: None,
    }
}

#[test]
fn editing_a_cash_transaction_is_blocked_for_trade_and_transfer_legs() {
    let payload = cash_payload("deposit", "2026-01-05", 1234.0, 1);
    let plain = CashTxOwner { transfer_group_id: None, holding_tx_id: None };
    assert!(update_cash_transaction(10, Some(&plain), &payload, Some("AUD")).is_ok());
    let transfer = CashTxOwner { transfer_group_id: Some("g1".to_string()), holding_tx_id: None };
    let refusal = update_cash_transaction(11, Some(&transfer), &payload, Some("AUD")).unwrap_err();
    assert_eq!(refusal.reason.status(), 400, "a transfer leg must not be editable alone");
    let leg = CashTxOwner { transfer_group_id: None, holding_tx_id: Some(1) };
    let refusal = update_cash_transaction(12, Some(&leg), &payload, Some("AUD")).unwrap_err();
    assert_eq!(refusal.reason.status(), 400, "a trade's settlement leg must not be editable");
    assert_eq!(check_cash_edit(99, None).unwrap_err().reason.status(), 404);
}

#[test]
fn cash_tx_validation_rejects_bad_input_and_trade_owned_kinds() {
    let check = |kind: &str, date: &str, amount: f64, account: i64| {
        let currency = if account == 1 { Some("AUD") } else { None };
        validate_cash_tx(&cash_payload(kind, date, amount, account), currency)
    };
    assert!(check("deposit", "2026-01-01", 100.0, 1).is_ok());
    assert!(check("trade_buy", "2026-01-01", -100.0, 1).unwrap_err().contains("created from the trade"));
    assert!(check("nonsense", "2026-01-01", 100.0, 1).is_err());
    assert!(check("deposit", "01/01/2026", 100.0, 1).is_err());
    assert!(check("deposit", "2026-01-01", 0.0, 1).is_err());
    assert!(check("deposit", "2026-01-01", 100.0, 99).unwrap_err().contains("not found"));
}

#[test]
fn kinds_are_known_by_name() {
    assert!(is_valid_cash_tx_kind("deposit") && !is_valid_cash_tx_kind("nonsense"));
    assert!(is_trade_owned_kind("trade_buy") && is_trade_owned_kind("trade_sell"));
    assert!(!is_trade_owned_kind("dividend"));
    assert!(cash_tx_kinds().iter().all(|k| is_valid_cash_tx_kind(k)));
}

#[test]
fn deleting_one_side_of_a_transfer_deletes_both() {
    let transfer = CashTxOwner { transfer_group_id: Some("g1".to_string()), holding_tx_id: None };
    match delete_cash_transaction(1, Some(&transfer)).unwrap() {
        Deletion::Group(g) => assert_eq!(g, "g1"),
        other => panic!("{other:?}"),
    }
    let plain = CashTxOwner { transfer_group_id: None, holding_tx_id: None };
    assert!(matches!(delete_cash_transaction(1, Some(&plain)), Ok(Deletion::One)));
}

#[test]
fn a_cash_account_is_kept_when_its_transaction_count_cannot_be_read() {
    let refusal = delete_cash_account(1, Err("no such table".to_string())).unwrap_err();
    assert_eq!(refusal.reason, Reason::Internal);
    assert_eq!(refusal.reason.status(), 500);
    assert!(delete_cash_account(1, Ok(0)).is_ok());
    assert!(delete_cash_account(1, Ok(2)).is_err());
}

fn account_payload(name: &str, currency: &str) -> CashAccountPayload {
    CashAccountPayload {
        name: name.to_string(),
        currency: currency.to_string(),
        interest_rate: None,
        include_in_portfolio: Some(true),
        notes: None,
    }
}

#[test]
fn a_currency_change_is_refused_when_the_balance_cannot_be_read() {
    let payload = account_payload("Everyday", "USD");
    let refusal =
        update_cash_account(1, Some("AUD"), &payload, Err("no such table".to_string())).unwrap_err();
    assert_eq!(refusal.reason.status(), 500);
    assert!(update_cash_account(1, Some("AUD"), &payload, Ok(n(10.0))).is_err());
    assert_eq!(update_cash_account(1, Some("AUD"), &payload, Ok(n(0.0))).unwrap().currency, "USD");
    assert_eq!(update_cash_account(1, None, &payload, Ok(n(0.0))).unwrap_err().reason.status(), 404);
}

#[test]
fn an_account_needs_a_name_and_a_currency() {
    let entry = add_cash_account(&account_payload(" Savings ", " usd ")).unwrap();
    assert_eq!((entry.name.as_str(), entry.currency.as_str()), ("Savings", "USD"));
    assert!(add_cash_account(&account_payload("  ", "AUD")).is_err());
    assert!(add_cash_account(&account_payload("Savings", "dollars")).is_err());
}

#[test]
fn a_transfer_takes_from_one_account_and_gives_to_the_other() {
    let payload = |from: i64, to: i64, out: f64, into: f64| CashTransferPayload {
        from_account_id: from,
        to_account_id: to,
        date: "2026-01-02".to_string(),
        from_amount: n(out),
        to_amount: n(into),
        notes: None,
    };
    let legs = add_cash_transfer(&payload(1, 2, 150.0, 100.0), true, true, &calc).unwrap();
    assert_eq!((legs.from_account_id, legs.to_account_id), (1, 2));
    assert_eq!((f(legs.out_amount), f(legs.in_amount)), (-150.0, 100.0));
    let mut sent = payload(1, 2, 150.0, 100.0);
    sent.date = "2026-1-2".to_string();
    sent.notes = Some("swap".to_string());
    let (out, into) = booked_transfer(&sent, &legs, "xfer-1");
    assert_eq!((out.account_id, f(out.amount), out.kind.as_str()), (1, -150.0, "fx_out"));
    assert_eq!((into.account_id, f(into.amount), into.kind.as_str()), (2, 100.0, "fx_in"));
    for entry in [out, into] {
        assert_eq!(entry.date.as_deref(), Some("2026-01-02"));
        assert_eq!(entry.group, "xfer-1");
        assert_eq!(entry.notes.as_deref(), Some("swap"));
    }
    assert!(add_cash_transfer(&payload(1, 1, 150.0, 100.0), true, true, &calc).is_err());
    assert!(add_cash_transfer(&payload(1, 2, 0.0, 100.0), true, true, &calc).is_err());
    assert!(add_cash_transfer(&payload(1, 2, 150.0, 100.0), false, true, &calc).is_err());
}

fn held(symbol: &str, kind: &str, date: &str, quantity: f64, currency: &str) -> HeldTrade {
    HeldTrade {
        symbol: symbol.to_string(),
        transaction_type: kind.to_string(),
        date: date.to_string(),
        quantity: Some(n(quantity)),
        currency: currency.to_string(),
    }
}

fn inputs(trades: Vec<HeldTrade>) -> RecordInputs {
    let mut config = TextMap::new();
    config.insert("dividend_account_AUD".to_string(), "1".to_string());
    RecordInputs { trades, exclusions: vec![], config, closes: TextMap::new() }
}

fn reported(symbol: &str, ex_date: &str, amount: f64) -> Vec<ReportedDividend> {
    vec![ReportedDividend { symbol: symbol.to_string(), ex_date: ex_date.to_string(), amount: n(amount) }]
}

fn recorded(result: &DividendRecordResult) -> Vec<(String, f64)> {
    result.plans.iter().map(|p| (p.date.clone(), f(p.amount))).collect()
}

#[test]
fn a_fetched_dividend_is_recorded_and_settled_automatically() {
    let given = inputs(vec![held("VAS.AX", "purchase", "2026-01-05", 40.0, "AUD")]);
    let result = record_new_dividends(&given, &reported("VAS.AX", "2026-04-01", 0.65), &calc);
    assert_eq!(recorded(&result), vec![("2026-04-01".to_string(), 26.0)]);
    let plan = &result.plans[0];
    let mut ledger = Ledger::new(&[(1, "AUD")]);
    let mut payload = dividend(Some(f(plan.quantity)), Some(f(plan.price)), f(plan.amount));
    payload.date = plan.date.clone();
    payload.cash_account_id = Some(plan.cash_account_id);
    ledger.insert(1, &plan.symbol, &payload, None, None).unwrap();
    assert_eq!(ledger.legs(1), vec![(26.0, "dividend".to_string(), 1)]);
}

#[test]
fn recording_dividends_is_idempotent() {
    let mut given = inputs(vec![held("VAS.AX", "purchase", "2026-01-05", 40.0, "AUD")]);
    let events = reported("VAS.AX", "2026-04-01", 0.65);
    let first = record_new_dividends(&given, &events, &calc);
    assert_eq!(first.plans.len(), 1);
    given.trades.push(held("VAS.AX", "dividend", &first.plans[0].date, 40.0, "AUD"));
    assert_eq!(record_new_dividends(&given, &events, &calc).plans.len(), 0);
}

#[test]
fn a_deleted_dividend_is_not_recreated_by_the_next_refresh() {
    let mut given = inputs(vec![held("NDQ.AX", "purchase", "2025-01-02", 60.0, "AUD")]);
    let events = reported("NDQ.AX", "2025-01-02", 0.028393);
    assert_eq!(record_new_dividends(&given, &events, &calc).plans.len(), 1);
    assert!(stocks_api::transactions::deletion_declines("dividend", true));
    assert!(!stocks_api::transactions::deletion_declines("purchase", true));
    assert!(!stocks_api::transactions::deletion_declines("dividend", false));
    given.exclusions.push(Exclusion {
        symbol: "NDQ.AX".to_string(),
        ex_date: "2025-01-02".to_string(),
    });
    let after = record_new_dividends(&given, &events, &calc);
    assert_eq!(after.plans.len(), 0, "a declined dividend must stay declined");
    assert_eq!(after.excluded, 1);
}

#[test]
fn dividends_before_the_holding_existed_are_not_recorded() {
    let given = inputs(vec![held("VAS.AX", "purchase", "2026-01-05", 40.0, "AUD")]);
    let result = record_new_dividends(&given, &reported("VAS.AX", "2025-06-01", 0.65), &calc);
    assert!(result.plans.is_empty());
}

#[test]
fn dividends_in_an_unconfigured_currency_are_left_alone() {
    let given = inputs(vec![held("NSC", "purchase", "2026-01-05", 4.0, "USD")]);
    let result = record_new_dividends(&given, &reported("NSC", "2026-04-01", 1.35), &calc);
    assert!(result.plans.is_empty());
    assert_eq!(result.unconfigured_currencies, vec!["USD".to_string()]);
}

#[test]
fn a_foreign_dividend_is_recorded_at_the_rate_of_its_day() {
    let mut given = inputs(vec![held("NSC", "purchase", "2026-01-05", 4.0, "USD")]);
    given.config.insert("dividend_account_USD".to_string(), " 2 ".to_string());
    let events = reported("NSC", "2026-04-01", 1.25);
    let none = record_new_dividends(&given, &events, &calc);
    assert!(none.plans.is_empty() && none.errors.len() == 1, "no rate on record");
    given.closes.insert(
        "USDAUD=X".to_string(),
        vec![DayClose { date: "2026-03-31".to_string(), close: n(1.5) }],
    );
    let some = record_new_dividends(&given, &events, &calc);
    assert_eq!(some.plans.len(), 1);
    assert_eq!(f(some.plans[0].amount), 7.5);
    assert_eq!(some.plans[0].fx_rate.map(f), Some(1.5));
    assert_eq!(some.plans[0].cash_account_id, 2);
}

#[test]
fn account_numbers_are_whole_numbers() {
    let mut config = TextMap::new();
    config.insert("dividend_account_AUD".to_string(), "12".to_string());
    config.insert("dividend_account_USD".to_string(), "twelve".to_string());
    assert_eq!(dividend_account_for_currency(&config, "AUD"), Some(12));
    assert_eq!(dividend_account_for_currency(&config, "USD"), None);
    assert_eq!(dividend_account_for_currency(&config, "GBP"), None);
    assert_eq!(parse_int("-9223372036854775808"), "-9223372036854775808".parse::<i64>().ok());
    for text in ["", "+", "-", "+7", "9223372036854775808", "1 ", "0x1"] {
        assert_eq!(parse_int(text), text.parse::<i64>().ok(), "{text:?}");
    }
}

/// A transaction that can no longer settle keeps no entry of what it was.
#[test]
fn a_failed_settlement_leaves_no_old_entry() {
    let mut ledger = Ledger::new(&[(1, "AUD"), (2, "USD")]);
    let mut buy = trade_payload("purchase", 10.0, 40.0);
    buy.cash_account_id = Some(1);
    ledger.insert(7, "BHP.AX", &buy, None, None).unwrap();
    ledger.insert(8, "BHP.AX", &buy, None, None).unwrap();
    assert_eq!(ledger.legs(7).len(), 1);
    buy.cash_account_id = Some(2);
    assert!(ledger.insert(7, "BHP.AX", &buy, None, None).is_err());
    assert_eq!(ledger.legs(7).len(), 0);
    assert_eq!(ledger.legs(8).len(), 1);
}

#[test]
fn dates_are_stored_in_one_form() {
    assert_eq!(date_to_store("2026-8-1").as_deref(), Some("2026-08-01"));
    assert_eq!(date_to_store("2026-08-01").as_deref(), Some("2026-08-01"));
    assert_eq!(date_to_store("01/08/2026"), None);
}

#[test]
fn a_second_run_over_written_plans_plans_nothing() {
    let mut given = inputs(vec![
        held("VAS.AX", "purchase", "2026-01-05", 40.0, "AUD"),
        held("NSC", "purchase", "2026-01-05", 4.0, "USD"),
    ]);
    let mut events = reported("VAS.AX", "2026-04-01", 0.65);
    events.extend(reported("VAS.AX", "2026-07-01", 0.70));
    events.extend(reported("VAS.AX", "2025-07-01", 0.60));
    events.extend(reported("NSC", "2026-04-01", 1.35));
    let first = record_new_dividends(&given, &events, &calc);
    assert_eq!(first.plans.len(), 2);
    assert!(first.errors.is_empty());
    for plan in &first.plans {
        given.trades.insert(0, held(&plan.symbol, "dividend", &plan.date, 40.0, &plan.currency));
    }
    let second = record_new_dividends(&given, &events, &calc);
    assert_eq!(second.plans.len(), 0);
    assert_eq!(second.unconfigured_currencies, first.unconfigured_currencies);
}
