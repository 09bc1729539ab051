use bills_api::bills::{NewBill, NewBillLine};
use bills_api::create::{
    on_duplicate_checked, on_persisted, on_published, start, BillCreatedEvent, CreateBillCommand,
    CreateBillLineCommand, CreateBillResult, CreateBillStep,
};
use bills_api::errors::{AppError, FieldErrors};
use bills_api::money::{money, money_product, Dec};
use bills_api::store::InMemoryBillRepository;
use chrono::NaiveDate;

fn dec(mantissa: i128, scale: u32) -> Dec {
    Dec { mantissa, scale }
}

fn date() -> NaiveDate {
    NaiveDate::from_ymd_opt(2024, 5, 17).unwrap()
}

fn line(concept: &str, quantity: Dec, unit_amount: Dec) -> CreateBillLineCommand {
    CreateBillLineCommand { concept: concept.to_string(), quantity, unit_amount }
}

fn command(number: &str, currency: &str, tax: Dec, lines: Vec<CreateBillLineCommand>) -> CreateBillCommand {
    CreateBillCommand {
        bill_number: number.to_string(),
        issued_at: date(),
        customer_name: "ACME Corp".to_string(),
        currency: currency.to_string(),
        tax,
        lines,
    }
}

fn widget_command(number: &str) -> CreateBillCommand {
    command(number, "usd", dec(100, 2), vec![line("Widget", dec(3, 0), dec(9995, 3))])
}

/// Runs the workflow against `repo`; `skip_pre_check` pretends the pre-check
/// found nothing, `publish` is what the publisher reports.
fn run(
    repo: &mut InMemoryBillRepository,
    cmd: &CreateBillCommand,
    skip_pre_check: bool,
    publish: Result<(), AppError>,
    events: &mut Vec<BillCreatedEvent>,
) -> Result<CreateBillResult, AppError> {
    let mut step = start(cmd);
    let mut publish = Some(publish);
    loop {
        step = match step {
            CreateBillStep::CheckDuplicate(number) => {
                let exists = if skip_pre_check { false } else { repo.exists_by_bill_number(&number) };
                if !exists {
                    assert!(cmd.is_within_limits());
                }
                on_duplicate_checked(cmd, Ok(exists))
            }
            CreateBillStep::Persist(bill) => on_persisted(cmd, repo.create(bill)),
            CreateBillStep::Publish { created, event } => {
                let outcome = publish.take().unwrap();
                if outcome.is_ok() {
                    events.push(event);
                }
                on_published(created, outcome)
            }
            CreateBillStep::Done(r) => return r,
        };
    }
}

fn fields(errors: &FieldErrors) -> Vec<String> {
    errors.issues.iter().map(|i| i.field.clone()).collect()
}

#[test]
fn rounds_half_away_from_zero() {
    assert_eq!(money(dec(1005, 3)), dec(101, 2));
    assert_eq!(money(dec(-1005, 3)), dec(-101, 2));
    assert_eq!(money(dec(1004, 3)), dec(100, 2));
    assert_eq!(money(dec(7, 0)), dec(700, 2));
    assert_eq!(money(dec(-1, 1)), dec(-10, 2));
    assert_eq!(money(dec(-1004, 3)), dec(-100, 2));
}

#[test]
fn product_is_rounded_once() {
    assert_eq!(money_product(dec(3, 0), dec(9995, 3)), dec(2999, 2));
    assert_eq!(money_product(dec(15, 1), dec(-333, 2)), dec(-500, 2));
}

#[test]
fn widget_bill_amounts() {
    let bill = widget_command("INV-100").validate().unwrap();
    assert_eq!(bill.lines[0].line_amount, dec(2999, 2));
    assert_eq!(bill.subtotal, dec(2999, 2));
    let mut repo = InMemoryBillRepository::new();
    let mut events = Vec::new();
    let created = run(&mut repo, &widget_command("INV-100"), false, Ok(()), &mut events).unwrap();
    assert_eq!(created.id, 1);
    assert_eq!(created.bill_number, "INV-100");
    assert_eq!(created.subtotal, dec(2999, 2));
    assert_eq!(created.tax, dec(100, 2));
    assert_eq!(created.total, dec(3099, 2));
    assert_eq!(created.currency, "USD");
    assert_eq!(events.len(), 1);
    assert_eq!(events[0].bill_id, 1);
    assert_eq!(events[0].total, dec(3099, 2));
    assert_eq!(events[0].source, "rust-api");
    assert!(events[0].occurred_at_utc > 0);
}

#[test]
fn total_is_sum_of_rounded_lines_plus_tax() {
    let cmd = command(
        "INV-7",
        "eur",
        dec(1005, 3),
        vec![line("A", dec(2, 0), dec(1005, 3)), line("B", dec(1, 0), dec(333, 3))],
    );
    let bill = cmd.validate().unwrap();
    assert_eq!(bill.lines[0].line_amount, dec(201, 2));
    assert_eq!(bill.lines[1].line_amount, dec(33, 2));
    assert_eq!(bill.subtotal, dec(234, 2));
    assert_eq!(bill.tax, dec(101, 2));
    assert_eq!(bill.total, dec(335, 2));
    assert_eq!(bill.lines[1].line_no, 2);
    assert_eq!(bill.lines[0].unit_amount, dec(101, 2));
}

#[test]
fn zero_lines_fail_validation_on_lines() {
    let mut repo = InMemoryBillRepository::new();
    let mut events = Vec::new();
    let r = run(&mut repo, &command("INV-1", "USD", dec(0, 0), vec![]), false, Ok(()), &mut events);
    match r {
        Err(AppError::Validation(e)) => {
            assert_eq!(fields(&e), vec!["lines".to_string()]);
            assert_eq!(e.messages_for("lines"), vec!["At least one line is required.".to_string()]);
        }
        other => panic!("unexpected {:?}", other),
    }
    assert!(repo.list_bills().is_empty());
}

#[test]
fn bad_currency_fails_validation_on_currency() {
    for currency in ["US", "USDX", "   ", "  eu "] {
        let cmd = command("INV-2", currency, dec(0, 0), vec![line("X", dec(1, 0), dec(1, 0))]);
        match cmd.validate() {
            Err(e) => assert_eq!(fields(&e), vec!["currency".to_string()]),
            Ok(_) => panic!("accepted {currency}"),
        }
    }
    let ok = command("INV-2", " usd ", dec(0, 0), vec![line("X", dec(1, 0), dec(1, 0))]);
    assert_eq!(ok.validate().unwrap().currency, "USD");
}

#[test]
fn duplicate_number_conflicts_at_pre_check() {
    let mut repo = InMemoryBillRepository::new();
    let mut events = Vec::new();
    assert!(run(&mut repo, &widget_command("INV-100"), false, Ok(()), &mut events).is_ok());
    match run(&mut repo, &widget_command(" INV-100 "), false, Ok(()), &mut events) {
        Err(AppError::Conflict(m)) => assert_eq!(m, "Bill number ' INV-100 ' already exists."),
        other => panic!("unexpected {:?}", other),
    }
    assert_eq!(events.len(), 1);
    assert_eq!(repo.list_bills().len(), 1);
}

#[test]
fn duplicate_number_conflicts_at_storage() {
    let mut repo = InMemoryBillRepository::new();
    let mut events = Vec::new();
    assert!(run(&mut repo, &widget_command("INV-100"), false, Ok(()), &mut events).is_ok());
    match run(&mut repo, &widget_command("INV-100"), true, Ok(()), &mut events) {
        Err(AppError::Conflict(m)) => assert_eq!(m, "Bill number 'INV-100' already exists."),
        other => panic!("unexpected {:?}", other),
    }
    assert_eq!(events.len(), 1);
    assert_eq!(repo.list_bills().len(), 1);
}

#[test]
fn other_storage_failures_stay_infrastructure() {
    let cmd = widget_command("INV-3");
    match on_persisted(&cmd, Err(AppError::Infrastructure("connection reset".to_string()))) {
        CreateBillStep::Done(Err(AppError::Infrastructure(m))) => assert_eq!(m, "connection reset"),
        other => panic!("unexpected {:?}", other),
    }
    match on_persisted(&cmd, Err(AppError::Infrastructure("violates unique constraint".to_string()))) {
        CreateBillStep::Done(Err(AppError::Conflict(_))) => {}
        other => panic!("unexpected {:?}", other),
    }
}

#[test]
fn lookup_failure_ends_workflow() {
    let cmd = widget_command("INV-4");
    match on_duplicate_checked(&cmd, Err(AppError::Infrastructure("down".to_string()))) {
        CreateBillStep::Done(Err(AppError::Infrastructure(m))) => assert_eq!(m, "down"),
        other => panic!("unexpected {:?}", other),
    }
}

#[test]
fn listing_is_ordered_by_identifier() {
    let mut repo = InMemoryBillRepository::new();
    let mut events = Vec::new();
    for n in ["INV-B", "INV-C", "INV-A"] {
        run(&mut repo, &widget_command(n), false, Ok(()), &mut events).unwrap();
    }
    let list = repo.list_bills();
    let ids: Vec<i64> = list.iter().map(|b| b.id).collect();
    assert_eq!(ids, vec![1, 2, 3]);
    assert_eq!(list[2].bill_number, "INV-A");
    assert_eq!(list[0].total, dec(3099, 2));
}

#[test]
fn publish_failure_keeps_bill_and_reports_messaging() {
    let mut repo = InMemoryBillRepository::new();
    let mut events = Vec::new();
    let r = run(
        &mut repo,
        &widget_command("INV-9"),
        false,
        Err(AppError::Infrastructure("channel closed".to_string())),
        &mut events,
    );
    match r {
        Err(AppError::Messaging(m)) => assert_eq!(m, "channel closed"),
        other => panic!("unexpected {:?}", other),
    }
    let list = repo.list_bills();
    assert_eq!(list.len(), 1);
    assert_eq!(list[0].bill_number, "INV-9");
    assert!(events.is_empty());
}

#[test]
fn line_errors_are_collected_together() {
    let r = NewBillLine::create(0, "   ", dec(0, 0), dec(-1, 2));
    let e = r.unwrap_err().errors;
    assert_eq!(
        fields(&e),
        vec!["lines.lineNo", "lines.concept", "lines.quantity", "lines.unitAmount"]
    );
    assert_eq!(e.messages_for("lines.concept"), vec!["Line concept is required.".to_string()]);
    let long = "x".repeat(201);
    let e = NewBillLine::create(1, &long, dec(1, 0), dec(1, 0)).unwrap_err().errors;
    assert_eq!(e.messages_for("lines.concept"), vec!["Line concept max length is 200.".to_string()]);
}

#[test]
fn line_and_header_errors_are_merged() {
    let cmd = command(
        "  ",
        "usd",
        dec(-1, 0),
        vec![line("", dec(1, 0), dec(1, 0)), line("B", dec(-1, 0), dec(1, 0))],
    );
    let e = cmd.validate().unwrap_err();
    assert_eq!(fields(&e), vec!["lines.concept", "lines.quantity", "billNumber", "tax"]);
}

#[test]
fn trimmed_line_concept() {
    let l = NewBillLine::create(1, "  Widget \t", dec(2, 0), dec(5, 1)).unwrap();
    assert_eq!(l.concept, "Widget");
    assert_eq!(l.quantity, dec(200, 2));
    assert_eq!(l.line_amount, dec(100, 2));
}

#[test]
fn header_rules() {
    let l = NewBillLine::create(1, "A", dec(1, 0), dec(1, 0)).unwrap();
    let e = NewBill::create(&"n".repeat(51), date(), "", "usd", dec(0, 0), vec![l]).unwrap_err().errors;
    assert_eq!(fields(&e), vec!["billNumber", "customerName"]);
    assert_eq!(e.messages_for("billNumber"), vec!["Bill number max length is 50.".to_string()]);
    let l = NewBillLine::create(1, "A", dec(1, 0), dec(1, 0)).unwrap();
    let b = NewBill::create(" INV-5 ", date(), " Bob ", "gbp", dec(0, 0), vec![l]).unwrap();
    assert_eq!(b.bill_number, "INV-5");
    assert_eq!(b.customer_name, "Bob");
    assert_eq!(b.currency, "GBP");
    assert_eq!(b.total, dec(100, 2));
}

#[test]
fn command_limits() {
    assert!(widget_command("A").is_within_limits());
    let big = command("A", "usd", dec(0, 0), vec![line("X", dec(1, 19), dec(1, 0))]);
    assert!(!big.is_within_limits());
    let huge = command(
        "A",
        "usd",
        dec(0, 0),
        vec![
            line("X", dec(1_000_000_000_000_000_000, 0), dec(1_000_000_000_000_000_000, 0)),
            line("Y", dec(1_000_000_000_000_000_000, 0), dec(1_000_000_000_000_000_000, 0)),
        ],
    );
    assert!(!huge.is_within_limits());
}

#[test]
fn taken_number_conflicts_whatever_the_amounts() {
    let mut repo = InMemoryBillRepository::new();
    let mut events = Vec::new();
    run(&mut repo, &widget_command("INV-100"), false, Ok(()), &mut events).unwrap();
    let huge = command("INV-100", "usd", dec(0, 0), vec![line("X", dec(1, 30), dec(1, 0))]);
    assert!(!huge.is_within_limits());
    match on_duplicate_checked(&huge, Ok(repo.exists_by_bill_number("INV-100"))) {
        CreateBillStep::Done(Err(AppError::Conflict(m))) => {
            assert_eq!(m, "Bill number 'INV-100' already exists.")
        }
        other => panic!("unexpected {:?}", other),
    }
}

#[test]
fn rounds_wide_amounts() {
    let max = 79_228_162_514_264_337_593_543_950_335i128;
    assert_eq!(money(dec(max, 28)), dec(792, 2));
    assert_eq!(money(dec(max, 0)), dec(max * 100, 2));
    assert_eq!(money(dec(-5, 3)), dec(-1, 2));
}

#[test]
fn store_assigns_increasing_identifiers() {
    let mut repo = InMemoryBillRepository::new();
    let a = repo.create(widget_command("A").validate().unwrap()).unwrap();
    let b = repo.create(widget_command("B").validate().unwrap()).unwrap();
    assert_eq!((a.id, b.id), (1, 2));
    assert!(matches!(
        repo.create(widget_command("A").validate().unwrap()),
        Err(AppError::Infrastructure(_))
    ));
    assert_eq!(repo.list_bills().len(), 2);
    assert_eq!(repo.list_bills()[1].currency, "USD");
    assert_eq!(repo.list_bills()[1].issued_at, date());
}
