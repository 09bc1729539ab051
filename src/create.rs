//! The create-bill workflow: duplicate pre-check, validation, persistence
//! and event publication. Each decision is a function from what the previous
//! step produced to the next step; the caller performs the steps.
use vstd::prelude::*;
use vstd::string::*;
use crate::bills::{
    header_issues, line_issues, sum_line_cents, NewBill, NewBillLine,
    MAX_TOTAL_CENTS,
};
use crate::errors::{has_field, lemma_has_field_extend, AppError, FieldErrors};
use crate::money::{round2_cents, Dec};
use crate::text::{to_upper, trim_str, trimmed, upper_cased};

verus! {

/// One requested line.
#[derive(Clone, Debug)]
pub struct CreateBillLineCommand {
    pub concept: String,
    pub quantity: Dec,
    pub unit_amount: Dec,
}

/// A request to create a bill.
#[derive(Debug)]
pub struct CreateBillCommand {
    pub bill_number: String,
    pub issued_at: chrono::NaiveDate,
    pub customer_name: String,
    pub currency: String,
    pub tax: Dec,
    pub lines: Vec<CreateBillLineCommand>,
}

/// A persisted bill as the repository reports it.
#[derive(Debug)]
pub struct CreateBillResult {
    pub id: i64,
    pub bill_number: String,
    pub issued_at: chrono::NaiveDate,
    pub subtotal: Dec,
    pub tax: Dec,
    pub total: Dec,
    pub currency: String,
}

/// The integration event announcing a created bill. `occurred_at_utc` is in
/// microseconds since the Unix epoch.
#[derive(Debug)]
pub struct BillCreatedEvent {
    pub bill_id: i64,
    pub bill_number: String,
    pub issued_at: chrono::NaiveDate,
    pub subtotal: Dec,
    pub tax: Dec,
    pub total: Dec,
    pub currency: String,
    pub occurred_at_utc: i64,
    pub source: String,
}

/// The next thing the caller of the workflow does.
#[derive(Debug)]
pub enum CreateBillStep {
    /// Ask the repository whether this bill number exists.
    CheckDuplicate(String),
    /// Persist this bill in one unit of work.
    Persist(NewBill),
    /// Hand this event to the publisher; `created` is the persisted bill.
    Publish { created: CreateBillResult, event: BillCreatedEvent },
    /// The workflow ended with this outcome.
    Done(Result<CreateBillResult, AppError>),
}


/// The rounded product of a requested line, in hundredths.
pub open spec fn product_cents(l: CreateBillLineCommand) -> int {
    crate::bills::product_cents_of(l.quantity, l.unit_amount)
}

/// Sum of the rounded products of the requested lines, in hundredths.
pub open spec fn sum_product_cents(lines: Seq<CreateBillLineCommand>) -> int
    decreases lines.len(),
{
    if lines.len() == 0 {
        0
    } else {
        sum_product_cents(lines.drop_last()) + product_cents(lines.last())
    }
}

/// Sum of the magnitudes of the rounded products, in hundredths.
pub open spec fn sum_abs_product_cents(lines: Seq<CreateBillLineCommand>) -> int
    decreases lines.len(),
{
    if lines.len() == 0 {
        0
    } else {
        let c = product_cents(lines.last());
        sum_abs_product_cents(lines.drop_last()) + if c < 0 { -c } else { c }
    }
}

/// The violated rules of the requested lines, line after line, each at its
/// 1-based position.
pub open spec fn command_line_issues(lines: Seq<CreateBillLineCommand>) -> Seq<(Seq<char>, Seq<char>)>
    decreases lines.len(),
{
    if lines.len() == 0 {
        Seq::empty()
    } else {
        let l = lines.last();
        command_line_issues(lines.drop_last()) + line_issues(
            lines.len() as int,
            l.concept@,
            trimmed(l.concept@),
            l.quantity,
            l.unit_amount,
        )
    }
}

impl CreateBillCommand {
    /// The amounts and the number of lines lie where the workflow computes
    /// exactly: every amount in range, the line count fits a line number, and
    /// the rounded products add up within `MAX_TOTAL_CENTS`.
    pub open spec fn within_limits(self) -> bool {
        &&& self.tax.in_range()
        &&& self.lines@.len() <= i32::MAX
        &&& forall|i: int|
            0 <= i < self.lines@.len() ==> (#[trigger] self.lines@[i]).quantity.in_range()
                && self.lines@[i].unit_amount.in_range()
        &&& sum_abs_product_cents(self.lines@) <= MAX_TOTAL_CENTS
    }

    /// Every violated rule of the request: those of the lines, then those of
    /// the header.
    pub open spec fn issues(self) -> Seq<(Seq<char>, Seq<char>)> {
        command_line_issues(self.lines@) + header_issues(
            trimmed(self.bill_number@),
            trimmed(self.customer_name@),
            upper_cased(trimmed(self.currency@)),
            self.tax,
            self.lines@.len() as int,
        )
    }

    /// `b` is the bill validated from this request.
    pub open spec fn validated_as(self, b: NewBill) -> bool {
        &&& b.wf()
        &&& b.bill_number@ == trimmed(self.bill_number@)
        &&& b.issued_at == self.issued_at
        &&& b.customer_name@ == trimmed(self.customer_name@)
        &&& b.currency@ == upper_cased(trimmed(self.currency@))
        &&& b.tax.is_cents(self.tax.cents())
        &&& b.lines@.len() == self.lines@.len()
        &&& forall|i: int|
            0 <= i < self.lines@.len() ==> NewBillLine::created_from(
                Ok(#[trigger] b.lines@[i]),
                i + 1,
                self.lines@[i].concept@,
                trimmed(self.lines@[i].concept@),
                self.lines@[i].quantity,
                self.lines@[i].unit_amount,
            )
        &&& b.subtotal.mantissa == sum_product_cents(self.lines@)
        &&& b.total.mantissa == sum_product_cents(self.lines@) + self.tax.cents()
    }

    /// What `validate` returns.
    pub open spec fn validation_outcome(self, r: Result<NewBill, FieldErrors>) -> bool {
        match r {
            Ok(b) => self.issues().len() == 0 && self.validated_as(b),
            Err(e) => self.issues().len() > 0 && e@ == self.issues(),
        }
    }

    /// Checks `within_limits`.
    pub fn is_within_limits(&self) -> (r: bool)
        ensures
            r == self.within_limits(),
    {
        if !self.tax.in_range_exec() || self.lines.len() > i32::MAX as usize {
            return false;
        }
        let mut acc: u128 = 0;
        let mut i: usize = 0;
        while i < self.lines.len()
            invariant
                i <= self.lines@.len(),
                forall|j: int|
                    0 <= j < i ==> (#[trigger] self.lines@[j]).quantity.in_range()
                        && self.lines@[j].unit_amount.in_range(),
                acc == sum_abs_product_cents(self.lines@.subrange(0, i as int)),
                acc <= MAX_TOTAL_CENTS,
            decreases self.lines@.len() - i,
        {
            let l = &self.lines[i];
            if !l.quantity.in_range_exec() || !l.unit_amount.in_range_exec() {
                return false;
            }
            let c = crate::money::money_product(l.quantity, l.unit_amount).mantissa;
            proof {
                assert(self.lines@.subrange(0, i + 1).drop_last() =~= self.lines@.subrange(0, i as int));
                crate::money::lemma_product_cents_bound(l.quantity, l.unit_amount);
            }
            let a: u128 = if c < 0 { (-c) as u128 } else { c as u128 };
            acc = acc + a;
            i = i + 1;
            if acc > MAX_TOTAL_CENTS as u128 {
                proof {
                    lemma_abs_prefix_bounded(self.lines@, i as int);
                }
                return false;
            }
        }
        proof {
            assert(self.lines@.subrange(0, self.lines@.len() as int) =~= self.lines@);
        }
        true
    }

    /// Validates every line at its 1-based position and the header, and
    /// collects every violated rule; or builds the bill.
    pub fn validate(&self) -> (r: Result<NewBill, FieldErrors>)
        requires
            self.within_limits(),
        ensures
            self.validation_outcome(r),
    {
        let mut errors = FieldErrors::new();
        let mut lines: Vec<NewBillLine> = Vec::new();
        let mut i: usize = 0;
        while i < self.lines.len()
            invariant
                self.within_limits(),
                i <= self.lines@.len(),
                errors@ == command_line_issues(self.lines@.subrange(0, i as int)),
                errors@.len() == 0 ==> {
                    &&& lines@.len() == i
                    &&& forall|j: int|
                        0 <= j < i ==> NewBillLine::created_from(
                            Ok(#[trigger] lines@[j]),
                            j + 1,
                            self.lines@[j].concept@,
                            trimmed(self.lines@[j].concept@),
                            self.lines@[j].quantity,
                            self.lines@[j].unit_amount,
                        )
                    &&& sum_line_cents(lines@) == sum_product_cents(self.lines@.subrange(0, i as int))
                },
            decreases self.lines@.len() - i,
        {
            let l = &self.lines[i];
            let position = (i + 1) as i32;
            let built = NewBillLine::create(position, l.concept.as_str(), l.quantity, l.unit_amount);
            proof {
                let p = self.lines@.subrange(0, i + 1);
                assert(p.drop_last() =~= self.lines@.subrange(0, i as int));
                assert(p.last() == self.lines@[i as int]);
            }
            match built {
                Ok(nl) => {
                    let ghost before = lines@;
                    lines.push(nl);
                    proof {
                        assert(lines@.drop_last() =~= before);
                        assert(errors@ =~= command_line_issues(self.lines@.subrange(0, i + 1)));
                    }
                },
                Err(e) => {
                    errors.merge(&e.errors);
                },
            }
            i = i + 1;
        }
        proof {
            assert(self.lines@.subrange(0, self.lines@.len() as int) =~= self.lines@);
        }
        let number = trim_str(self.bill_number.as_str());
        let name = trim_str(self.customer_name.as_str());
        let code = to_upper(trim_str(self.currency.as_str()));
        let header = NewBill::header_errors(number, name, code.as_str(), &self.tax, self.lines.len());
        if !errors.is_empty() || !header.is_empty() {
            errors.merge(&header);
            return Err(errors);
        }
        proof {
            lemma_sum_bounded_by_abs(self.lines@);
            assert forall|j: int| 0 <= j < lines@.len() implies (#[trigger] lines@[j]).wf() by {
                assert(NewBillLine::created_from(
                    Ok(lines@[j]),
                    j + 1,
                    self.lines@[j].concept@,
                    trimmed(self.lines@[j].concept@),
                    self.lines@[j].quantity,
                    self.lines@[j].unit_amount,
                ));
            }
        }
        match NewBill::create_normalized(number, self.issued_at, name, code, self.tax, lines) {
            Ok(b) => {
                proof {
                    assert(errors@ + header@ =~= self.issues());
                }
                Ok(b)
            },
            Err(e) => {
                // Unreachable: the header has no issue, so the bill is built.
                proof {
                    assert(false);
                }
                Err(e.errors)
            },
        }
    }
}

/// A prefix of the requested lines has no larger magnitude sum than all.
proof fn lemma_abs_prefix_bounded(lines: Seq<CreateBillLineCommand>, k: int)
    requires
        0 <= k <= lines.len(),
    ensures
        0 <= sum_abs_product_cents(lines.subrange(0, k)) <= sum_abs_product_cents(lines),
    decreases lines.len(),
{
    if lines.len() > 0 {
        if k == lines.len() {
            assert(lines.subrange(0, k) =~= lines);
            lemma_abs_prefix_bounded(lines.drop_last(), k - 1);
        } else {
            lemma_abs_prefix_bounded(lines.drop_last(), k);
            assert(lines.drop_last().subrange(0, k) =~= lines.subrange(0, k));
        }
    }
}

/// The sum of the rounded products is bounded by the sum of their magnitudes.
proof fn lemma_sum_bounded_by_abs(lines: Seq<CreateBillLineCommand>)
    ensures
        sum_product_cents(lines) <= sum_abs_product_cents(lines),
        0 <= sum_abs_product_cents(lines),
    decreases lines.len(),
{
    if lines.len() > 0 {
        lemma_sum_bounded_by_abs(lines.drop_last());
    }
}

/// Relies on chrono's `Utc::now`: the current time, in microseconds since
/// the Unix epoch. Nothing is promised of its value.
#[verifier::external_body]
fn now_utc_micros() -> i64 {
    chrono::Utc::now().timestamp_micros()
}

/// Whether `needle` occurs in `haystack` as a contiguous run.
pub open spec fn occurs_in(haystack: Seq<char>, needle: Seq<char>) -> bool {
    exists|i: int|
        0 <= i <= haystack.len() - needle.len() && #[trigger] haystack.subrange(i, i + needle.len())
            == needle
}

/// Whether `needle` occurs in `haystack`.
pub fn contains_text(haystack: &str, needle: &str) -> (r: bool)
    ensures
        r == occurs_in(haystack@, needle@),
{
    let n = haystack.unicode_len();
    let k = needle.unicode_len();
    if k > n {
        return false;
    }
    let mut i: usize = 0;
    while i <= n - k
        invariant
            n == haystack@.len(),
            k == needle@.len(),
            k <= n,
            i <= n - k + 1,
            forall|p: int| 0 <= p < i ==> #[trigger] haystack@.subrange(p, p + k) != needle@,
        decreases n - k + 1 - i,
    {
        let mut j: usize = 0;
        let mut same = true;
        while j < k
            invariant
                n == haystack@.len(),
                k == needle@.len(),
                i + k <= n,
                j <= k,
                same == (forall|q: int| 0 <= q < j ==> haystack@[i + q] == needle@[q]),
            decreases k - j,
        {
            if haystack.get_char(i + j) != needle.get_char(j) {
                same = false;
            }
            j = j + 1;
        }
        if same {
            proof {
                assert(haystack@.subrange(i as int, i + k) =~= needle@);
            }
            return true;
        }
        proof {
            assert(!same);
            let q = choose|q: int| 0 <= q < k && haystack@[i + q] != needle@[q];
            assert(haystack@.subrange(i as int, i + k)[q] != needle@[q]);
        }
        i = i + 1;
    }
    false
}

/// The storage message of a uniqueness violation.
pub open spec fn is_unique_violation_spec(message: Seq<char>) -> bool {
    occurs_in(message, "duplicate key value"@) || occurs_in(message, "unique"@)
}

/// Whether a storage failure message reports a violated uniqueness
/// constraint.
pub fn is_unique_violation(message: &str) -> (r: bool)
    ensures
        r == is_unique_violation_spec(message@),
{
    contains_text(message, "duplicate key value") || contains_text(message, "unique")
}

/// The message of a conflict on `bill_number`.
pub open spec fn conflict_message(bill_number: Seq<char>) -> Seq<char> {
    "Bill number '"@ + bill_number + "' already exists."@
}

fn conflict(bill_number: &String) -> (r: AppError)
    ensures
        r is Conflict,
        r->Conflict_0@ == conflict_message(bill_number@),
{
    AppError::Conflict(
        String::from_str("Bill number '").concat(bill_number.as_str()).concat("' already exists."),
    )
}

/// What `on_duplicate_checked` decides.
pub open spec fn duplicate_checked_step(
    command: CreateBillCommand,
    exists: Result<bool, AppError>,
    step: CreateBillStep,
) -> bool {
    match exists {
        Err(e) => step == CreateBillStep::Done(Err(e)),
        Ok(true) => step is Done && step->Done_0 is Err && step->Done_0->Err_0 is Conflict
            && step->Done_0->Err_0->Conflict_0@ == conflict_message(command.bill_number@),
        Ok(false) => if command.issues().len() == 0 {
            step is Persist && command.validated_as(step->Persist_0)
        } else {
            step is Done && step->Done_0 is Err && step->Done_0->Err_0 is Validation
                && step->Done_0->Err_0->Validation_0@ == command.issues()
        },
    }
}

/// What `on_persisted` decides.
pub open spec fn persisted_step(
    command: CreateBillCommand,
    outcome: Result<CreateBillResult, AppError>,
    step: CreateBillStep,
) -> bool {
    match outcome {
        Ok(created) => step is Publish && step->created == created && event_of(
            step->event,
            created,
        ),
        Err(AppError::Infrastructure(m)) => if is_unique_violation_spec(m@) {
            step is Done && step->Done_0 is Err && step->Done_0->Err_0 is Conflict
                && step->Done_0->Err_0->Conflict_0@ == conflict_message(command.bill_number@)
        } else {
            step == CreateBillStep::Done(Err(AppError::Infrastructure(m)))
        },
        Err(e) => step == CreateBillStep::Done(Err(e)),
    }
}

/// `event` is a snapshot of `created`, tagged with this service's source.
pub open spec fn event_of(event: BillCreatedEvent, created: CreateBillResult) -> bool {
    &&& event.bill_id == created.id
    &&& event.bill_number@ == created.bill_number@
    &&& event.issued_at == created.issued_at
    &&& event.subtotal == created.subtotal
    &&& event.tax == created.tax
    &&& event.total == created.total
    &&& event.currency@ == created.currency@
    &&& event.source@ == "rust-api"@
}

/// The detail of a failure, as a messaging failure reports it.
pub open spec fn messaging_detail(e: AppError) -> Seq<char> {
    match e {
        AppError::Validation(_) => "invalid event"@,
        AppError::Conflict(m) => m@,
        AppError::Messaging(m) => m@,
        AppError::Infrastructure(m) => m@,
    }
}

/// What `on_published` decides.
pub open spec fn published_step(
    created: CreateBillResult,
    outcome: Result<(), AppError>,
    step: CreateBillStep,
) -> bool {
    match outcome {
        Ok(()) => step == CreateBillStep::Done(Ok(created)),
        Err(e) => step is Done && step->Done_0 is Err && step->Done_0->Err_0 is Messaging
            && step->Done_0->Err_0->Messaging_0@ == messaging_detail(e),
    }
}

/// The first step of the workflow: look up the trimmed bill number.
pub fn start(command: &CreateBillCommand) -> (r: CreateBillStep)
    ensures
        r is CheckDuplicate,
        r->CheckDuplicate_0@ == trimmed(command.bill_number@),
{
    CreateBillStep::CheckDuplicate(String::from_str(trim_str(command.bill_number.as_str())))
}

/// After the duplicate pre-check: a taken bill number is a conflict and ends
/// the workflow before any validation; a failed lookup ends it with that
/// failure; otherwise the request is validated and, if valid, persisted.
pub fn on_duplicate_checked(command: &CreateBillCommand, exists: Result<bool, AppError>) -> (r:
    CreateBillStep)
    requires
        exists is Ok && !exists->Ok_0 ==> command.within_limits(),
    ensures
        duplicate_checked_step(*command, exists, r),
{
    match exists {
        Err(e) => CreateBillStep::Done(Err(e)),
        Ok(true) => CreateBillStep::Done(Err(conflict(&command.bill_number))),
        Ok(false) => match command.validate() {
            Ok(bill) => CreateBillStep::Persist(bill),
            Err(errors) => CreateBillStep::Done(Err(AppError::Validation(errors))),
        },
    }
}

/// A snapshot of a persisted bill, stamped with the current time.
pub fn bill_created_event(created: &CreateBillResult) -> (r: BillCreatedEvent)
    ensures
        event_of(r, *created),
{
    BillCreatedEvent {
        bill_id: created.id,
        bill_number: created.bill_number.clone(),
        issued_at: created.issued_at,
        subtotal: created.subtotal,
        tax: created.tax,
        total: created.total,
        currency: created.currency.clone(),
        occurred_at_utc: now_utc_micros(),
        source: String::from_str("rust-api"),
    }
}

/// After persistence: a storage failure that reports a violated uniqueness
/// constraint is the same conflict as the pre-check's; any other failure
/// ends the workflow unchanged; a persisted bill is announced next.
pub fn on_persisted(command: &CreateBillCommand, outcome: Result<CreateBillResult, AppError>) -> (r:
    CreateBillStep)
    ensures
        persisted_step(*command, outcome, r),
{
    match outcome {
        Ok(created) => {
            let event = bill_created_event(&created);
            CreateBillStep::Publish { created, event }
        },
        Err(AppError::Infrastructure(m)) => {
            if is_unique_violation(m.as_str()) {
                CreateBillStep::Done(Err(conflict(&command.bill_number)))
            } else {
                CreateBillStep::Done(Err(AppError::Infrastructure(m)))
            }
        },
        Err(e) => CreateBillStep::Done(Err(e)),
    }
}

/// After publication: success returns the persisted bill; a failure is
/// reported as a messaging failure, the bill staying persisted.
pub fn on_published(created: CreateBillResult, outcome: Result<(), AppError>) -> (r: CreateBillStep)
    ensures
        published_step(created, outcome, r),
{
    match outcome {
        Ok(()) => CreateBillStep::Done(Ok(created)),
        Err(e) => {
            let detail = match e {
                AppError::Validation(_) => String::from_str("invalid event"),
                AppError::Conflict(m) => m,
                AppError::Messaging(m) => m,
                AppError::Infrastructure(m) => m,
            };
            CreateBillStep::Done(Err(AppError::Messaging(detail)))
        },
    }
}

/// The total of a validated bill is the rounded sum of the rounded line
/// products plus the rounded tax.
pub proof fn lemma_total_formula(command: CreateBillCommand, bill: NewBill)
    requires
        command.validation_outcome(Ok(bill)),
    ensures
        bill.total.cents() == round2_cents(sum_product_cents(command.lines@), 2)
            + command.tax.cents(),
        bill.subtotal.cents() == round2_cents(sum_product_cents(command.lines@), 2),
{
    crate::money::lemma_round2_of_cents(sum_product_cents(command.lines@));
    crate::money::lemma_round2_of_cents(bill.total.mantissa as int);
    crate::money::lemma_round2_of_cents(bill.subtotal.mantissa as int);
}

/// A request without lines fails validation with an issue on `lines`.
pub proof fn lemma_no_lines_rejected(command: CreateBillCommand, step: CreateBillStep)
    requires
        command.lines@.len() == 0,
        duplicate_checked_step(command, Ok(false), step),
    ensures
        step is Done,
        step->Done_0 is Err,
        step->Done_0->Err_0 is Validation,
        has_field(step->Done_0->Err_0->Validation_0@, "lines"@),
{
    let h = header_issues(
        trimmed(command.bill_number@),
        trimmed(command.customer_name@),
        upper_cased(trimmed(command.currency@)),
        command.tax,
        0,
    );
    assert(h[h.len() - 1].0 == "lines"@);
    assert(has_field(h, "lines"@));
    lemma_has_field_extend(command_line_issues(command.lines@), h, Seq::empty(), "lines"@);
    assert(command_line_issues(command.lines@) + h + Seq::empty() =~= command.issues());
}

/// A request whose currency, trimmed, is not three characters long fails
/// validation with an issue on `currency` (for currencies whose upper-case
/// form has as many characters).
pub proof fn lemma_bad_currency_rejected(command: CreateBillCommand, step: CreateBillStep)
    requires
        trimmed(command.currency@).len() != 3,
        upper_cased(trimmed(command.currency@)).len() == trimmed(command.currency@).len(),
        duplicate_checked_step(command, Ok(false), step),
    ensures
        step is Done,
        step->Done_0 is Err,
        step->Done_0->Err_0 is Validation,
        has_field(step->Done_0->Err_0->Validation_0@, "currency"@),
{
    let number = trimmed(command.bill_number@);
    let name = trimmed(command.customer_name@);
    let a: Seq<(Seq<char>, Seq<char>)> = if number.len() == 0 {
        seq![("billNumber"@, "Bill number is required."@)]
    } else if number.len() > crate::bills::MAX_BILL_NUMBER_LEN {
        seq![("billNumber"@, "Bill number max length is 50."@)]
    } else {
        Seq::empty()
    };
    let b = if name.len() == 0 {
        a.push(("customerName"@, "Customer name is required."@))
    } else if name.len() > crate::bills::MAX_TEXT_LEN {
        a.push(("customerName"@, "Customer name max length is 200."@))
    } else {
        a
    };
    let c = b.push(("currency"@, "Currency must be a 3-letter ISO code."@));
    let h = header_issues(number, name, upper_cased(trimmed(command.currency@)), command.tax, command.lines@.len() as int);
    let rest = h.subrange(c.len() as int, h.len() as int);
    assert(h =~= c + rest);
    assert(c[c.len() - 1].0 == "currency"@);
    assert(has_field(c, "currency"@));
    let lines = command_line_issues(command.lines@);
    assert(seq![c.last()][0].0 == "currency"@);
    lemma_has_field_extend(lines + b, seq![c.last()], rest, "currency"@);
    assert(lines + b + seq![c.last()] + rest =~= command.issues());
}

/// A taken bill number ends the workflow with the same conflict whether the
/// pre-check finds it or the storage constraint rejects the insert.
pub proof fn lemma_duplicate_is_conflict(
    command: CreateBillCommand,
    message: String,
    checked: CreateBillStep,
    persisted: CreateBillStep,
)
    requires
        duplicate_checked_step(command, Ok(true), checked),
        is_unique_violation_spec(message@),
        persisted_step(command, Err(AppError::Infrastructure(message)), persisted),
    ensures
        checked is Done,
        checked->Done_0 is Err,
        checked->Done_0->Err_0 is Conflict,
        persisted is Done,
        persisted->Done_0 is Err,
        persisted->Done_0->Err_0 is Conflict,
        checked->Done_0->Err_0->Conflict_0@ == conflict_message(command.bill_number@),
        persisted->Done_0->Err_0->Conflict_0@ == conflict_message(command.bill_number@),
{
}

/// A publication failure after the bill was persisted is reported as a
/// messaging failure, never as an infrastructure failure, and the workflow
/// takes no further step on the persisted bill.
pub proof fn lemma_publish_failure_is_messaging(
    created: CreateBillResult,
    failure: AppError,
    step: CreateBillStep,
)
    requires
        published_step(created, Err(failure), step),
    ensures
        step is Done,
        step->Done_0 is Err,
        step->Done_0->Err_0 is Messaging,
        !(step->Done_0->Err_0 is Infrastructure),
{
}

} // verus!
