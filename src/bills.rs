//! The bill domain model: validated lines and bills with their derived
//! amounts.
use vstd::prelude::*;
use vstd::string::*;
use crate::errors::{add_error, push_if, FieldErrors};
use crate::money::{money, money_product, round2_cents, Dec};
use crate::text::{to_upper, trim_str, trimmed, upper_cased};

verus! {

/// chrono's calendar date, carried through the library unread.
#[verifier::external_type_specification]
#[verifier::external_body]
pub struct ExNaiveDate(chrono::NaiveDate);

/// Largest magnitude, in hundredths, of a bill's sum of line amounts.
pub const MAX_TOTAL_CENTS: i128 = 100_000_000_000_000_000_000_000_000_000_000_000_000;

/// Longest concept, customer name, in characters.
pub const MAX_TEXT_LEN: usize = 200;

/// Longest bill number, in characters.
pub const MAX_BILL_NUMBER_LEN: usize = 50;

/// Length of a currency code.
pub const CURRENCY_LEN: usize = 3;

/// A failed construction, with every violated rule.
#[derive(Clone, Debug)]
pub struct DomainValidationError {
    pub errors: FieldErrors,
}

/// A validated bill line; amounts carry two fractional digits.
#[derive(Clone, Debug)]
pub struct NewBillLine {
    pub line_no: i32,
    pub concept: String,
    pub quantity: Dec,
    pub unit_amount: Dec,
    pub line_amount: Dec,
}

/// A validated bill whose subtotal is the sum of its line amounts and whose
/// total is the subtotal plus the tax.
#[derive(Debug)]
pub struct NewBill {
    pub bill_number: String,
    pub issued_at: chrono::NaiveDate,
    pub customer_name: String,
    pub currency: String,
    pub tax: Dec,
    pub lines: Vec<NewBillLine>,
    pub subtotal: Dec,
    pub total: Dec,
}

/// Sum of the line amounts, in hundredths.
pub open spec fn sum_line_cents(lines: Seq<NewBillLine>) -> int
    decreases lines.len(),
{
    if lines.len() == 0 {
        0
    } else {
        sum_line_cents(lines.drop_last()) + lines.last().line_amount.mantissa
    }
}

/// The violated rules of a line, given its concept and the concept trimmed.
pub open spec fn line_issues(
    line_no: int,
    concept: Seq<char>,
    trimmed_concept: Seq<char>,
    quantity: Dec,
    unit_amount: Dec,
) -> Seq<(Seq<char>, Seq<char>)> {
    let a = push_if(
        Seq::empty(),
        line_no <= 0,
        "lines.lineNo"@,
        "Line number must be greater than zero."@,
    );
    let b = if trimmed_concept.len() == 0 {
        a.push(("lines.concept"@, "Line concept is required."@))
    } else if concept.len() > MAX_TEXT_LEN {
        a.push(("lines.concept"@, "Line concept max length is 200."@))
    } else {
        a
    };
    let c = push_if(
        b,
        quantity.mantissa <= 0,
        "lines.quantity"@,
        "Line quantity must be greater than zero."@,
    );
    push_if(c, unit_amount.mantissa < 0, "lines.unitAmount"@, "Line unit amount cannot be negative."@)
}

/// The violated rules of a bill header, given its trimmed bill number and
/// customer name, its trimmed and upper-cased currency, its tax and its
/// number of lines.
pub open spec fn header_issues(
    bill_number: Seq<char>,
    customer_name: Seq<char>,
    currency: Seq<char>,
    tax: Dec,
    line_count: int,
) -> Seq<(Seq<char>, Seq<char>)> {
    let a = if bill_number.len() == 0 {
        seq![("billNumber"@, "Bill number is required."@)]
    } else if bill_number.len() > MAX_BILL_NUMBER_LEN {
        seq![("billNumber"@, "Bill number max length is 50."@)]
    } else {
        Seq::empty()
    };
    let b = if customer_name.len() == 0 {
        a.push(("customerName"@, "Customer name is required."@))
    } else if customer_name.len() > MAX_TEXT_LEN {
        a.push(("customerName"@, "Customer name max length is 200."@))
    } else {
        a
    };
    let c = push_if(
        b,
        currency.len() != CURRENCY_LEN,
        "currency"@,
        "Currency must be a 3-letter ISO code."@,
    );
    let d = push_if(c, tax.mantissa < 0, "tax"@, "Tax cannot be negative."@);
    push_if(d, line_count == 0, "lines"@, "At least one line is required."@)
}

impl NewBillLine {
    /// A line as the library builds it: two-digit amounts, a non-negative
    /// line amount.
    pub open spec fn wf(self) -> bool {
        &&& self.quantity.scale == 2
        &&& self.unit_amount.scale == 2
        &&& self.line_amount.scale == 2
        &&& self.line_amount.mantissa >= 0
    }

    /// Validates a line at 1-based position `line_no`. On success the concept
    /// is trimmed, quantity and unit amount are normalised, and the line amount
    /// is the product of the given quantity and unit amount, normalised.
    pub fn create(line_no: i32, concept: &str, quantity: Dec, unit_amount: Dec) -> (r: Result<
        NewBillLine,
        DomainValidationError,
    >)
        requires
            quantity.in_range(),
            unit_amount.in_range(),
        ensures
            Self::created_from(r, line_no as int, concept@, trimmed(concept@), quantity, unit_amount),
            r is Ok ==> 1 <= r->Ok_0.concept@.len() <= MAX_TEXT_LEN,
    {
        let t = trim_str(concept);
        Self::create_trimmed(line_no, concept, t, quantity, unit_amount)
    }

    /// What `create` returns, given the concept and the concept trimmed.
    pub open spec fn created_from(
        r: Result<NewBillLine, DomainValidationError>,
        line_no: int,
        concept: Seq<char>,
        trimmed_concept: Seq<char>,
        quantity: Dec,
        unit_amount: Dec,
    ) -> bool {
        let issues = line_issues(line_no, concept, trimmed_concept, quantity, unit_amount);
        match r {
            Ok(l) => {
                &&& issues.len() == 0
                &&& l.wf()
                &&& l.line_no == line_no
                &&& l.concept@ == trimmed_concept
                &&& l.quantity.is_cents(quantity.cents())
                &&& l.unit_amount.is_cents(unit_amount.cents())
                &&& l.line_amount.is_cents(
                    round2_cents(
                        quantity.mantissa * unit_amount.mantissa,
                        (quantity.scale + unit_amount.scale) as nat,
                    ),
                )
            },
            Err(e) => issues.len() > 0 && e.errors@ == issues,
        }
    }

    /// `create`, with the concept already trimmed by the caller.
    pub fn create_trimmed(
        line_no: i32,
        concept: &str,
        trimmed_concept: &str,
        quantity: Dec,
        unit_amount: Dec,
    ) -> (r: Result<NewBillLine, DomainValidationError>)
        requires
            quantity.in_range(),
            unit_amount.in_range(),
        ensures
            Self::created_from(r, line_no as int, concept@, trimmed_concept@, quantity, unit_amount),
    {
        let mut errors = FieldErrors::new();
        if line_no <= 0 {
            add_error(&mut errors, "lines.lineNo", "Line number must be greater than zero.");
        }
        if trimmed_concept.unicode_len() == 0 {
            add_error(&mut errors, "lines.concept", "Line concept is required.");
        } else if concept.unicode_len() > MAX_TEXT_LEN {
            add_error(&mut errors, "lines.concept", "Line concept max length is 200.");
        }
        if !quantity.is_positive() {
            add_error(&mut errors, "lines.quantity", "Line quantity must be greater than zero.");
        }
        if unit_amount.is_negative() {
            add_error(&mut errors, "lines.unitAmount", "Line unit amount cannot be negative.");
        }
        proof {
            assert(errors@ =~= line_issues(
                line_no as int,
                concept@,
                trimmed_concept@,
                quantity,
                unit_amount,
            ));
        }
        if !errors.is_empty() {
            return Err(DomainValidationError { errors });
        }
        let line_amount = money_product(quantity, unit_amount);
        proof {
            assert(quantity.mantissa * unit_amount.mantissa >= 0) by (nonlinear_arith)
                requires
                    quantity.mantissa > 0,
                    unit_amount.mantissa >= 0,
            ;
            crate::money::lemma_round2_nonnegative(
                quantity.mantissa * unit_amount.mantissa,
                (quantity.scale + unit_amount.scale) as nat,
            );
        }
        Ok(NewBillLine {
            line_no,
            concept: String::from_str(trimmed_concept),
            quantity: money(quantity),
            unit_amount: money(unit_amount),
            line_amount,
        })
    }
}

impl NewBill {
    /// The violated rules of a bill header, given its trimmed bill number and
    /// customer name, its trimmed and upper-cased currency, its tax and its
    /// number of lines.
    pub fn header_errors(
        bill_number: &str,
        customer_name: &str,
        currency: &str,
        tax: &Dec,
        line_count: usize,
    ) -> (r: FieldErrors)
        ensures
            r@ == header_issues(bill_number@, customer_name@, currency@, *tax, line_count as int),
    {
        let mut errors = FieldErrors::new();
        let number_len = bill_number.unicode_len();
        if number_len == 0 {
            add_error(&mut errors, "billNumber", "Bill number is required.");
        } else if number_len > MAX_BILL_NUMBER_LEN {
            add_error(&mut errors, "billNumber", "Bill number max length is 50.");
        }
        let name_len = customer_name.unicode_len();
        if name_len == 0 {
            add_error(&mut errors, "customerName", "Customer name is required.");
        } else if name_len > MAX_TEXT_LEN {
            add_error(&mut errors, "customerName", "Customer name max length is 200.");
        }
        if currency.unicode_len() != CURRENCY_LEN {
            add_error(&mut errors, "currency", "Currency must be a 3-letter ISO code.");
        }
        if tax.is_negative() {
            add_error(&mut errors, "tax", "Tax cannot be negative.");
        }
        if line_count == 0 {
            add_error(&mut errors, "lines", "At least one line is required.");
        }
        proof {
            assert(errors@ =~= header_issues(
                bill_number@,
                customer_name@,
                currency@,
                *tax,
                line_count as int,
            ));
        }
        errors
    }

    /// The bill's amount invariant: two-digit amounts, the subtotal is the
    /// sum of the line amounts, the total is the subtotal plus the tax.
    pub open spec fn wf(self) -> bool {
        &&& self.lines@.len() > 0
        &&& forall|i: int| 0 <= i < self.lines@.len() ==> (#[trigger] self.lines@[i]).wf()
        &&& self.tax.scale == 2
        &&& self.subtotal.is_cents(sum_line_cents(self.lines@))
        &&& self.total.is_cents(self.subtotal.mantissa + self.tax.mantissa)
    }

    /// What `create` returns, given the trimmed bill number and customer name
    /// and the trimmed, upper-cased currency.
    pub open spec fn created_from(
        r: Result<NewBill, DomainValidationError>,
        bill_number: Seq<char>,
        issued_at: chrono::NaiveDate,
        customer_name: Seq<char>,
        currency: Seq<char>,
        tax: Dec,
        lines: Seq<NewBillLine>,
    ) -> bool {
        let issues = header_issues(bill_number, customer_name, currency, tax, lines.len() as int);
        match r {
            Ok(b) => {
                &&& issues.len() == 0
                &&& b.wf()
                &&& b.bill_number@ == bill_number
                &&& b.issued_at == issued_at
                &&& b.customer_name@ == customer_name
                &&& b.currency@ == currency
                &&& b.tax.is_cents(tax.cents())
                &&& b.lines@ == lines
                &&& b.total.mantissa == sum_line_cents(lines) + tax.cents()
            },
            Err(e) => issues.len() > 0 && e.errors@ == issues,
        }
    }

    /// Validates a bill header over already validated lines. On success the
    /// bill number and customer name are trimmed, the currency is trimmed and
    /// upper-cased, the tax is normalised, and subtotal and total are derived.
    pub fn create(
        bill_number: &str,
        issued_at: chrono::NaiveDate,
        customer_name: &str,
        currency: &str,
        tax: Dec,
        lines: Vec<NewBillLine>,
    ) -> (r: Result<NewBill, DomainValidationError>)
        requires
            tax.in_range(),
            forall|i: int| 0 <= i < lines@.len() ==> (#[trigger] lines@[i]).wf(),
            sum_line_cents(lines@) <= MAX_TOTAL_CENTS,
        ensures
            Self::created_from(
                r,
                trimmed(bill_number@),
                issued_at,
                trimmed(customer_name@),
                upper_cased(trimmed(currency@)),
                tax,
                lines@,
            ),
    {
        let number = trim_str(bill_number);
        let name = trim_str(customer_name);
        let code = to_upper(trim_str(currency));
        Self::create_normalized(number, issued_at, name, code, tax, lines)
    }

    /// `create`, with bill number and customer name already trimmed and the
    /// currency already trimmed and upper-cased by the caller.
    pub fn create_normalized(
        bill_number: &str,
        issued_at: chrono::NaiveDate,
        customer_name: &str,
        currency: String,
        tax: Dec,
        lines: Vec<NewBillLine>,
    ) -> (r: Result<NewBill, DomainValidationError>)
        requires
            tax.in_range(),
            forall|i: int| 0 <= i < lines@.len() ==> (#[trigger] lines@[i]).wf(),
            sum_line_cents(lines@) <= MAX_TOTAL_CENTS,
        ensures
            Self::created_from(
                r,
                bill_number@,
                issued_at,
                customer_name@,
                currency@,
                tax,
                lines@,
            ),
    {
        let errors = Self::header_errors(bill_number, customer_name, currency.as_str(), &tax, lines.len());
        if !errors.is_empty() {
            return Err(DomainValidationError { errors });
        }
        let subtotal = sum_line_amounts(&lines);
        let normalized_tax = money(tax);
        proof {
            crate::money::lemma_round2_nonnegative(tax.mantissa as int, tax.scale as nat);
            crate::money::lemma_round2_in_range(tax);
        }
        let total = Dec { mantissa: subtotal.mantissa + normalized_tax.mantissa, scale: 2 };
        Ok(NewBill {
            bill_number: String::from_str(bill_number),
            issued_at,
            customer_name: String::from_str(customer_name),
            currency,
            tax: normalized_tax,
            lines,
            subtotal,
            total,
        })
    }
}

/// The sum of the line amounts, as a two-digit amount.
fn sum_line_amounts(lines: &Vec<NewBillLine>) -> (r: Dec)
    requires
        forall|i: int| 0 <= i < lines@.len() ==> (#[trigger] lines@[i]).wf(),
        sum_line_cents(lines@) <= MAX_TOTAL_CENTS,
    ensures
        r.is_cents(sum_line_cents(lines@)),
        0 <= r.mantissa <= MAX_TOTAL_CENTS,
{
    let mut acc: i128 = 0;
    let mut i: usize = 0;
    while i < lines.len()
        invariant
            i <= lines@.len(),
            forall|j: int| 0 <= j < lines@.len() ==> (#[trigger] lines@[j]).wf(),
            sum_line_cents(lines@) <= MAX_TOTAL_CENTS,
            acc == sum_line_cents(lines@.subrange(0, i as int)),
            0 <= acc,
        decreases lines@.len() - i,
    {
        proof {
            assert(lines@.subrange(0, i + 1).drop_last() =~= lines@.subrange(0, i as int));
            lemma_sum_prefix_bounded(lines@, i + 1);
        }
        acc = acc + lines[i].line_amount.mantissa;
        i = i + 1;
    }
    proof {
        assert(lines@.subrange(0, lines@.len() as int) =~= lines@);
    }
    Dec { mantissa: acc, scale: 2 }
}

/// With non-negative line amounts, a prefix sums to no more than the whole.
proof fn lemma_sum_prefix_bounded(lines: Seq<NewBillLine>, k: int)
    requires
        0 <= k <= lines.len(),
        forall|i: int| 0 <= i < lines.len() ==> (#[trigger] lines[i]).wf(),
    ensures
        0 <= sum_line_cents(lines.subrange(0, k)) <= sum_line_cents(lines),
    decreases lines.len(),
{
    if lines.len() > 0 {
        if k == lines.len() {
            assert(lines.subrange(0, k) =~= lines);
            lemma_sum_prefix_bounded(lines.drop_last(), k - 1);
            assert(lines.drop_last().subrange(0, k - 1) =~= lines.drop_last());
        } else {
            lemma_sum_prefix_bounded(lines.drop_last(), k);
            assert(lines.drop_last().subrange(0, k) =~= lines.subrange(0, k));
            assert(lines[lines.len() - 1].wf());
        }
    }
}

/// The rounded product of a quantity and a unit amount, in hundredths.
pub open spec fn product_cents_of(quantity: Dec, unit_amount: Dec) -> int {
    round2_cents(quantity.mantissa * unit_amount.mantissa, (quantity.scale + unit_amount.scale) as nat)
}

/// Sum of the rounded products of (quantity, unit amount) pairs, in hundredths.
pub open spec fn sum_product_cents_of(pairs: Seq<(Dec, Dec)>) -> int
    decreases pairs.len(),
{
    if pairs.len() == 0 {
        0
    } else {
        sum_product_cents_of(pairs.drop_last()) + product_cents_of(pairs.last().0, pairs.last().1)
    }
}

proof fn lemma_sum_lines_is_sum_products(lines: Seq<NewBillLine>, pairs: Seq<(Dec, Dec)>)
    requires
        lines.len() == pairs.len(),
        forall|i: int|
            0 <= i < lines.len() ==> (#[trigger] lines[i]).line_amount.mantissa == product_cents_of(
                pairs[i].0,
                pairs[i].1,
            ),
    ensures
        sum_line_cents(lines) == sum_product_cents_of(pairs),
    decreases lines.len(),
{
    if lines.len() > 0 {
        lemma_sum_lines_is_sum_products(lines.drop_last(), pairs.drop_last());
        assert(lines[lines.len() - 1].line_amount.mantissa == product_cents_of(
            pairs[pairs.len() - 1].0,
            pairs[pairs.len() - 1].1,
        ));
    }
}

/// A bill built over lines whose amounts are the rounded products of
/// (quantity, unit amount) pairs has as total the rounded sum of those
/// rounded products plus the rounded tax.
pub proof fn lemma_bill_total_formula(
    pairs: Seq<(Dec, Dec)>,
    lines: Seq<NewBillLine>,
    tax: Dec,
    bill: NewBill,
)
    requires
        lines.len() == pairs.len(),
        forall|i: int|
            0 <= i < lines.len() ==> (#[trigger] lines[i]).line_amount.is_cents(
                product_cents_of(pairs[i].0, pairs[i].1),
            ),
        NewBill::created_from(
            Ok(bill),
            bill.bill_number@,
            bill.issued_at,
            bill.customer_name@,
            bill.currency@,
            tax,
            lines,
        ),
    ensures
        bill.total.cents() == round2_cents(sum_product_cents_of(pairs), 2) + tax.cents(),
        bill.subtotal.cents() == round2_cents(sum_product_cents_of(pairs), 2),
{
    lemma_sum_lines_is_sum_products(lines, pairs);
    crate::money::lemma_round2_of_cents(sum_product_cents_of(pairs));
    crate::money::lemma_round2_of_cents(bill.total.mantissa as int);
    crate::money::lemma_round2_of_cents(bill.subtotal.mantissa as int);
}

} // verus!
