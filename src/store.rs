//! An in-memory bill repository: the storage contract of the workflow
//! (unique bill numbers, identifiers assigned in increasing order, no
//! partial bill) and the listing read model, without a database.
use vstd::prelude::*;
use vstd::string::*;
use crate::bills::{sum_line_cents, NewBill, NewBillLine};
use crate::create::{is_unique_violation_spec, published_step, CreateBillResult, CreateBillStep};
use crate::errors::AppError;
use crate::money::Dec;

verus! {

/// One row of the bill listing; `total` is recomputed from the lines.
#[derive(Debug)]
pub struct BillSummaryDto {
    pub id: i64,
    pub bill_number: String,
    pub issued_at: chrono::NaiveDate,
    pub total: Dec,
    pub currency: String,
}

/// A persisted bill with its identifier.
#[derive(Debug)]
pub struct StoredBill {
    pub id: i64,
    pub bill: NewBill,
}

/// The stored bills, in the order they were inserted.
pub struct InMemoryBillRepository {
    bills: Vec<StoredBill>,
    next_id: i64,
}

/// What the listing shows of a stored bill: identifier, bill number, issue
/// date, the total recomputed from the lines and the tax (in hundredths), and
/// currency.
pub open spec fn summary_of(b: StoredBill) -> (i64, Seq<char>, chrono::NaiveDate, int, Seq<char>) {
    (
        b.id,
        b.bill.bill_number@,
        b.bill.issued_at,
        sum_line_cents(b.bill.lines@) + b.bill.tax.mantissa,
        b.bill.currency@,
    )
}

impl View for InMemoryBillRepository {
    type V = Seq<(i64, Seq<char>, chrono::NaiveDate, int, Seq<char>)>;

    closed spec fn view(&self) -> Seq<(i64, Seq<char>, chrono::NaiveDate, int, Seq<char>)> {
        self.bills@.map_values(|b: StoredBill| summary_of(b))
    }
}

impl InMemoryBillRepository {
    /// Identifiers increase in insertion order and stay below `next_id`; bill
    /// numbers are unique; every stored bill keeps the bill invariant.
    pub closed spec fn wf(&self) -> bool {
        &&& self.next_id == self.bills@.len() + 1
        &&& forall|i: int, j: int|
            0 <= i < j < self.bills@.len() ==> #[trigger] self.bills@[i].id < #[trigger] self.bills@[j].id
        &&& forall|i: int| 0 <= i < self.bills@.len() ==> 1 <= #[trigger] self.bills@[i].id < self.next_id
        &&& forall|i: int, j: int|
            0 <= i < j < self.bills@.len() ==> #[trigger] self.bills@[i].bill.bill_number@
                != #[trigger] self.bills@[j].bill.bill_number@
        &&& forall|i: int| 0 <= i < self.bills@.len() ==> (#[trigger] self.bills@[i]).bill.wf()
    }

    /// Whether a stored bill has bill number `n`.
    pub open spec fn holds_number(&self, n: Seq<char>) -> bool {
        exists|i: int| 0 <= i < self@.len() && #[trigger] self@[i].1 == n
    }

    /// No bill stored.
    pub fn new() -> (r: InMemoryBillRepository)
        ensures
            r.wf(),
            r@.len() == 0,
    {
        InMemoryBillRepository { bills: Vec::new(), next_id: 1 }
    }

    /// Whether a bill with this bill number is stored.
    pub fn exists_by_bill_number(&self, bill_number: &str) -> (r: bool)
        ensures
            r == self.holds_number(bill_number@),
    {
        let key = String::from_str(bill_number);
        let mut i: usize = 0;
        while i < self.bills.len()
            invariant
                i <= self.bills@.len(),
                key@ == bill_number@,
                forall|j: int| 0 <= j < i ==> #[trigger] self@[j].1 != bill_number@,
            decreases self.bills@.len() - i,
        {
            if self.bills[i].bill.bill_number == key {
                proof {
                    assert(self@[i as int].1 == bill_number@);
                }
                return true;
            }
            i = i + 1;
        }
        false
    }

    /// Stores the bill with the next identifier, all lines at once. A bill
    /// number already stored is rejected with a uniqueness violation and
    /// nothing is stored; so is a bill when identifiers are exhausted.
    pub fn create(&mut self, new_bill: NewBill) -> (r: Result<CreateBillResult, AppError>)
        requires
            old(self).wf(),
            new_bill.wf(),
        ensures
            final(self).wf(),
            old(self).holds_number(new_bill.bill_number@) ==> {
                &&& r is Err
                &&& r->Err_0 is Infrastructure
                &&& is_unique_violation_spec(r->Err_0->Infrastructure_0@)
                &&& final(self)@ == old(self)@
            },
            r is Ok ==> {
                let c = r->Ok_0;
                &&& !old(self).holds_number(new_bill.bill_number@)
                &&& final(self).holds_number(new_bill.bill_number@)
                &&& final(self)@ == old(self)@.push(
                    (
                        c.id,
                        new_bill.bill_number@,
                        new_bill.issued_at,
                        sum_line_cents(new_bill.lines@) + new_bill.tax.mantissa,
                        new_bill.currency@,
                    ),
                )
                &&& forall|i: int| 0 <= i < old(self)@.len() ==> #[trigger] old(self)@[i].0 < c.id
                &&& c.bill_number@ == new_bill.bill_number@
                &&& c.issued_at == new_bill.issued_at
                &&& c.subtotal == new_bill.subtotal
                &&& c.tax == new_bill.tax
                &&& c.total == new_bill.total
                &&& c.currency@ == new_bill.currency@
            },
            r is Err && !old(self).holds_number(new_bill.bill_number@) ==> final(self)@ == old(self)@,
            !old(self).holds_number(new_bill.bill_number@) && old(self)@.len() + 1 < i64::MAX ==> r is Ok,
    {
        if self.exists_by_bill_number(new_bill.bill_number.as_str()) {
            let m = String::from_str("duplicate key value violates unique constraint on bill number");
            proof {
                reveal_strlit("duplicate key value violates unique constraint on bill number");
                reveal_strlit("duplicate key value");
                assert(m@.subrange(0int, 0int + "duplicate key value"@.len()) =~= "duplicate key value"@);
                assert(crate::create::occurs_in(m@, "duplicate key value"@));
            }
            return Err(AppError::Infrastructure(m));
        }
        proof {
            assert(self@.len() == self.bills@.len());
        }
        if self.next_id == i64::MAX {
            return Err(AppError::Infrastructure(String::from_str("bill identifiers exhausted")));
        }
        let id = self.next_id;
        let result = CreateBillResult {
            id,
            bill_number: new_bill.bill_number.clone(),
            issued_at: new_bill.issued_at,
            subtotal: new_bill.subtotal,
            tax: new_bill.tax,
            total: new_bill.total,
            currency: new_bill.currency.clone(),
        };
        let ghost before = self.bills@;
        proof {
            assert forall|i: int| 0 <= i < before.len() implies before[i].bill.bill_number@
                != new_bill.bill_number@ by {
                assert(old(self)@[i].1 == before[i].bill.bill_number@);
            }
        }
        self.bills.push(StoredBill { id, bill: new_bill });
        self.next_id = id + 1;
        proof {
            assert(self@ =~= old(self)@.push(summary_of(StoredBill { id, bill: new_bill })));
            assert(self@[self@.len() - 1].1 == new_bill.bill_number@);
        }
        Ok(result)
    }

    /// Every stored bill, ordered by identifier ascending, its total
    /// recomputed as the sum of its line amounts plus its tax.
    pub fn list_bills(&self) -> (r: Vec<BillSummaryDto>)
        requires
            self.wf(),
        ensures
            r@.len() == self@.len(),
            forall|i: int|
                0 <= i < r@.len() ==> (#[trigger] r@[i]).id == self@[i].0 && r@[i].bill_number@
                    == self@[i].1 && r@[i].issued_at == self@[i].2 && r@[i].total.is_cents(self@[i].3)
                    && r@[i].currency@ == self@[i].4,
            forall|i: int, j: int| 0 <= i < j < r@.len() ==> #[trigger] r@[i].id < #[trigger] r@[j].id,
    {
        let mut r: Vec<BillSummaryDto> = Vec::new();
        let mut i: usize = 0;
        while i < self.bills.len()
            invariant
                self.wf(),
                i <= self.bills@.len(),
                r@.len() == i,
                forall|k: int|
                    0 <= k < i ==> (#[trigger] r@[k]).id == self@[k].0 && r@[k].bill_number@
                        == self@[k].1 && r@[k].issued_at == self@[k].2 && r@[k].total.is_cents(self@[k].3)
                        && r@[k].currency@ == self@[k].4,
            decreases self.bills@.len() - i,
        {
            let b = &self.bills[i];
            proof {
                assert(b.bill.wf());
            }
            let total = Dec { mantissa: b.bill.subtotal.mantissa + b.bill.tax.mantissa, scale: 2 };
            r.push(
                BillSummaryDto {
                    id: b.id,
                    bill_number: b.bill.bill_number.clone(),
                    issued_at: b.bill.issued_at,
                    total,
                    currency: b.bill.currency.clone(),
                },
            );
            i = i + 1;
        }
        r
    }
}

/// When the publisher fails after a bill was stored, the workflow reports a
/// messaging failure and the stored bill stays: the repository holds exactly
/// one row with the bill's identifier, carrying its bill number.
pub proof fn lemma_publish_failure_keeps_bill(
    before: InMemoryBillRepository,
    after: InMemoryBillRepository,
    row: (i64, Seq<char>, chrono::NaiveDate, int, Seq<char>),
    created: CreateBillResult,
    failure: AppError,
    step: CreateBillStep,
)
    requires
        after@ == before@.push(row),
        row.0 == created.id,
        row.1 == created.bill_number@,
        forall|i: int| 0 <= i < before@.len() ==> #[trigger] before@[i].0 < created.id,
        published_step(created, Err(failure), step),
    ensures
        step is Done,
        step->Done_0 is Err,
        step->Done_0->Err_0 is Messaging,
        after.holds_number(created.bill_number@),
        after@[after@.len() - 1].0 == created.id,
        after@[after@.len() - 1].1 == created.bill_number@,
        forall|k: int| 0 <= k < after@.len() - 1 ==> #[trigger] after@[k].0 != created.id,
{
    assert(after@[after@.len() - 1] == row);
    assert forall|k: int| 0 <= k < after@.len() - 1 implies #[trigger] after@[k].0 != created.id by {
        assert(after@[k] == before@[k]);
    }
}

} // verus!
