//! Field-level validation errors and the workflow's error taxonomy.
use vstd::prelude::*;
use vstd::string::*;
use crate::text::push_char;

verus! {

/// One violated rule: the field path and a human-readable message.
#[derive(Clone, Debug)]
pub struct FieldIssue {
    pub field: String,
    pub message: String,
}

/// The violated rules of one construction call, in the order they were found.
/// Grouped by field, they form the mapping from field path to the ordered
/// list of its messages; no issue at all denotes success.
#[derive(Clone, Debug)]
pub struct FieldErrors {
    pub issues: Vec<FieldIssue>,
}

pub open spec fn issue_view(i: FieldIssue) -> (Seq<char>, Seq<char>) {
    (i.field@, i.message@)
}

impl View for FieldErrors {
    type V = Seq<(Seq<char>, Seq<char>)>;

    open spec fn view(&self) -> Seq<(Seq<char>, Seq<char>)> {
        self.issues@.map_values(|i: FieldIssue| issue_view(i))
    }
}

/// The messages recorded for `field`, in order.
pub open spec fn messages_of(issues: Seq<(Seq<char>, Seq<char>)>, field: Seq<char>) -> Seq<Seq<char>>
    decreases issues.len(),
{
    if issues.len() == 0 {
        Seq::empty()
    } else if issues.last().0 == field {
        messages_of(issues.drop_last(), field).push(issues.last().1)
    } else {
        messages_of(issues.drop_last(), field)
    }
}

/// Whether some issue is recorded for `field`.
pub open spec fn has_field(issues: Seq<(Seq<char>, Seq<char>)>, field: Seq<char>) -> bool {
    exists|i: int| 0 <= i < issues.len() && #[trigger] issues[i].0 == field
}

/// An issue for `field` stays recorded when issues are added after it or
/// before it.
pub proof fn lemma_has_field_extend(
    before: Seq<(Seq<char>, Seq<char>)>,
    issues: Seq<(Seq<char>, Seq<char>)>,
    after: Seq<(Seq<char>, Seq<char>)>,
    field: Seq<char>,
)
    requires
        has_field(issues, field),
    ensures
        has_field(before + issues + after, field),
{
    let i = choose|i: int| 0 <= i < issues.len() && #[trigger] issues[i].0 == field;
    assert((before + issues + after)[before.len() + i] == issues[i]);
}

/// The single issue `(field, message)` appended to `issues` when `cond` holds.
pub open spec fn push_if(
    issues: Seq<(Seq<char>, Seq<char>)>,
    cond: bool,
    field: Seq<char>,
    message: Seq<char>,
) -> Seq<(Seq<char>, Seq<char>)> {
    if cond {
        issues.push((field, message))
    } else {
        issues
    }
}

impl FieldErrors {
    /// No issue recorded.
    pub fn new() -> (r: FieldErrors)
        ensures
            r@ == Seq::<(Seq<char>, Seq<char>)>::empty(),
    {
        FieldErrors { issues: Vec::new() }
    }

    pub fn is_empty(&self) -> (r: bool)
        ensures
            r == (self@.len() == 0),
    {
        self.issues.len() == 0
    }

    /// Appends every issue of `other`, keeping both orders.
    pub fn merge(&mut self, other: &FieldErrors)
        ensures
            final(self)@ == old(self)@ + other@,
    {
        let ghost start = self@;
        let mut i: usize = 0;
        while i < other.issues.len()
            invariant
                i <= other.issues@.len(),
                self@ == start + other@.subrange(0, i as int),
            decreases other.issues@.len() - i,
        {
            let issue = other.issues[i].clone_issue();
            let ghost before = self.issues@;
            self.issues.push(issue);
            proof {
                assert(self.issues@ == before.push(issue));
                assert(self@ =~= before.map_values(|x: FieldIssue| issue_view(x)).push(issue_view(issue)));
                assert(other@[i as int] == issue_view(other.issues@[i as int]));
                assert(other@.subrange(0, i + 1) =~= other@.subrange(0, i as int).push(other@[i as int]));
            }
            i = i + 1;
        }
        proof {
            assert(other@.subrange(0, other.issues@.len() as int) =~= other@);
        }
    }

    /// The messages recorded for `field`, in the order they were recorded.
    pub fn messages_for(&self, field: &str) -> (r: Vec<String>)
        ensures
            r@.map_values(|m: String| m@) == messages_of(self@, field@),
    {
        let key = String::from_str(field);
        let mut r: Vec<String> = Vec::new();
        let mut i: usize = 0;
        while i < self.issues.len()
            invariant
                i <= self.issues@.len(),
                key@ == field@,
                r@.map_values(|m: String| m@) == messages_of(self@.subrange(0, i as int), field@),
            decreases self.issues@.len() - i,
        {
            proof {
                assert(self@.subrange(0, i + 1).drop_last() =~= self@.subrange(0, i as int));
            }
            let issue = &self.issues[i];
            proof {
                assert(self@.subrange(0, i + 1).last() == issue_view(*issue));
            }
            if issue.field == key {
                r.push(issue.message.clone());
                proof {
                    assert(r@.map_values(|m: String| m@) =~= messages_of(self@.subrange(0, i as int), field@).push(issue.message@));
                }
            }
            i = i + 1;
        }
        proof {
            assert(self@.subrange(0, self.issues@.len() as int) =~= self@);
        }
        r
    }
}

impl FieldIssue {
    fn clone_issue(&self) -> (r: FieldIssue)
        ensures
            issue_view(r) == issue_view(*self),
    {
        FieldIssue { field: self.field.clone(), message: self.message.clone() }
    }
}

/// Records `message` under `field`.
pub fn add_error(errors: &mut FieldErrors, field: &str, message: &str)
    ensures
        final(errors)@ == old(errors)@.push((field@, message@)),
{
    let issue = FieldIssue { field: String::from_str(field), message: String::from_str(message) };
    errors.issues.push(issue);
    proof {
        assert(final(errors)@ =~= old(errors)@.push((field@, message@)));
    }
}

/// Failure classes of the workflow.
#[derive(Clone, Debug)]
pub enum AppError {
    /// One or more field rules were violated.
    Validation(FieldErrors),
    /// The bill number is already taken.
    Conflict(String),
    /// The integration event could not be confirmed delivered.
    Messaging(String),
    /// A storage or transport failure unrelated to business rules.
    Infrastructure(String),
}

/// Status of a validation failure.
pub const STATUS_BAD_REQUEST: u16 = 400;

/// Status of a conflict.
pub const STATUS_CONFLICT: u16 = 409;

/// Status of a messaging failure.
pub const STATUS_SERVICE_UNAVAILABLE: u16 = 503;

/// Status of an infrastructure failure.
pub const STATUS_INTERNAL_SERVER_ERROR: u16 = 500;

pub open spec fn status_of(e: AppError) -> u16 {
    match e {
        AppError::Validation(_) => STATUS_BAD_REQUEST,
        AppError::Conflict(_) => STATUS_CONFLICT,
        AppError::Messaging(_) => STATUS_SERVICE_UNAVAILABLE,
        AppError::Infrastructure(_) => STATUS_INTERNAL_SERVER_ERROR,
    }
}

pub open spec fn title_of(e: AppError) -> Seq<char> {
    match e {
        AppError::Validation(_) => "Validation failed"@,
        AppError::Conflict(m) => m@,
        AppError::Messaging(m) => "Message broker error: "@ + m@,
        AppError::Infrastructure(_) => "An unexpected error occurred."@,
    }
}

impl AppError {
    /// A validation failure with the one message `message` under `field`.
    pub fn validation_single(field: &str, message: &str) -> (r: AppError)
        ensures
            r is Validation,
            r->Validation_0@ == seq![(field@, message@)],
    {
        let mut errors = FieldErrors::new();
        add_error(&mut errors, field, message);
        proof {
            assert(errors@ =~= seq![(field@, message@)]);
        }
        AppError::Validation(errors)
    }

    /// The status code of the error response.
    pub fn status(&self) -> (r: u16)
        ensures
            r == status_of(*self),
    {
        match self {
            AppError::Validation(_) => STATUS_BAD_REQUEST,
            AppError::Conflict(_) => STATUS_CONFLICT,
            AppError::Messaging(_) => STATUS_SERVICE_UNAVAILABLE,
            AppError::Infrastructure(_) => STATUS_INTERNAL_SERVER_ERROR,
        }
    }

    /// The title of the error response; an infrastructure failure gets a
    /// generic title that leaks no detail.
    pub fn title(&self) -> (r: String)
        ensures
            r@ == title_of(*self),
    {
        match self {
            AppError::Validation(_) => String::from_str("Validation failed"),
            AppError::Conflict(m) => m.clone(),
            AppError::Messaging(m) => String::from_str("Message broker error: ").concat(m.as_str()),
            AppError::Infrastructure(_) => String::from_str("An unexpected error occurred."),
        }
    }

    /// The field errors carried by the response: present for a validation
    /// failure only.
    pub fn field_errors(&self) -> (r: Option<&FieldErrors>)
        ensures
            r is Some <==> self is Validation,
            self is Validation ==> r->Some_0 == self->Validation_0,
    {
        match self {
            AppError::Validation(e) => Some(e),
            _ => None,
        }
    }
}

/// The ASCII upper-case form of `c`; other characters are unchanged.
pub open spec fn ascii_upper(c: char) -> char {
    if 'a' <= c <= 'z' {
        ((c as u32 - 32) as u8) as char
    } else {
        c
    }
}

/// The camel-case text of `s` so far, and whether the next character is
/// to be upper-cased.
pub open spec fn camel_state(s: Seq<char>) -> (Seq<char>, bool)
    decreases s.len(),
{
    if s.len() == 0 {
        (Seq::empty(), false)
    } else {
        let (out, upper_next) = camel_state(s.drop_last());
        let c = s.last();
        if c == '_' {
            (out, true)
        } else if upper_next {
            (out.push(ascii_upper(c)), false)
        } else {
            (out.push(c), false)
        }
    }
}

/// `snake_case` to `camelCase`: every `_` is dropped and the character after
/// a run of them is upper-cased (ASCII letters only).
pub fn snake_to_camel(value: &str) -> (r: String)
    ensures
        r@ == camel_state(value@).0,
{
    let mut output = String::new();
    let mut uppercase_next = false;
    let n = value.unicode_len();
    let mut i: usize = 0;
    while i < n
        invariant
            n == value@.len(),
            i <= n,
            (output@, uppercase_next) == camel_state(value@.subrange(0, i as int)),
        decreases n - i,
    {
        let ch = value.get_char(i);
        proof {
            let p = value@.subrange(0, i + 1);
            assert(p.drop_last() =~= value@.subrange(0, i as int));
            assert(p.last() == ch);
        }
        if ch == '_' {
            uppercase_next = true;
        } else if uppercase_next {
            let up = if 'a' <= ch && ch <= 'z' {
                ((ch as u32 - 32) as u8) as char
            } else {
                ch
            };
            push_char(&mut output, up);
            uppercase_next = false;
        } else {
            push_char(&mut output, ch);
        }
        i = i + 1;
    }
    proof {
        assert(value@.subrange(0, n as int) =~= value@);
    }
    output
}

} // verus!
