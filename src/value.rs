//! Parsed field values, the differences between them, and the comparison
//! of a difference against a threshold.
use vstd::prelude::*;
use core::cmp::Ordering;
use crate::decimal::{push_int, show_int};
use crate::time::{Instant, rfc3339_text, format_rfc3339, span_between, span_nanos};

verus! {

/// A parsed field: an integer, or a point in time.
#[derive(Clone, Copy, Debug, PartialEq, Eq, Structural)]
pub enum Value {
    Number(i64),
    Timestamp(Instant),
}

/// The difference between two values of one kind: an integer delta, or a
/// time span in nanoseconds.
#[derive(Clone, Copy, Debug, PartialEq, Eq, Structural)]
pub enum Difference {
    Number(i128),
    Duration(i128),
}

impl Value {
    pub open spec fn wf(&self) -> bool {
        match self {
            Value::Number(_) => true,
            Value::Timestamp(t) => t.wf(),
        }
    }

    /// Whether two values are of the same kind.
    pub open spec fn same_kind(&self, other: Value) -> bool {
        (self is Number && other is Number) || (self is Timestamp && other is Timestamp)
    }

    /// The display form: decimal for integers, RFC 3339 for instants.
    pub open spec fn text(&self) -> Seq<char> {
        match self {
            Value::Number(i) => show_int(*i as int),
            Value::Timestamp(t) => rfc3339_text(*t),
        }
    }

    /// `self - other`, for two values of the same kind.
    pub open spec fn minus(&self, other: Value) -> Difference {
        match (*self, other) {
            (Value::Number(a), Value::Number(b)) => Difference::Number((a - b) as i128),
            (Value::Timestamp(a), Value::Timestamp(b)) => Difference::Duration(span_nanos(a, b) as i128),
            _ => Difference::Number(0),
        }
    }

    /// Appends the display form to `out`.
    pub fn write_to(&self, out: &mut String)
        requires
            self.wf(),
        ensures
            final(out)@ == old(out)@ + self.text(),
    {
        match self {
            Value::Number(i) => push_int(out, *i),
            Value::Timestamp(t) => {
                let s = format_rfc3339(t);
                out.append(s.as_str());
            },
        }
    }

    /// The display form.
    pub fn to_text(&self) -> (r: String)
        requires
            self.wf(),
        ensures
            r@ == self.text(),
    {
        let mut out = String::new();
        self.write_to(&mut out);
        out
    }

    /// Subtracts `other` from `self`; both are of one kind.
    pub fn sub(self, other: Value) -> (r: Difference)
        requires
            self.same_kind(other),
        ensures
            r == self.minus(other),
    {
        match (self, other) {
            (Value::Number(a), Value::Number(b)) => Difference::Number(a as i128 - b as i128),
            (Value::Timestamp(a), Value::Timestamp(b)) => {
                let d = span_between(&a, &b);
                Difference::Duration(d)
            },
            _ => Difference::Number(0),
        }
    }
}

impl Difference {
    /// The signed size of the difference, in its own unit.
    pub open spec fn amount(&self) -> int {
        match self {
            Difference::Number(n) => *n as int,
            Difference::Duration(d) => *d as int,
        }
    }

    /// Whether two differences are of the same kind.
    pub open spec fn same_kind(&self, other: Difference) -> bool {
        (self is Number && other is Number) || (self is Duration && other is Duration)
    }

    pub open spec fn order(&self, other: &Difference) -> Option<Ordering> {
        if !self.same_kind(*other) {
            None
        } else if self.amount() < other.amount() {
            Some(Ordering::Less)
        } else if self.amount() > other.amount() {
            Some(Ordering::Greater)
        } else {
            Some(Ordering::Equal)
        }
    }
}

impl PartialOrd for Difference {
    fn partial_cmp(&self, other: &Difference) -> (r: Option<Ordering>)
        ensures
            r == self.order(other),
    {
        let (a, b) = match (self, other) {
            (Difference::Number(a), Difference::Number(b)) => (*a, *b),
            (Difference::Duration(a), Difference::Duration(b)) => (*a, *b),
            _ => return None,
        };
        if a < b {
            Some(Ordering::Less)
        } else if a > b {
            Some(Ordering::Greater)
        } else {
            Some(Ordering::Equal)
        }
    }
}

impl vstd::std_specs::cmp::PartialOrdSpecImpl for Difference {
    open spec fn obeys_partial_cmp_spec() -> bool {
        true
    }

    open spec fn partial_cmp_spec(&self, other: &Difference) -> Option<Ordering> {
        self.order(other)
    }
}

/// A relational operator between a difference and a threshold.
#[derive(Clone, Copy, Debug, PartialEq, Eq, Structural)]
pub enum Comparison {
    GreaterThan,
    GreaterOrEqual,
    LessThan,
    LessOrEqual,
}

impl Comparison {
    /// Whether `a` stands to `b` as this operator says.
    pub open spec fn holds(&self, a: Difference, b: Difference) -> bool {
        match self {
            Comparison::GreaterThan => a.amount() > b.amount(),
            Comparison::GreaterOrEqual => a.amount() >= b.amount(),
            Comparison::LessThan => a.amount() < b.amount(),
            Comparison::LessOrEqual => a.amount() <= b.amount(),
        }
    }

    /// Applies the operator to two differences of one kind.
    pub fn compare(&self, a: &Difference, b: &Difference) -> (r: bool)
        requires
            a.same_kind(*b),
        ensures
            r == self.holds(*a, *b),
    {
        match self {
            Comparison::GreaterThan => *a > *b,
            Comparison::GreaterOrEqual => *a >= *b,
            Comparison::LessThan => *a < *b,
            Comparison::LessOrEqual => *a <= *b,
        }
    }
}

} // verus!
