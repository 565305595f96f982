use vstd::prelude::*;

verus! {

/// Bar interval for historical data requests.
#[derive(Debug, Clone, Copy, PartialEq, Eq, Structural)]
pub enum Interval {
    Daily,
    Weekly,
    Monthly,
}

impl Interval {
    /// The provider's wire name for the interval, as it appears in query strings.
    pub fn display_name(&self) -> (r: &'static str)
        ensures
            r@ == self.spec_name(),
    {
        proof {
            reveal_strlit("daily");
            reveal_strlit("weekly");
            reveal_strlit("monthly");
        }
        match self {
            Interval::Daily => "daily",
            Interval::Weekly => "weekly",
            Interval::Monthly => "monthly",
        }
    }

    /// The wire name at the specification level.
    pub open spec fn spec_name(self) -> Seq<char> {
        match self {
            Interval::Daily => "daily"@,
            Interval::Weekly => "weekly"@,
            Interval::Monthly => "monthly"@,
        }
    }
}

/// Side of an option contract.
#[derive(Debug, Clone, Copy, PartialEq, Eq, Structural)]
pub enum OptionRight {
    Call,
    Put,
}

/// A field that the provider returns either as a single value or as an array.
#[derive(Debug)]
pub enum OneOrMore<T> {
    Multiple(Vec<T>),
    One(T),
}

} // verus!
