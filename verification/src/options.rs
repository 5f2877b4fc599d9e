//! How many entities are worked on at the same time.

use vstd::prelude::*;

use crate::number::{parse_usize, parsed_usize};

verus! {

/// How many entities are worked on at the same time where nothing else is asked for.
pub const DEFAULT_PERMITS: usize = 10;

/// What the command line says of how many entities to work on at the same time.
#[derive(Debug, Clone, Copy, PartialEq, Eq, Structural)]
pub enum Limit {
    /// This many, at least one.
    Given(usize),
    /// None at all.
    Zero,
    /// Something that is no number.
    NotANumber,
    /// Nothing.
    NotGiven,
}

impl Limit {
    /// How many entities to work on at the same time.
    pub open spec fn to_permits(self) -> usize {
        match self {
            Limit::Given(permits) => permits,
            _ => DEFAULT_PERMITS,
        }
    }

    /// How many entities to work on at the same time.
    pub fn permits(self) -> (permits: usize)
        ensures
            permits == self.to_permits(),
    {
        match self {
            Limit::Given(permits) => permits,
            _ => DEFAULT_PERMITS,
        }
    }
}

/// What the first argument behind the name of the program says.
pub open spec fn limit_in(args: Seq<String>) -> Limit {
    if args.len() > 1 {
        match parsed_usize(args[1]@) {
            Some(permits) => if permits > 0 {
                Limit::Given(permits)
            } else {
                Limit::Zero
            },
            None => Limit::NotANumber,
        }
    } else {
        Limit::NotGiven
    }
}

/// As many entities are worked on at the same time as the first argument says, where it is a
/// number above zero, and else ten; what the argument was is told apart.
pub proof fn law_permits_are_the_first_argument(args: Seq<String>)
    ensures
        args.len() <= 1 ==> limit_in(args) is NotGiven,
        args.len() > 1 ==> match parsed_usize(args[1]@) {
            Some(n) => n > 0 ==> limit_in(args) == Limit::Given(n) && limit_in(args).to_permits()
                == n,
            None => limit_in(args) is NotANumber,
        },
        args.len() > 1 && parsed_usize(args[1]@) == Some(0usize) ==> limit_in(args) is Zero,
        limit_in(args) !is Given ==> limit_in(args).to_permits() == 10,
{
}

/// Reads the limit in the arguments of the program, the name of the program first.
pub fn read_limit(args: &Vec<String>) -> (limit: Limit)
    ensures
        limit == limit_in(args@),
        limit.to_permits() > 0,
{
    if args.len() > 1 {
        match parse_usize(args[1].as_str()) {
            Some(permits) => {
                if permits > 0 {
                    Limit::Given(permits)
                } else {
                    Limit::Zero
                }
            },
            None => Limit::NotANumber,
        }
    } else {
        Limit::NotGiven
    }
}

} // verus!
