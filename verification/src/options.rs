//! What the subcommand parsers share: the outcome of reading options, the
//! view of an argument list, and the facts about floating-point option
//! values that the caller supplies.
use vstd::prelude::*;

verus! {

/// The outcome of reading a subcommand's options when nothing was rejected:
/// either a command to run, or a request for the subcommand's help text.
pub enum Parsed<T> {
    Command(T),
    Help,
}

/// The characters of each argument.
pub open spec fn args_view(args: Seq<&String>) -> Seq<Seq<char>> {
    args.map_values(|s: &String| s@)
}

/// An outcome of a parser, seen through the views of its command and message.
pub open spec fn outcome_view<T: View>(r: Result<Parsed<T>, String>) -> Result<Parsed<T::V>, Seq<char>> {
    match r {
        Ok(Parsed::Command(c)) => Ok(Parsed::Command(c@)),
        Ok(Parsed::Help) => Ok(Parsed::Help),
        Err(m) => Err(m@),
    }
}

/// A plain parse result, seen through the views of its value and message.
pub open spec fn result_view<T: View>(r: Result<T, String>) -> Result<T::V, Seq<char>> {
    match r {
        Ok(c) => Ok(c@),
        Err(m) => Err(m@),
    }
}

/// `outcome` with the help request read as "not a command".
pub open spec fn without_help<V>(outcome: Result<Parsed<V>, Seq<char>>) -> Result<V, Seq<char>> {
    match outcome {
        Ok(Parsed::Command(c)) => Ok(c),
        Ok(Parsed::Help) => Err(Seq::empty()),
        Err(m) => Err(m),
    }
}

/// What the options that take a floating-point value need to know of one
/// argument read as an `f64` `v`: the parse error's message, or whether
/// `0.0 <= v && v <= 1.0` (`in_unit`) and whether `v <= 0.0`
/// (`at_most_zero`). Both are false for a NaN.
pub enum FloatArg {
    Unparsable(String),
    Parsed { in_unit: bool, at_most_zero: bool },
}

/// The spec-level counterpart of a `FloatArg`.
pub enum FloatFacts {
    Unparsable(Seq<char>),
    Parsed { in_unit: bool, at_most_zero: bool },
}

impl View for FloatArg {
    type V = FloatFacts;

    open spec fn view(&self) -> FloatFacts {
        match self {
            FloatArg::Unparsable(m) => FloatFacts::Unparsable(m@),
            FloatArg::Parsed { in_unit, at_most_zero } => FloatFacts::Parsed {
                in_unit: *in_unit,
                at_most_zero: *at_most_zero,
            },
        }
    }
}

/// What each argument is known to read as.
pub open spec fn floats_view(fs: Seq<FloatArg>) -> Seq<FloatFacts> {
    fs.map_values(|f: FloatArg| f@)
}

impl FloatArg {
    /// A copy of these facts.
    pub fn duplicate(&self) -> (r: FloatArg)
        ensures
            r@ == self@,
    {
        match self {
            FloatArg::Unparsable(m) => FloatArg::Unparsable(m.clone()),
            FloatArg::Parsed { in_unit, at_most_zero } => FloatArg::Parsed {
                in_unit: *in_unit,
                at_most_zero: *at_most_zero,
            },
        }
    }
}

/// `a`, `b` and `c` joined.
pub fn concat3(a: &str, b: &str, c: &str) -> (s: String)
    ensures
        s@ == a@ + b@ + c@,
{
    let mut s = a.to_owned();
    s.append(b);
    s.append(c);
    s
}

/// `a` and `b` joined.
pub fn concat2(a: &str, b: &str) -> (s: String)
    ensures
        s@ == a@ + b@,
{
    let mut s = a.to_owned();
    s.append(b);
    s
}

/// Whether `a` spells one of the two given option names.
pub fn is_option(a: &str, long: &str, short: &str) -> (r: bool)
    ensures
        r == (a@ == long@ || a@ == short@),
{
    crate::text::text_eq(a, long) || crate::text::text_eq(a, short)
}


/// Whether some argument is `--help` or `-h`.
pub open spec fn has_help_flag(args: Seq<Seq<char>>) -> bool {
    exists|j: int| 0 <= j < args.len() && (args[j] == "--help"@ || args[j] == "-h"@)
}

} // verus!
