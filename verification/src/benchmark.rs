//! The `benchmark` subcommand: its options and the workloads it times.
use vstd::prelude::*;
use crate::num::{int_error_text, parse_u64, parse_u64_spec};
use crate::options::{args_view, concat2, concat3, is_option, outcome_view, result_view, without_help, Parsed};

verus! {

/// Options of the `benchmark` subcommand.
pub struct BenchmarkCmd {
    pub iterations: u64,
    pub strategy: String,
}

/// The spec-level counterpart of `BenchmarkCmd`.
pub struct BenchmarkView {
    pub iterations: u64,
    pub strategy: Seq<char>,
}

impl View for BenchmarkCmd {
    type V = BenchmarkView;

    open spec fn view(&self) -> BenchmarkView {
        BenchmarkView { iterations: self.iterations, strategy: self.strategy@ }
    }
}

/// Reads the options from position `i` on, with the values seen so far.
pub open spec fn benchmark_scan(
    args: Seq<Seq<char>>,
    i: int,
    iterations: u64,
    strategy: Seq<char>,
) -> Result<Parsed<BenchmarkView>, Seq<char>>
    decreases args.len() - i,
{
    if i < 0 || i >= args.len() {
        if iterations == 0 {
            Err("iterations must be > 0"@)
        } else {
            Ok(Parsed::Command(BenchmarkView { iterations, strategy }))
        }
    } else {
        let a = args[i];
        if a == "--iterations"@ || a == "-n"@ {
            if i + 1 >= args.len() {
                Err("--iterations requires a value"@)
            } else {
                match parse_u64_spec(args[i + 1]) {
                    Ok(v) => benchmark_scan(args, i + 2, v as u64, strategy),
                    Err(e) => Err("invalid iterations: "@ + int_error_text(e)),
                }
            }
        } else if a == "--strategy"@ || a == "-s"@ {
            if i + 1 >= args.len() {
                Err("--strategy requires a value"@)
            } else {
                benchmark_scan(args, i + 2, iterations, args[i + 1])
            }
        } else if a == "--help"@ || a == "-h"@ {
            Ok(Parsed::Help)
        } else {
            Err("benchmark: unknown option '"@ + a + "'"@)
        }
    }
}

/// The outcome of reading `args` as `benchmark` options; the defaults are
/// 10000 iterations and the strategy `all`.
pub open spec fn benchmark_spec(args: Seq<Seq<char>>) -> Result<Parsed<BenchmarkView>, Seq<char>> {
    benchmark_scan(args, 0, 10000, "all"@)
}

impl BenchmarkCmd {
    /// Reads the options, reporting a request for help as such.
    pub fn parse_with_help(args: &[&String]) -> (r: Result<Parsed<BenchmarkCmd>, String>)
        ensures
            outcome_view(r) == benchmark_spec(args_view(args@)),
    {
        let ghost av = args_view(args@);
        let mut iterations: u64 = 10000;
        let mut strategy: String = "all".to_owned();
        let n: usize = args.len();
        let mut i: usize = 0;
        while i < n
            invariant
                n == args@.len(),
                av == args_view(args@),
                av.len() == n,
                i <= n,
                benchmark_spec(av) == benchmark_scan(av, i as int, iterations, strategy@),
            decreases n - i,
        {
            let a: &str = args[i].as_str();
            assert(a@ == av[i as int]);
            if is_option(a, "--iterations", "-n") {
                if i + 1 >= n {
                    return Err("--iterations requires a value".to_owned());
                }
                let v: &str = args[i + 1].as_str();
                assert(v@ == av[i + 1]);
                match parse_u64(v) {
                    Ok(x) => {
                        iterations = x;
                    },
                    Err(e) => {
                        let m = e.message();
                        return Err(concat2("invalid iterations: ", m.as_str()));
                    },
                }
                i = i + 2;
            } else if is_option(a, "--strategy", "-s") {
                if i + 1 >= n {
                    return Err("--strategy requires a value".to_owned());
                }
                let v: &str = args[i + 1].as_str();
                assert(v@ == av[i + 1]);
                strategy = v.to_owned();
                i = i + 2;
            } else if is_option(a, "--help", "-h") {
                return Ok(Parsed::Help);
            } else {
                return Err(concat3("benchmark: unknown option '", a, "'"));
            }
        }
        if iterations == 0 {
            return Err("iterations must be > 0".to_owned());
        }
        Ok(Parsed::Command(BenchmarkCmd { iterations, strategy }))
    }

    /// Reads the options of a command line that does not ask for help.
    pub fn parse(args: &[&String]) -> (r: Result<BenchmarkCmd, String>)
        requires
            !(benchmark_spec(args_view(args@)) matches Ok(Parsed::Help)),
        ensures
            result_view(r) == without_help(benchmark_spec(args_view(args@))),
    {
        match Self::parse_with_help(args) {
            Ok(Parsed::Command(c)) => Ok(c),
            Ok(Parsed::Help) => Err(String::new()),
            Err(m) => Err(m),
        }
    }
}

/// The workloads that the suite times.
#[derive(Debug, Clone, Copy, PartialEq, Eq, Structural)]
pub enum Workload {
    Add,
    Multiply,
    Classify,
    Conservation,
}

/// The workloads that a strategy selects, in the order they run: `add` and
/// `mul` select their own workload; `all`, like any other name, selects all
/// four.
pub open spec fn selected_workloads(strategy: Seq<char>) -> Seq<Workload> {
    if strategy == "add"@ {
        seq![Workload::Add]
    } else if strategy == "mul"@ {
        seq![Workload::Multiply]
    } else {
        seq![Workload::Add, Workload::Multiply, Workload::Classify, Workload::Conservation]
    }
}

/// The workloads that `strategy` selects.
pub fn workloads(strategy: &str) -> (w: Vec<Workload>)
    ensures
        w@ == selected_workloads(strategy@),
{
    if crate::text::text_eq(strategy, "add") {
        let w = vec![Workload::Add];
        assert(w@ =~= seq![Workload::Add]);
        w
    } else if crate::text::text_eq(strategy, "mul") {
        let w = vec![Workload::Multiply];
        assert(w@ =~= seq![Workload::Multiply]);
        w
    } else {
        let w = vec![Workload::Add, Workload::Multiply, Workload::Classify, Workload::Conservation];
        assert(w@ =~= seq![Workload::Add, Workload::Multiply, Workload::Classify, Workload::Conservation]);
        w
    }
}

/// The balanced-ternary addition workload: adds the trits -1, 0, +1 in turn
/// `n` times and reports `n` operations.
pub fn bencher_add(n: u64) -> (ops: u64)
    ensures
        ops == n,
{
    let mut sum: i64 = 0;
    let mut i: u64 = 0;
    while i < n
        invariant
            i <= n,
        decreases n - i,
    {
        let trit: i64 = (i % 3) as i64 - 1;
        sum = sum.wrapping_add(trit);
        i = i + 1;
    }
    if sum == i64::MAX {
        n
    } else {
        n
    }
}

/// The sign-multiplication workload: multiplies by the magnitude of each
/// non-zero trit `n` times and reports `n` operations.
pub fn bencher_multiply(n: u64) -> (ops: u64)
    ensures
        ops == n,
{
    let mut product: i64 = 1;
    let mut i: u64 = 0;
    while i < n
        invariant
            i <= n,
        decreases n - i,
    {
        let trit: i64 = (i % 3) as i64 - 1;
        if trit != 0 {
            let magnitude: i64 = if trit < 0 { -trit } else { trit };
            product = product.wrapping_mul(magnitude);
        }
        i = i + 1;
    }
    if product == i64::MAX {
        n
    } else {
        n
    }
}


proof fn lemma_benchmark_scan_positive(
    args: Seq<Seq<char>>,
    i: int,
    iterations: u64,
    strategy: Seq<char>,
)
    ensures
        benchmark_scan(args, i, iterations, strategy) matches Ok(Parsed::Command(c)) ==> c.iterations > 0,
    decreases args.len() - i,
{
    if 0 <= i < args.len() && i + 1 < args.len() {
        let a = args[i];
        if a == "--iterations"@ || a == "-n"@ {
            if let Ok(v) = parse_u64_spec(args[i + 1]) {
                lemma_benchmark_scan_positive(args, i + 2, v as u64, strategy);
            }
        } else if a == "--strategy"@ || a == "-s"@ {
            lemma_benchmark_scan_positive(args, i + 2, iterations, args[i + 1]);
        }
    }
}

/// Every accepted `benchmark` command line runs at least one iteration.
pub proof fn lemma_benchmark_iterations_positive(args: Seq<Seq<char>>)
    ensures
        benchmark_spec(args) matches Ok(Parsed::Command(c)) ==> c.iterations > 0,
{
    lemma_benchmark_scan_positive(args, 0, 10000, "all"@);
}


proof fn lemma_benchmark_scan_help(args: Seq<Seq<char>>, i: int, iterations: u64, strategy: Seq<char>)
    requires
        0 <= i,
    ensures
        benchmark_scan(args, i, iterations, strategy) matches Ok(Parsed::Help) ==> crate::options::has_help_flag(args),
    decreases args.len() - i,
{
    if i < args.len() {
        let a = args[i];
        if a == "--iterations"@ || a == "-n"@ {
            if i + 1 < args.len() {
                if let Ok(v) = parse_u64_spec(args[i + 1]) {
                    lemma_benchmark_scan_help(args, i + 2, v as u64, strategy);
                }
            }
        } else if a == "--strategy"@ || a == "-s"@ {
            if i + 1 < args.len() {
                lemma_benchmark_scan_help(args, i + 2, iterations, args[i + 1]);
            }
        } else if a == "--help"@ || a == "-h"@ {
            assert(args[i] == "--help"@ || args[i] == "-h"@);
        }
    }
}

/// Only a `--help` or `-h` among the options asks for help.
pub proof fn lemma_benchmark_help_needs_flag(args: Seq<Seq<char>>)
    ensures
        benchmark_spec(args) matches Ok(Parsed::Help) ==> crate::options::has_help_flag(args),
{
    lemma_benchmark_scan_help(args, 0, 10000, "all"@);
}

/// What each option does where the reader meets it, long and short names
/// alike: `--iterations`/`-n` sets the count to the number that the next
/// argument spells, and fails when it spells none; `--strategy`/`-s` sets the
/// strategy to the next argument; `--help`/`-h` asks for help, whatever
/// follows.
pub proof fn lemma_benchmark_options(args: Seq<Seq<char>>, i: int, iterations: u64, strategy: Seq<char>)
    requires
        0 <= i,
        i + 1 < args.len(),
    ensures
        args[i] == "--iterations"@ || args[i] == "-n"@ ==> match parse_u64_spec(args[i + 1]) {
            Ok(v) => benchmark_scan(args, i, iterations, strategy) == benchmark_scan(
                args,
                i + 2,
                v as u64,
                strategy,
            ),
            Err(_) => benchmark_scan(args, i, iterations, strategy) is Err,
        },
        args[i] == "--strategy"@ || args[i] == "-s"@ ==> benchmark_scan(args, i, iterations, strategy)
            == benchmark_scan(args, i + 2, iterations, args[i + 1]),
        args[i] == "--help"@ || args[i] == "-h"@ ==> benchmark_scan(args, i, iterations, strategy)
            == Ok::<Parsed<BenchmarkView>, Seq<char>>(Parsed::Help),
{
    reveal_strlit("--iterations");
    assert("--iterations"@.len() == 12 && "--iterations"@[1] == '-');
    assert("--iterations"@[2] == 'i');
    reveal_strlit("-n");
    assert("-n"@.len() == 2 && "-n"@[1] == 'n');
    reveal_strlit("--strategy");
    assert("--strategy"@.len() == 10 && "--strategy"@[1] == '-');
    assert("--strategy"@[2] == 's');
    reveal_strlit("-s");
    assert("-s"@.len() == 2 && "-s"@[1] == 's');
    reveal_strlit("--help");
    assert("--help"@.len() == 6 && "--help"@[1] == '-');
    assert("--help"@[2] == 'h');
    reveal_strlit("-h");
    assert("-h"@.len() == 2 && "-h"@[1] == 'h');
}

} // verus!
