//! The command line as a whole: global flags, then a subcommand and its
//! options.
use vstd::prelude::*;
use crate::benchmark::{benchmark_spec, BenchmarkCmd, BenchmarkView};
use crate::classify::{classify_spec, ClassifyCmd, ClassifyView};
use crate::evolve::{evolve_spec, EvolveCmd, EvolveView};
use crate::options::{args_view, concat3, floats_view, is_option, FloatArg, FloatFacts, Parsed};
use crate::text::text_eq;
use crate::verify::{verify_spec, VerifyCmd, VerifyView};
use crate::visualize::{visualize_spec, VisualizeCmd, VisualizeView};

verus! {

/// The subcommands.
#[derive(Debug, Clone, Copy, PartialEq, Eq, Structural)]
pub enum Subcommand {
    Evolve,
    Classify,
    Benchmark,
    Verify,
    Visualize,
}

/// What the command line asks for.
pub enum Command {
    Evolve(EvolveCmd),
    Classify(ClassifyCmd),
    Benchmark(BenchmarkCmd),
    Verify(VerifyCmd),
    Visualize(VisualizeCmd),
    /// The general help text.
    Help,
    /// The help text of one subcommand.
    SubcommandHelp(Subcommand),
}

/// Parsed command-line arguments.
pub struct Cli {
    pub command: Command,
    pub config_path: Option<String>,
    pub show_version: bool,
    pub show_help: bool,
}

/// The spec-level counterpart of `Command`.
pub enum CommandView {
    Evolve(EvolveView),
    Classify(ClassifyView),
    Benchmark(BenchmarkView),
    Verify(VerifyView),
    Visualize(VisualizeView),
    Help,
    SubcommandHelp(Subcommand),
}

/// The spec-level counterpart of `Cli`.
pub struct CliView {
    pub command: CommandView,
    pub config_path: Option<Seq<char>>,
    pub show_version: bool,
    pub show_help: bool,
}

impl View for Command {
    type V = CommandView;

    open spec fn view(&self) -> CommandView {
        match self {
            Command::Evolve(c) => CommandView::Evolve(c@),
            Command::Classify(c) => CommandView::Classify(c@),
            Command::Benchmark(c) => CommandView::Benchmark(c@),
            Command::Verify(c) => CommandView::Verify(c@),
            Command::Visualize(c) => CommandView::Visualize(c@),
            Command::Help => CommandView::Help,
            Command::SubcommandHelp(s) => CommandView::SubcommandHelp(*s),
        }
    }
}

impl View for Cli {
    type V = CliView;

    open spec fn view(&self) -> CliView {
        CliView {
            command: self.command@,
            config_path: match self.config_path {
                Some(p) => Some(p@),
                None => None,
            },
            show_version: self.show_version,
            show_help: self.show_help,
        }
    }
}

/// The characters of each argument.
pub open spec fn strings_view(args: Seq<String>) -> Seq<Seq<char>> {
    args.map_values(|s: String| s@)
}

/// The global flags found so far, and the positions of the other arguments.
pub struct GlobalFlags {
    pub config: Option<Seq<char>>,
    pub version: bool,
    pub help: bool,
    pub positional: Seq<int>,
}

/// Reads the arguments from position `k` on: `--version`/`-V` and
/// `--help`/`-h` set their flags anywhere; `--config` takes the next
/// argument that is not itself a flag (while the path read so far is
/// empty, the next such argument replaces it); every other argument is
/// positional.
pub open spec fn global_scan(args: Seq<Seq<char>>, k: int, f: GlobalFlags) -> GlobalFlags
    decreases args.len() - k,
{
    if k < 1 || k >= args.len() {
        f
    } else {
        global_scan(args, k + 1, global_step(args, k, f))
    }
}

/// What the argument at position `k` does to the flags found so far.
pub open spec fn global_step(args: Seq<Seq<char>>, k: int, f: GlobalFlags) -> GlobalFlags {
    let a = args[k];
    if a == "--version"@ || a == "-V"@ {
        GlobalFlags { version: true, ..f }
    } else if a == "--help"@ || a == "-h"@ {
        GlobalFlags { help: true, ..f }
    } else if a == "--config"@ {
        GlobalFlags { config: Some(Seq::empty()), ..f }
    } else if f.config == Some(Seq::<char>::empty()) {
        GlobalFlags { config: Some(a), ..f }
    } else {
        GlobalFlags { positional: f.positional.push(k), ..f }
    }
}

/// The elements of `s` at the positions `idx`, in order.
pub open spec fn pick<T>(s: Seq<T>, idx: Seq<int>) -> Seq<T> {
    idx.map_values(|i: int| s[i])
}

/// What a subcommand's own outcome makes of the command.
pub open spec fn evolve_command(r: Result<Option<EvolveView>, Seq<char>>) -> Result<CommandView, Seq<char>> {
    match r {
        Ok(Some(c)) => Ok(CommandView::Evolve(c)),
        Ok(None) => Ok(CommandView::SubcommandHelp(Subcommand::Evolve)),
        Err(m) => Err(m),
    }
}

/// What the `verify` outcome makes of the command.
pub open spec fn verify_command(r: Result<Option<VerifyView>, Seq<char>>) -> Result<CommandView, Seq<char>> {
    match r {
        Ok(Some(c)) => Ok(CommandView::Verify(c)),
        Ok(None) => Ok(CommandView::SubcommandHelp(Subcommand::Verify)),
        Err(m) => Err(m),
    }
}

/// What the `classify` outcome makes of the command.
pub open spec fn classify_command(r: Result<Parsed<ClassifyView>, Seq<char>>) -> Result<CommandView, Seq<char>> {
    match r {
        Ok(Parsed::Command(c)) => Ok(CommandView::Classify(c)),
        Ok(Parsed::Help) => Ok(CommandView::SubcommandHelp(Subcommand::Classify)),
        Err(m) => Err(m),
    }
}

/// What the `benchmark` outcome makes of the command.
pub open spec fn benchmark_command(r: Result<Parsed<BenchmarkView>, Seq<char>>) -> Result<CommandView, Seq<char>> {
    match r {
        Ok(Parsed::Command(c)) => Ok(CommandView::Benchmark(c)),
        Ok(Parsed::Help) => Ok(CommandView::SubcommandHelp(Subcommand::Benchmark)),
        Err(m) => Err(m),
    }
}

/// What the `visualize` outcome makes of the command.
pub open spec fn visualize_command(r: Result<Parsed<VisualizeView>, Seq<char>>) -> Result<CommandView, Seq<char>> {
    match r {
        Ok(Parsed::Command(c)) => Ok(CommandView::Visualize(c)),
        Ok(Parsed::Help) => Ok(CommandView::SubcommandHelp(Subcommand::Visualize)),
        Err(m) => Err(m),
    }
}

/// The command that subcommand `sub` makes of its arguments `sa`, whose
/// readings as `f64` are `sf`.
pub open spec fn subcommand_spec(sub: Seq<char>, sa: Seq<Seq<char>>, sf: Seq<FloatFacts>) -> Result<
    CommandView,
    Seq<char>,
> {
    if sub == "evolve"@ {
        evolve_command(evolve_spec(sa, sf))
    } else if sub == "classify"@ {
        classify_command(classify_spec(sa))
    } else if sub == "benchmark"@ {
        benchmark_command(benchmark_spec(sa))
    } else if sub == "verify"@ {
        verify_command(verify_spec(sa, sf))
    } else if sub == "visualize"@ {
        visualize_command(visualize_spec(sa))
    } else {
        Err("unknown subcommand: '"@ + sub + "'"@)
    }
}

/// The outcome of reading a whole command line, whose first argument is the
/// program's name. A version request wins over everything; then a help
/// request or a missing subcommand gives the general help; otherwise the
/// first positional argument names the subcommand and the others are its
/// options.
pub open spec fn cli_spec(args: Seq<Seq<char>>, floats: Seq<FloatFacts>) -> Result<CliView, Seq<char>> {
    if args.len() == 0 {
        Err("no arguments provided"@)
    } else {
        let f = global_scan(
            args,
            1,
            GlobalFlags { config: None, version: false, help: false, positional: Seq::empty() },
        );
        if f.version {
            Ok(
                CliView {
                    command: CommandView::Help,
                    config_path: None,
                    show_version: true,
                    show_help: false,
                },
            )
        } else if f.help || f.positional.len() == 0 {
            Ok(
                CliView {
                    command: CommandView::Help,
                    config_path: None,
                    show_version: false,
                    show_help: true,
                },
            )
        } else {
            let rest = f.positional.drop_first();
            match subcommand_spec(args[f.positional[0]], pick(args, rest), pick(floats, rest)) {
                Ok(c) => Ok(
                    CliView {
                        command: c,
                        config_path: f.config,
                        show_version: false,
                        show_help: false,
                    },
                ),
                Err(m) => Err(m),
            }
        }
    }
}

/// A parse result with its command line and message as plain values.
pub open spec fn cli_result_view(r: Result<Cli, String>) -> Result<CliView, Seq<char>> {
    match r {
        Ok(c) => Ok(c@),
        Err(m) => Err(m@),
    }
}

/// Reads the global flags of `args` (from position 1 on).
fn scan_globals(args: &[String]) -> (r: (Option<String>, bool, bool, Vec<usize>))
    requires
        args@.len() >= 1,
    ensures
        ({
            let f = global_scan(
                strings_view(args@),
                1,
                GlobalFlags { config: None, version: false, help: false, positional: Seq::empty() },
            );
            &&& f.config == match r.0 {
                Some(p) => Some(p@),
                None => None::<Seq<char>>,
            }
            &&& f.version == r.1
            &&& f.help == r.2
            &&& f.positional == r.3@.map_values(|i: usize| i as int)
            &&& forall|j: int| 0 <= j < r.3@.len() ==> 1 <= #[trigger] r.3@[j] < args@.len()
        }),
{
    let ghost av = strings_view(args@);
    let ghost f0 = GlobalFlags { config: None, version: false, help: false, positional: Seq::empty() };
    let mut config: Option<String> = None;
    let mut version: bool = false;
    let mut help: bool = false;
    let mut positional: Vec<usize> = Vec::new();
    let n: usize = args.len();
    let mut k: usize = 1;
    assert(positional@.map_values(|i: usize| i as int) =~= Seq::<int>::empty());
    while k < n
        invariant
            n == args@.len(),
            av == strings_view(args@),
            1 <= k <= n,
            global_scan(av, 1, f0) == global_scan(
                av,
                k as int,
                GlobalFlags {
                    config: match config {
                        Some(p) => Some(p@),
                        None => None::<Seq<char>>,
                    },
                    version,
                    help,
                    positional: positional@.map_values(|i: usize| i as int),
                },
            ),
            forall|j: int| 0 <= j < positional@.len() ==> 1 <= #[trigger] positional@[j] < n,
        decreases n - k,
    {
        let a: &str = args[k].as_str();
        assert(a@ == av[k as int]);
        let config_pending: bool = match &config {
            Some(p) => p.as_str().is_empty(),
            None => false,
        };
        if is_option(a, "--version", "-V") {
            version = true;
        } else if is_option(a, "--help", "-h") {
            help = true;
        } else if text_eq(a, "--config") {
            config = Some(String::new());
        } else if config_pending {
            assert(config is Some && config->0@ =~= Seq::<char>::empty());
            config = Some(args[k].clone());
        } else {
            assert(config is Some ==> config->0@ != Seq::<char>::empty() || config->0@.len() == 0);
            let ghost before = positional@;
            positional.push(k);
            assert(positional@.map_values(|i: usize| i as int) =~= before.map_values(
                |i: usize| i as int,
            ).push(k as int));
        }
        k = k + 1;
    }
    (config, version, help, positional)
}

/// Reads a whole command line, whose first argument is the program's name;
/// `floats[j]` tells how `args[j]` reads as an `f64`.
pub fn parse(args: &[String], floats: &[FloatArg]) -> (r: Result<Cli, String>)
    requires
        floats@.len() == args@.len(),
    ensures
        cli_result_view(r) == cli_spec(strings_view(args@), floats_view(floats@)),
{
    let ghost av = strings_view(args@);
    let ghost fv = floats_view(floats@);
    if args.len() == 0 {
        return Err("no arguments provided".to_owned());
    }
    let (config_path, version, help, positional) = scan_globals(args);
    if version {
        return Ok(Cli { command: Command::Help, config_path: None, show_version: true, show_help: false });
    }
    if help || positional.len() == 0 {
        proof {
            if positional@.len() == 0 {
                assert(positional@.map_values(|i: usize| i as int).len() == 0);
            }
        }
        return Ok(Cli { command: Command::Help, config_path: None, show_version: false, show_help: true });
    }
    let ghost pos = positional@.map_values(|i: usize| i as int);
    let ghost rest = pos.drop_first();
    let mut sub_args: Vec<&String> = Vec::new();
    let mut sub_floats: Vec<FloatArg> = Vec::new();
    let m: usize = positional.len();
    let mut j: usize = 1;
    assert(rest.take(0) =~= Seq::<int>::empty());
    while j < m
        invariant
            m == positional@.len(),
            m >= 1,
            pos == positional@.map_values(|i: usize| i as int),
            rest == pos.drop_first(),
            av == strings_view(args@),
            fv == floats_view(floats@),
            floats@.len() == args@.len(),
            forall|q: int| 0 <= q < positional@.len() ==> 1 <= #[trigger] positional@[q] < args@.len(),
            1 <= j <= m,
            args_view(sub_args@) == pick(av, rest.take(j - 1)),
            floats_view(sub_floats@) == pick(fv, rest.take(j - 1)),
        decreases m - j,
    {
        let idx: usize = positional[j];
        assert(rest[j - 1] == idx as int);
        assert(rest.take(j as int) =~= rest.take(j - 1).push(idx as int));
        let ghost before_a = sub_args@;
        let ghost before_f = sub_floats@;
        sub_args.push(&args[idx]);
        sub_floats.push(floats[idx].duplicate());
        assert(args_view(sub_args@) =~= args_view(before_a).push(av[idx as int]));
        assert(floats_view(sub_floats@) =~= floats_view(before_f).push(fv[idx as int]));
        assert(pick(av, rest.take(j as int)) =~= pick(av, rest.take(j - 1)).push(av[idx as int]));
        assert(pick(fv, rest.take(j as int)) =~= pick(fv, rest.take(j - 1)).push(fv[idx as int]));
        j = j + 1;
    }
    assert(rest.take(m - 1) =~= rest);
    let sub: &str = args[positional[0]].as_str();
    assert(sub@ == av[pos[0]]);
    let command: Command = if text_eq(sub, "evolve") {
        match EvolveCmd::parse_with_help(sub_args.as_slice(), sub_floats.as_slice()) {
            Ok(Some(c)) => Command::Evolve(c),
            Ok(None) => Command::SubcommandHelp(Subcommand::Evolve),
            Err(e) => {
                return Err(e);
            },
        }
    } else if text_eq(sub, "classify") {
        match ClassifyCmd::parse_with_help(sub_args.as_slice()) {
            Ok(Parsed::Command(c)) => Command::Classify(c),
            Ok(Parsed::Help) => Command::SubcommandHelp(Subcommand::Classify),
            Err(e) => {
                return Err(e);
            },
        }
    } else if text_eq(sub, "benchmark") {
        match BenchmarkCmd::parse_with_help(sub_args.as_slice()) {
            Ok(Parsed::Command(c)) => Command::Benchmark(c),
            Ok(Parsed::Help) => Command::SubcommandHelp(Subcommand::Benchmark),
            Err(e) => {
                return Err(e);
            },
        }
    } else if text_eq(sub, "verify") {
        match VerifyCmd::parse_with_help(sub_args.as_slice(), sub_floats.as_slice()) {
            Ok(Some(c)) => Command::Verify(c),
            Ok(None) => Command::SubcommandHelp(Subcommand::Verify),
            Err(e) => {
                return Err(e);
            },
        }
    } else if text_eq(sub, "visualize") {
        match VisualizeCmd::parse_with_help(sub_args.as_slice()) {
            Ok(Parsed::Command(c)) => Command::Visualize(c),
            Ok(Parsed::Help) => Command::SubcommandHelp(Subcommand::Visualize),
            Err(e) => {
                return Err(e);
            },
        }
    } else {
        return Err(concat3("unknown subcommand: '", sub, "'"));
    };
    Ok(Cli { command, config_path, show_version: false, show_help: false })
}

proof fn lemma_scan_keeps_version(args: Seq<Seq<char>>, k: int, f: GlobalFlags)
    requires
        f.version,
    ensures
        global_scan(args, k, f).version,
    decreases args.len() - k,
{
    if 1 <= k < args.len() {
        let f2 = global_step(args, k, f);
        lemma_scan_keeps_version(args, k + 1, f2);
    }
}

proof fn lemma_scan_sees_version(args: Seq<Seq<char>>, k: int, f: GlobalFlags, j: int)
    requires
        1 <= k <= j < args.len(),
        args[j] == "--version"@ || args[j] == "-V"@,
    ensures
        global_scan(args, k, f).version,
    decreases j - k,
{
    let f2 = global_step(args, k, f);
    if k == j {
        lemma_scan_keeps_version(args, k + 1, f2);
    } else {
        lemma_scan_sees_version(args, k + 1, f2, j);
    }
}

/// A `--version` or `-V` anywhere after the program's name wins over every
/// other argument: the command line then only asks for the version.
pub proof fn lemma_version_wins(args: Seq<Seq<char>>, floats: Seq<FloatFacts>, j: int)
    requires
        1 <= j < args.len(),
        args[j] == "--version"@ || args[j] == "-V"@,
    ensures
        cli_spec(args, floats) == Ok::<CliView, Seq<char>>(
            CliView {
                command: CommandView::Help,
                config_path: None,
                show_version: true,
                show_help: false,
            },
        ),
{
    lemma_scan_sees_version(
        args,
        1,
        GlobalFlags { config: None, version: false, help: false, positional: Seq::empty() },
        j,
    );
}

/// The positions in `f` hold arguments after the program's name that are
/// not help flags.
pub open spec fn positional_clean(args: Seq<Seq<char>>, f: GlobalFlags) -> bool {
    forall|q: int|
        0 <= q < f.positional.len() ==> 1 <= #[trigger] f.positional[q] < args.len() && !(
        args[f.positional[q]] == "--help"@ || args[f.positional[q]] == "-h"@)
}

proof fn lemma_scan_positional_clean(args: Seq<Seq<char>>, k: int, f: GlobalFlags)
    requires
        positional_clean(args, f),
    ensures
        positional_clean(args, global_scan(args, k, f)),
    decreases args.len() - k,
{
    if 1 <= k < args.len() {
        let f2 = global_step(args, k, f);
        assert(positional_clean(args, f2)) by {
            assert forall|q: int| 0 <= q < f2.positional.len() implies 1 <= #[trigger] f2.positional[q]
                < args.len() && !(args[f2.positional[q]] == "--help"@ || args[f2.positional[q]]
                == "-h"@) by {
                if q < f.positional.len() {
                    assert(f2.positional[q] == f.positional[q]);
                }
            }
        }
        lemma_scan_positional_clean(args, k + 1, f2);
    }
}

/// A subcommand's own request for help is never reached from the command
/// line: `--help` and `-h` are taken as the global help flag wherever they
/// stand, so no subcommand sees them among its options.
pub proof fn lemma_subcommand_help_unreachable(args: Seq<Seq<char>>, floats: Seq<FloatFacts>)
    ensures
        cli_spec(args, floats) matches Ok(v) ==> !(v.command is SubcommandHelp),
{
    if args.len() > 0 {
        let f0 = GlobalFlags { config: None, version: false, help: false, positional: Seq::empty() };
        lemma_scan_positional_clean(args, 1, f0);
        let f = global_scan(args, 1, f0);
        if !f.version && !f.help && f.positional.len() > 0 {
            let rest = f.positional.drop_first();
            let sa = pick(args, rest);
            let sf = pick(floats, rest);
            assert(!crate::options::has_help_flag(sa)) by {
                if crate::options::has_help_flag(sa) {
                    let j = choose|j: int| 0 <= j < sa.len() && (sa[j] == "--help"@ || sa[j] == "-h"@);
                    assert(sa[j] == args[f.positional[j + 1]]);
                }
            }
            crate::benchmark::lemma_benchmark_help_needs_flag(sa);
            crate::classify::lemma_classify_help_needs_flag(sa);
            crate::visualize::lemma_visualize_help_needs_flag(sa);
            crate::evolve::lemma_evolve_help_needs_flag(sa, sf);
            crate::verify::lemma_verify_help_needs_flag(sa, sf);
        }
    }
}

/// The argument at position `k` is no version or help flag, and a
/// `--config` there is the last argument or is followed by a path that is
/// neither empty nor `--config` itself.
pub open spec fn plain_arg(args: Seq<Seq<char>>, k: int) -> bool {
    &&& !(args[k] == "--version"@ || args[k] == "-V"@ || args[k] == "--help"@ || args[k] == "-h"@)
    &&& (args[k] == "--config"@ && k + 1 < args.len() ==> args[k + 1] != "--config"@ && args[k
        + 1].len() > 0)
}

/// Every argument after the program's name is plain.
pub open spec fn plain_globals(args: Seq<Seq<char>>) -> bool {
    forall|k: int| 1 <= k < args.len() ==> #[trigger] plain_arg(args, k)
}

/// The positions from `k` on that hold neither `--config` nor its path.
pub open spec fn plain_positions(args: Seq<Seq<char>>, k: int) -> Seq<int>
    decreases args.len() - k,
{
    if k < 1 || k >= args.len() {
        Seq::empty()
    } else if args[k] == "--config"@ {
        if k + 1 >= args.len() {
            Seq::empty()
        } else {
            plain_positions(args, k + 2)
        }
    } else {
        seq![k] + plain_positions(args, k + 1)
    }
}

/// The path after the last `--config` from position `k` on, if any.
pub open spec fn last_config(args: Seq<Seq<char>>, k: int) -> Option<Seq<char>>
    decreases args.len() - k,
{
    if k < 1 || k >= args.len() {
        None
    } else if args[k] == "--config"@ {
        if k + 1 >= args.len() {
            Some(Seq::empty())
        } else {
            match last_config(args, k + 2) {
                Some(p) => Some(p),
                None => Some(args[k + 1]),
            }
        }
    } else {
        last_config(args, k + 1)
    }
}

proof fn lemma_plain_scan(args: Seq<Seq<char>>, k: int, f: GlobalFlags)
    requires
        1 <= k,
        plain_globals(args),
        !f.version,
        !f.help,
        f.config != Some(Seq::<char>::empty()),
    ensures
        !global_scan(args, k, f).version,
        !global_scan(args, k, f).help,
        global_scan(args, k, f).positional == f.positional + plain_positions(args, k),
        global_scan(args, k, f).config == (match last_config(args, k) {
            Some(p) => Some(p),
            None => f.config,
        }),
    decreases args.len() - k,
{
    if k >= args.len() {
        assert(f.positional + plain_positions(args, k) =~= f.positional);
    } else {
        assert(plain_arg(args, k));
        let f2 = global_step(args, k, f);
        if args[k] == "--config"@ && k + 1 >= args.len() {
            assert(global_scan(args, k + 1, f2) == f2);
            assert(f.positional + plain_positions(args, k) =~= f.positional);
        } else if args[k] == "--config"@ {
            assert(plain_arg(args, k + 1));
            let f3 = global_step(args, k + 1, f2);
            assert(f3.config == Some(args[k + 1]));
            assert(global_scan(args, k + 1, f2) == global_scan(args, k + 2, f3));
            lemma_plain_scan(args, k + 2, f3);
        } else {
            lemma_plain_scan(args, k + 1, f2);
            assert(f2.positional + plain_positions(args, k + 1) =~= f.positional + plain_positions(
                args,
                k,
            ));
        }
    }
}

/// On a command line whose global flags are plain (no version or help
/// flag; every `--config` followed by a non-empty path other than
/// `--config`, or standing last, which gives the empty path), the words
/// left after taking out each `--config` and its path decide everything:
/// none gives the general help; otherwise the first names the subcommand,
/// whose own parser reads the rest. Its error is the command line's error,
/// with the same message, and its command is the command line's command,
/// with the path of the last `--config`.
pub proof fn lemma_subcommand_outcome_passes_through(args: Seq<Seq<char>>, floats: Seq<FloatFacts>)
    requires
        args.len() >= 1,
        plain_globals(args),
    ensures
        ({
            let pos = plain_positions(args, 1);
            &&& pos.len() == 0 ==> cli_spec(args, floats) == Ok::<CliView, Seq<char>>(
                CliView {
                    command: CommandView::Help,
                    config_path: None,
                    show_version: false,
                    show_help: true,
                },
            )
            &&& pos.len() > 0 ==> cli_spec(args, floats) == match subcommand_spec(
                args[pos[0]],
                pick(args, pos.drop_first()),
                pick(floats, pos.drop_first()),
            ) {
                Ok(c) => Ok::<CliView, Seq<char>>(
                    CliView {
                        command: c,
                        config_path: last_config(args, 1),
                        show_version: false,
                        show_help: false,
                    },
                ),
                Err(m) => Err(m),
            }
        }),
{
    let f0 = GlobalFlags { config: None, version: false, help: false, positional: Seq::empty() };
    lemma_plain_scan(args, 1, f0);
    assert(Seq::<int>::empty() + plain_positions(args, 1) =~= plain_positions(args, 1));
}

} // verus!
