//! The `classify` subcommand: its options and the rules that name a
//! strategy from the make-up of a row of values.
use vstd::prelude::*;
use crate::cli::strings_view;
use crate::options::{args_view, concat3, is_option, outcome_view, result_view, without_help, Parsed};
use crate::text::{chars_of, is_white_space, is_white_space_char, push_char};

verus! {

/// Options of the `classify` subcommand.
pub struct ClassifyCmd {
    pub input_file: String,
    pub format: String,
}

/// The spec-level counterpart of `ClassifyCmd`.
pub struct ClassifyView {
    pub input_file: Seq<char>,
    pub format: Seq<char>,
}

impl View for ClassifyCmd {
    type V = ClassifyView;

    open spec fn view(&self) -> ClassifyView {
        ClassifyView { input_file: self.input_file@, format: self.format@ }
    }
}

/// Reads the options from position `i` on, with the values seen so far.
pub open spec fn classify_scan(
    args: Seq<Seq<char>>,
    i: int,
    input_file: Option<Seq<char>>,
    format: Seq<char>,
) -> Result<Parsed<ClassifyView>, Seq<char>>
    decreases args.len() - i,
{
    if i < 0 || i >= args.len() {
        match input_file {
            Some(f) => Ok(Parsed::Command(ClassifyView { input_file: f, format })),
            None => Err("classify: input file required"@),
        }
    } else {
        let a = args[i];
        if a == "--format"@ || a == "-f"@ {
            if i + 1 >= args.len() {
                Err("--format requires a value"@)
            } else {
                classify_scan(args, i + 2, input_file, args[i + 1])
            }
        } else if a == "--help"@ || a == "-h"@ {
            Ok(Parsed::Help)
        } else if !(a.len() > 0 && a[0] == '-') && input_file is None {
            classify_scan(args, i + 1, Some(a), format)
        } else {
            Err("classify: unknown option '"@ + a + "'"@)
        }
    }
}

/// The outcome of reading `args` as `classify` options: the first argument
/// that does not start with `-` names the input file, which is required;
/// the format defaults to `csv`.
pub open spec fn classify_spec(args: Seq<Seq<char>>) -> Result<Parsed<ClassifyView>, Seq<char>> {
    classify_scan(args, 0, None, "csv"@)
}

impl ClassifyCmd {
    /// Reads the options, reporting a request for help as such.
    pub fn parse_with_help(args: &[&String]) -> (r: Result<Parsed<ClassifyCmd>, String>)
        ensures
            outcome_view(r) == classify_spec(args_view(args@)),
    {
        let ghost av = args_view(args@);
        let mut input_file: Option<String> = None;
        let mut format: String = "csv".to_owned();
        let n: usize = args.len();
        let mut i: usize = 0;
        while i < n
            invariant
                n == args@.len(),
                av == args_view(args@),
                av.len() == n,
                i <= n,
                classify_spec(av) == classify_scan(
                    av,
                    i as int,
                    match input_file {
                        Some(f) => Some(f@),
                        None => None,
                    },
                    format@,
                ),
            decreases n - i,
        {
            let a: &str = args[i].as_str();
            assert(a@ == av[i as int]);
            if is_option(a, "--format", "-f") {
                if i + 1 >= n {
                    return Err("--format requires a value".to_owned());
                }
                let v: &str = args[i + 1].as_str();
                assert(v@ == av[i + 1]);
                format = v.to_owned();
                i = i + 2;
            } else if is_option(a, "--help", "-h") {
                return Ok(Parsed::Help);
            } else if !starts_with_dash(a) && input_file.is_none() {
                input_file = Some(a.to_owned());
                i = i + 1;
            } else {
                return Err(concat3("classify: unknown option '", a, "'"));
            }
        }
        match input_file {
            Some(f) => Ok(Parsed::Command(ClassifyCmd { input_file: f, format })),
            None => Err("classify: input file required".to_owned()),
        }
    }

    /// Reads the options of a command line that does not ask for help.
    pub fn parse(args: &[&String]) -> (r: Result<ClassifyCmd, String>)
        requires
            !(classify_spec(args_view(args@)) matches Ok(Parsed::Help)),
        ensures
            result_view(r) == without_help(classify_spec(args_view(args@))),
    {
        match Self::parse_with_help(args) {
            Ok(Parsed::Command(c)) => Ok(c),
            Ok(Parsed::Help) => Err(String::new()),
            Err(m) => Err(m),
        }
    }
}

/// Whether `a` starts with `-`.
fn starts_with_dash(a: &str) -> (r: bool)
    ensures
        r == (a@.len() > 0 && a@[0] == '-'),
{
    let cs = crate::text::chars_of(a);
    cs.len() > 0 && cs[0] == '-'
}

/// Whether `c` separates the values of a row: a comma or white space.
pub open spec fn is_field_separator(c: char) -> bool {
    c == ',' || is_white_space(c)
}

/// The pieces of a row between separators, empty pieces included.
pub open spec fn row_pieces(s: Seq<char>) -> Seq<Seq<char>>
    decreases s.len(),
{
    if s.len() == 0 {
        seq![Seq::empty()]
    } else {
        let p = row_pieces(s.drop_last());
        if is_field_separator(s.last()) {
            p.push(Seq::empty())
        } else {
            p.update(p.len() - 1, p.last().push(s.last()))
        }
    }
}

/// Cuts a row into its pieces between commas and white space; each piece
/// that reads as a number is a value of the row.
pub fn row_fields(row: &str) -> (r: Vec<String>)
    ensures
        strings_view(r@) == row_pieces(row@),
{
    let cs = chars_of(row);
    let mut pieces: Vec<String> = Vec::new();
    let mut cur: String = String::new();
    let n: usize = cs.len();
    let mut i: usize = 0;
    assert(cs@.take(0) =~= Seq::<char>::empty());
    assert(strings_view(pieces@).push(cur@) =~= seq![Seq::<char>::empty()]);
    while i < n
        invariant
            n == cs@.len(),
            cs@ == row@,
            i <= n,
            row_pieces(cs@.take(i as int)) == strings_view(pieces@).push(cur@),
        decreases n - i,
    {
        let c: char = cs[i];
        assert(cs@.take(i as int + 1).drop_last() =~= cs@.take(i as int));
        if c == ',' || is_white_space_char(c) {
            let done = cur;
            pieces.push(done);
            cur = String::new();
            assert(strings_view(pieces@).push(cur@) =~= row_pieces(cs@.take(i as int)).push(
                Seq::empty(),
            ));
        } else {
            let ghost before = strings_view(pieces@).push(cur@);
            push_char(&mut cur, c);
            assert(strings_view(pieces@).push(cur@) =~= before.update(
                before.len() - 1,
                before.last().push(c),
            ));
        }
        i = i + 1;
    }
    assert(cs@.take(n as int) =~= cs@);
    let last = cur;
    pieces.push(last);
    assert(strings_view(pieces@) =~= row_pieces(row@));
    pieces
}

/// The strategy that a row of values shows.
#[derive(Debug, PartialEq, Eq)]
pub enum Strategy {
    Cooperative,
    Defective,
    TitForTat,
    Random,
    Ternary,
    Unknown(String),
}

/// The spec-level counterpart of `Strategy`.
pub enum StrategyView {
    Cooperative,
    Defective,
    TitForTat,
    Random,
    Ternary,
    Unknown(Seq<char>),
}

impl View for Strategy {
    type V = StrategyView;

    open spec fn view(&self) -> StrategyView {
        match self {
            Strategy::Cooperative => StrategyView::Cooperative,
            Strategy::Defective => StrategyView::Defective,
            Strategy::TitForTat => StrategyView::TitForTat,
            Strategy::Random => StrategyView::Random,
            Strategy::Ternary => StrategyView::Ternary,
            Strategy::Unknown(s) => StrategyView::Unknown(s@),
        }
    }
}

/// The name under which a strategy is shown.
pub open spec fn strategy_text(s: StrategyView) -> Seq<char> {
    match s {
        StrategyView::Cooperative => "Cooperative"@,
        StrategyView::Defective => "Defective"@,
        StrategyView::TitForTat => "Tit-for-Tat"@,
        StrategyView::Random => "Random"@,
        StrategyView::Ternary => "Ternary"@,
        StrategyView::Unknown(why) => "Unknown("@ + why + ")"@,
    }
}

impl Strategy {
    /// The name under which the strategy is shown.
    pub fn to_string(&self) -> (s: String)
        ensures
            s@ == strategy_text(self@),
    {
        match self {
            Strategy::Cooperative => "Cooperative".to_owned(),
            Strategy::Defective => "Defective".to_owned(),
            Strategy::TitForTat => "Tit-for-Tat".to_owned(),
            Strategy::Random => "Random".to_owned(),
            Strategy::Ternary => "Ternary".to_owned(),
            Strategy::Unknown(why) => concat3("Unknown(", why.as_str(), ")"),
        }
    }
}

/// The make-up of a row of values: how many there are, how many are above,
/// below and equal to zero, and where their variance lies.
pub struct ValueProfile {
    pub len: usize,
    pub positive: usize,
    pub negative: usize,
    pub zero: usize,
    pub variance_below_half: bool,
    pub variance_above_one: bool,
}

/// `count` is more than `num / den` of `len`.
pub open spec fn share_above(count: int, len: int, num: int, den: int) -> bool {
    count * den > len * num
}

/// The classification rules, tried in this order: an empty row is
/// unknown; more than 20% positive, more than 20% negative and more than
/// 10% zero is ternary; more than 70% positive is cooperative; more than 70%
/// negative is defective; variance below 0.5 with more than 30% positive and
/// more than 30% negative is tit-for-tat; variance above 1.0 is random; any
/// other row is unknown ("mixed").
pub open spec fn strategy_rule(p: ValueProfile) -> StrategyView {
    let n = p.len as int;
    if n == 0 {
        StrategyView::Unknown("empty"@)
    } else if share_above(p.positive as int, n, 2, 10) && share_above(p.negative as int, n, 2, 10)
        && share_above(p.zero as int, n, 1, 10) {
        StrategyView::Ternary
    } else if share_above(p.positive as int, n, 7, 10) {
        StrategyView::Cooperative
    } else if share_above(p.negative as int, n, 7, 10) {
        StrategyView::Defective
    } else if p.variance_below_half && share_above(p.positive as int, n, 3, 10) && share_above(
        p.negative as int,
        n,
        3,
        10,
    ) {
        StrategyView::TitForTat
    } else if p.variance_above_one {
        StrategyView::Random
    } else {
        StrategyView::Unknown("mixed"@)
    }
}

/// Whether `count` is more than `num` tenths of `len`.
fn tenths_above(count: usize, len: usize, num: u128) -> (r: bool)
    requires
        num <= 10,
    ensures
        r == share_above(count as int, len as int, num as int, 10),
{
    let l: u128 = len as u128;
    assert(l * num <= l * 10) by (nonlinear_arith)
        requires
            num <= 10,
    ;
    (count as u128) * 10 > l * num
}

/// Names the strategy of a row from its make-up.
pub fn classify_profile(p: &ValueProfile) -> (s: Strategy)
    ensures
        s@ == strategy_rule(*p),
{
    let n: usize = p.len;
    if n == 0 {
        return Strategy::Unknown("empty".to_owned());
    }
    if tenths_above(p.positive, n, 2) && tenths_above(p.negative, n, 2) && tenths_above(p.zero, n, 1) {
        return Strategy::Ternary;
    }
    if tenths_above(p.positive, n, 7) {
        return Strategy::Cooperative;
    }
    if tenths_above(p.negative, n, 7) {
        return Strategy::Defective;
    }
    if p.variance_below_half && tenths_above(p.positive, n, 3) && tenths_above(p.negative, n, 3) {
        return Strategy::TitForTat;
    }
    if p.variance_above_one {
        return Strategy::Random;
    }
    Strategy::Unknown("mixed".to_owned())
}


proof fn lemma_classify_scan_help(
    args: Seq<Seq<char>>,
    i: int,
    input_file: Option<Seq<char>>,
    format: Seq<char>,
)
    requires
        0 <= i,
    ensures
        classify_scan(args, i, input_file, format) matches Ok(Parsed::Help) ==> crate::options::has_help_flag(args),
    decreases args.len() - i,
{
    if i < args.len() {
        let a = args[i];
        if a == "--format"@ || a == "-f"@ {
            if i + 1 < args.len() {
                lemma_classify_scan_help(args, i + 2, input_file, args[i + 1]);
            }
        } else if a == "--help"@ || a == "-h"@ {
            assert(args[i] == "--help"@ || args[i] == "-h"@);
        } else if !(a.len() > 0 && a[0] == '-') && input_file is None {
            lemma_classify_scan_help(args, i + 1, Some(a), format);
        }
    }
}

/// Only a `--help` or `-h` among the options asks for help.
pub proof fn lemma_classify_help_needs_flag(args: Seq<Seq<char>>)
    ensures
        classify_spec(args) matches Ok(Parsed::Help) ==> crate::options::has_help_flag(args),
{
    lemma_classify_scan_help(args, 0, None, "csv"@);
}

/// The counts of a profile are a split of its values: no more positive,
/// negative and zero values than there are values.
pub open spec fn counts_fit(p: ValueProfile) -> bool {
    p.positive + p.negative + p.zero <= p.len
}

/// The classification rules, as the strategy table states them: an empty
/// row is unknown; a row with more than 20% positive, more than 20% negative
/// and more than 10% zero values is ternary; otherwise more than 70%
/// positive is cooperative, whatever the variance; and (with counts that
/// fit) more than 70% negative is defective, whatever the variance, and
/// variance below 0.5 with more than 30% of each sign is tit-for-tat.
pub proof fn lemma_classification_rules(p: ValueProfile)
    ensures
        p.len == 0 ==> strategy_rule(p) == StrategyView::Unknown("empty"@),
        p.len > 0 && p.positive * 10 > p.len * 2 && p.negative * 10 > p.len * 2 && p.zero * 10
            > p.len * 1 ==> strategy_rule(p) == StrategyView::Ternary,
        p.len > 0 && !(p.positive * 10 > p.len * 2 && p.negative * 10 > p.len * 2 && p.zero * 10
            > p.len * 1) && p.positive * 10 > p.len * 7 ==> strategy_rule(p)
            == StrategyView::Cooperative,
        p.len > 0 && counts_fit(p) && p.negative * 10 > p.len * 7 ==> strategy_rule(p)
            == StrategyView::Defective,
        p.len > 0 && counts_fit(p) && !(p.zero * 10 > p.len * 1) && p.variance_below_half
            && p.positive * 10 > p.len * 3 && p.negative * 10 > p.len * 3 ==> strategy_rule(p)
            == StrategyView::TitForTat,
{
}

/// The variance only decides between tit-for-tat, random and unknown: two
/// profiles with the same counts that are ternary, cooperative or defective
/// for one are so for the other.
pub proof fn lemma_variance_decides_only_the_rest(p: ValueProfile, q: ValueProfile)
    requires
        p.len == q.len,
        p.positive == q.positive,
        p.negative == q.negative,
        p.zero == q.zero,
    ensures
        strategy_rule(p) is Ternary || strategy_rule(p) is Cooperative || strategy_rule(p) is Defective
            ==> strategy_rule(q) == strategy_rule(p),
{
}

/// What each argument does where the reader meets it: `--format`/`-f`
/// sets the format to the next argument; `--help`/`-h` asks for help,
/// whatever follows; the first argument that does not start with `-` names
/// the input file; any other argument is refused.
pub proof fn lemma_classify_options(
    args: Seq<Seq<char>>,
    i: int,
    input_file: Option<Seq<char>>,
    format: Seq<char>,
)
    requires
        0 <= i < args.len(),
    ensures
        (args[i] == "--format"@ || args[i] == "-f"@) && i + 1 < args.len() ==> classify_scan(
            args,
            i,
            input_file,
            format,
        ) == classify_scan(args, i + 2, input_file, args[i + 1]),
        args[i] == "--help"@ || args[i] == "-h"@ ==> classify_scan(args, i, input_file, format)
            == Ok::<Parsed<ClassifyView>, Seq<char>>(Parsed::Help),
        !(args[i].len() > 0 && args[i][0] == '-') && input_file is None ==> classify_scan(
            args,
            i,
            input_file,
            format,
        ) == classify_scan(args, i + 1, Some(args[i]), format),
        !(args[i].len() > 0 && args[i][0] == '-') && input_file is Some ==> classify_scan(
            args,
            i,
            input_file,
            format,
        ) is Err,
{
    reveal_strlit("--format");
    assert("--format"@.len() == 8 && "--format"@[1] == '-');
    assert("--format"@[2] == 'f');
    reveal_strlit("-f");
    assert("-f"@.len() == 2 && "-f"@[1] == 'f');
    reveal_strlit("--help");
    assert("--help"@.len() == 6 && "--help"@[1] == '-');
    assert("--help"@[2] == 'h');
    reveal_strlit("-h");
    assert("-h"@.len() == 2 && "-h"@[1] == 'h');
}

} // verus!
