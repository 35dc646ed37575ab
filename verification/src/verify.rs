//! The `verify` subcommand: its options, and the totals of the ternary
//! field whose conservation it checks.
use vstd::prelude::*;
use crate::num::{int_error_text, parse_u64, parse_u64_spec, IntErrorKind};
use crate::options::{args_view, concat2, concat3, floats_view, is_option, FloatArg, FloatFacts};
use crate::text::{chars_of, lines_view, split_chars, split_on, string_of_range, trim, trim_bounds};

verus! {

/// Options of the `verify` subcommand. The tolerance is kept as written;
/// it reads as an `f64` that is not at most zero (above zero, or NaN).
pub struct VerifyCmd {
    pub scales: Vec<u64>,
    pub tolerance: String,
}

/// The spec-level counterpart of `VerifyCmd`.
pub struct VerifyView {
    pub scales: Seq<u64>,
    pub tolerance: Seq<char>,
}

impl View for VerifyCmd {
    type V = VerifyView;

    open spec fn view(&self) -> VerifyView {
        VerifyView { scales: self.scales@, tolerance: self.tolerance@ }
    }
}

/// Reads each trimmed piece as a `u64`; the first piece that fails decides
/// the error.
pub open spec fn parse_scale_pieces(pieces: Seq<Seq<char>>) -> Result<Seq<u64>, IntErrorKind>
    decreases pieces.len(),
{
    if pieces.len() == 0 {
        Ok(Seq::empty())
    } else {
        match parse_scale_pieces(pieces.drop_last()) {
            Err(e) => Err(e),
            Ok(v) => match parse_u64_spec(trim(pieces.last())) {
                Ok(x) => Ok(v.push(x as u64)),
                Err(e) => Err(e),
            },
        }
    }
}

/// Once a prefix of the pieces fails, every longer prefix fails the same way.
proof fn lemma_scale_error_persists(pieces: Seq<Seq<char>>, k: int, j: int, e: IntErrorKind)
    requires
        0 <= k <= j <= pieces.len(),
        parse_scale_pieces(pieces.take(k)) == Err::<Seq<u64>, IntErrorKind>(e),
    ensures
        parse_scale_pieces(pieces.take(j)) == Err::<Seq<u64>, IntErrorKind>(e),
    decreases j - k,
{
    if k < j {
        assert(pieces.take(k + 1).drop_last() =~= pieces.take(k));
        lemma_scale_error_persists(pieces, k + 1, j, e);
    }
}

/// A comma-separated list of scales, each trimmed.
pub open spec fn parse_scales_spec(s: Seq<char>) -> Result<Seq<u64>, IntErrorKind> {
    parse_scale_pieces(split_on(s, ','))
}

/// Whether a tolerance with these facts is refused: it is at most zero (a
/// NaN is not, and passes).
pub open spec fn tolerance_refused(f: FloatFacts) -> bool {
    match f {
        FloatFacts::Parsed { at_most_zero, .. } => at_most_zero,
        FloatFacts::Unparsable(_) => false,
    }
}

/// Reads the options from position `i` on; `floats[j]` tells how `args[j]`
/// reads as an `f64`; `refused` records whether the tolerance so far is at
/// most zero.
pub open spec fn verify_scan(
    args: Seq<Seq<char>>,
    floats: Seq<FloatFacts>,
    i: int,
    scales: Seq<u64>,
    tolerance: Seq<char>,
    refused: bool,
) -> Result<Option<VerifyView>, Seq<char>>
    decreases args.len() - i,
{
    if i < 0 || i >= args.len() {
        if scales.len() == 0 {
            Err("scales must not be empty"@)
        } else if refused {
            Err("tolerance must be > 0"@)
        } else {
            Ok(Some(VerifyView { scales, tolerance }))
        }
    } else {
        let a = args[i];
        if a == "--scales"@ {
            if i + 1 >= args.len() {
                Err("--scales requires a value"@)
            } else {
                match parse_scales_spec(args[i + 1]) {
                    Ok(v) => verify_scan(args, floats, i + 2, v, tolerance, refused),
                    Err(e) => Err("invalid scales: "@ + int_error_text(e)),
                }
            }
        } else if a == "--tolerance"@ || a == "-t"@ {
            if i + 1 >= args.len() {
                Err("--tolerance requires a value"@)
            } else {
                match floats[i + 1] {
                    FloatFacts::Unparsable(m) => Err("invalid tolerance: "@ + m),
                    FloatFacts::Parsed { .. } => verify_scan(
                        args,
                        floats,
                        i + 2,
                        scales,
                        args[i + 1],
                        tolerance_refused(floats[i + 1]),
                    ),
                }
            }
        } else if a == "--help"@ || a == "-h"@ {
            Ok(None)
        } else {
            Err("verify: unknown option '"@ + a + "'"@)
        }
    }
}

/// The outcome of reading `args` as `verify` options (`None` asks for
/// help); the defaults are the scales 3, 5, 7, 9 and the tolerance `1e-9`.
pub open spec fn verify_spec(args: Seq<Seq<char>>, floats: Seq<FloatFacts>) -> Result<
    Option<VerifyView>,
    Seq<char>,
> {
    verify_scan(args, floats, 0, seq![3u64, 5u64, 7u64, 9u64], "1e-9"@, false)
}

/// A parse outcome with its options and message as plain values.
pub open spec fn verify_outcome_view(r: Result<Option<VerifyCmd>, String>) -> Result<Option<VerifyView>, Seq<char>> {
    match r {
        Ok(Some(c)) => Ok(Some(c@)),
        Ok(None) => Ok(None),
        Err(m) => Err(m@),
    }
}

/// Reads a comma-separated list of scales.
pub fn parse_scales(s: &str) -> (r: Result<Vec<u64>, IntErrorKind>)
    ensures
        match parse_scales_spec(s@) {
            Ok(v) => r matches Ok(w) && w@ == v,
            Err(e) => r == Err::<Vec<u64>, IntErrorKind>(e),
        },
{
    let cs = chars_of(s);
    let pieces = split_chars(&cs, ',');
    let ghost pv = lines_view(pieces@);
    let mut out: Vec<u64> = Vec::new();
    let n: usize = pieces.len();
    let mut i: usize = 0;
    assert(pv.take(0) =~= Seq::<Seq<char>>::empty());
    while i < n
        invariant
            n == pieces@.len(),
            pv == lines_view(pieces@),
            pv == split_on(s@, ','),
            i <= n,
            parse_scale_pieces(pv.take(i as int)) == Ok::<Seq<u64>, IntErrorKind>(out@),
        decreases n - i,
    {
        let piece = &pieces[i];
        assert(piece@ == pv[i as int]);
        assert(pv.take(i as int + 1).drop_last() =~= pv.take(i as int));
        assert(pv.take(i as int + 1).last() == piece@);
        let m: usize = piece.len();
        assert(piece@.subrange(0, m as int) =~= piece@);
        let (a, b) = trim_bounds(piece, 0, m);
        let text = string_of_range(piece, a, b);
        match parse_u64(text.as_str()) {
            Ok(x) => {
                out.push(x);
            },
            Err(e) => {
                proof {
                    lemma_scale_error_persists(pv, i as int + 1, n as int, e);
                    assert(pv.take(n as int) =~= pv);
                }
                return Err(e);
            },
        }
        i = i + 1;
    }
    assert(pv.take(n as int) =~= pv);
    Ok(out)
}

impl VerifyCmd {
    /// Reads the options, `None` standing for a request for help;
    /// `floats[j]` tells how `args[j]` reads as an `f64`.
    pub fn parse_with_help(args: &[&String], floats: &[FloatArg]) -> (r: Result<
        Option<VerifyCmd>,
        String,
    >)
        requires
            floats@.len() == args@.len(),
        ensures
            verify_outcome_view(r) == verify_spec(args_view(args@), floats_view(floats@)),
    {
        let ghost av = args_view(args@);
        let ghost fv = floats_view(floats@);
        let mut scales: Vec<u64> = vec![3, 5, 7, 9];
        let mut tolerance: String = "1e-9".to_owned();
        let mut refused: bool = false;
        assert(scales@ =~= seq![3u64, 5u64, 7u64, 9u64]);
        let n: usize = args.len();
        let mut i: usize = 0;
        while i < n
            invariant
                n == args@.len(),
                n == floats@.len(),
                av == args_view(args@),
                fv == floats_view(floats@),
                av.len() == n,
                i <= n,
                verify_spec(av, fv) == verify_scan(av, fv, i as int, scales@, tolerance@, refused),
            decreases n - i,
        {
            let a: &str = args[i].as_str();
            assert(a@ == av[i as int]);
            if crate::text::text_eq(a, "--scales") {
                if i + 1 >= n {
                    return Err("--scales requires a value".to_owned());
                }
                let v: &str = args[i + 1].as_str();
                assert(v@ == av[i + 1]);
                match parse_scales(v) {
                    Ok(list) => {
                        scales = list;
                    },
                    Err(e) => {
                        let m = e.message();
                        return Err(concat2("invalid scales: ", m.as_str()));
                    },
                }
                i = i + 2;
            } else if is_option(a, "--tolerance", "-t") {
                if i + 1 >= n {
                    return Err("--tolerance requires a value".to_owned());
                }
                let v: &str = args[i + 1].as_str();
                assert(v@ == av[i + 1]);
                assert(fv[i + 1] == floats@[i + 1]@);
                match &floats[i + 1] {
                    FloatArg::Unparsable(m) => {
                        return Err(concat2("invalid tolerance: ", m.as_str()));
                    },
                    FloatArg::Parsed { at_most_zero, .. } => {
                        tolerance = v.to_owned();
                        refused = *at_most_zero;
                    },
                }
                i = i + 2;
            } else if is_option(a, "--help", "-h") {
                return Ok(None);
            } else {
                return Err(concat3("verify: unknown option '", a, "'"));
            }
        }
        if scales.len() == 0 {
            return Err("scales must not be empty".to_owned());
        }
        if refused {
            return Err("tolerance must be > 0".to_owned());
        }
        Ok(Some(VerifyCmd { scales, tolerance }))
    }

    /// Reads the options of a command line that does not ask for help.
    pub fn parse(args: &[&String], floats: &[FloatArg]) -> (r: Result<VerifyCmd, String>)
        requires
            floats@.len() == args@.len(),
            !(verify_spec(args_view(args@), floats_view(floats@)) matches Ok(None)),
        ensures
            match verify_spec(args_view(args@), floats_view(floats@)) {
                Ok(Some(c)) => r matches Ok(x) && x@ == c,
                Ok(None) => false,
                Err(m) => r matches Err(e) && e@ == m,
            },
    {
        match Self::parse_with_help(args, floats) {
            Ok(Some(c)) => Ok(c),
            Ok(None) => Err(String::new()),
            Err(e) => Err(e),
        }
    }
}

/// The value of the ternary field at index `i`: -1, 0, +1 in turn.
pub open spec fn trit_at(i: int) -> int {
    i % 3 - 1
}

/// The sum of the squared values over the first `n` cells.
pub open spec fn energy_sum(n: nat) -> int
    decreases n,
{
    if n == 0 {
        0
    } else {
        energy_sum((n - 1) as nat) + trit_at(n - 1) * trit_at(n - 1)
    }
}

/// The sum of the absolute values over the first `n` cells.
pub open spec fn mass_sum(n: nat) -> int
    decreases n,
{
    if n == 0 {
        0
    } else {
        mass_sum((n - 1) as nat) + (if trit_at(n - 1) < 0 {
            -trit_at(n - 1)
        } else {
            trit_at(n - 1)
        })
    }
}

/// The sum of the values over the first `n` cells.
pub open spec fn charge_sum(n: nat) -> int
    decreases n,
{
    if n == 0 {
        0
    } else {
        charge_sum((n - 1) as nat) + trit_at(n - 1)
    }
}

/// The three sums over the first cells of the ternary field.
#[derive(Debug, Clone, Copy, PartialEq, Eq, Structural)]
pub struct FieldTotals {
    pub energy: u64,
    pub mass: u64,
    pub charge: i64,
}

/// The sums in closed form: two units of energy and of mass per complete
/// cycle of -1, 0, +1, one more if an incomplete cycle has begun; the charge
/// is -1 exactly when an incomplete cycle has begun.
pub proof fn lemma_field_sums(n: nat)
    ensures
        energy_sum(n) == 2 * (n / 3) + (if n % 3 == 0 { 0int } else { 1int }),
        mass_sum(n) == energy_sum(n),
        charge_sum(n) == (if n % 3 == 0 { 0int } else { -1int }),
    decreases n,
{
    if n > 0 {
        lemma_field_sums((n - 1) as nat);
        let m = (n - 1) as int;
        assert(trit_at(m) == m % 3 - 1);
        if m % 3 == 0 {
            let t = trit_at(m);
            assert(t == -1);
            assert(t * t == 1) by (nonlinear_arith)
                requires
                    t == -1,
            ;
            assert(n / 3 == m / 3);
            assert(n % 3 == 1);
        } else if m % 3 == 1 {
            let t = trit_at(m);
            assert(t == 0);
            assert(t * t == 0) by (nonlinear_arith)
                requires
                    t == 0,
            ;
            assert(n / 3 == m / 3);
            assert(n % 3 == 2);
        } else {
            let t = trit_at(m);
            assert(t == 1);
            assert(t * t == 1) by (nonlinear_arith)
                requires
                    t == 1,
            ;
            assert(n / 3 == m / 3 + 1);
            assert(n % 3 == 0);
        }
    }
}

/// Over complete cycles of -1, 0, +1 the charge sums to exactly zero, and
/// energy and mass are each two thirds of the number of cells.
pub proof fn lemma_complete_cycles_conserve(n: nat)
    requires
        n % 3 == 0,
    ensures
        charge_sum(n) == 0,
        energy_sum(n) == 2 * n / 3,
        mass_sum(n) == 2 * n / 3,
{
    lemma_field_sums(n);
}

/// The energy, mass and charge of the first `n` cells of the ternary field.
pub fn field_totals(n: u64) -> (t: FieldTotals)
    ensures
        t.energy == energy_sum(n as nat),
        t.mass == mass_sum(n as nat),
        t.charge == charge_sum(n as nat),
{
    proof {
        lemma_field_sums(n as nat);
    }
    let started: bool = n % 3 != 0;
    let energy: u64 = 2 * (n / 3) + if started { 1 } else { 0 };
    FieldTotals { energy, mass: energy, charge: if started { -1 } else { 0 } }
}


/// The totals of the field checked at scale `scale`: its first
/// `scale * scale` cells.
pub fn scale_totals(scale: u64) -> (t: FieldTotals)
    requires
        scale * scale <= u64::MAX,
    ensures
        t.energy == energy_sum((scale * scale) as nat),
        t.mass == mass_sum((scale * scale) as nat),
        t.charge == charge_sum((scale * scale) as nat),
{
    field_totals(scale * scale)
}

/// A square is a multiple of 3 exactly when its root is.
proof fn lemma_square_mod3(s: nat)
    ensures
        (s * s) % 3 == 0 <==> s % 3 == 0,
{
    let q = s / 3;
    let r = s % 3;
    let k: int = (3 * q * q + 2 * q * r) as int;
    assert(s * s == 3 * k + r * r) by (nonlinear_arith)
        requires
            s == 3 * q + r,
            k == 3 * q * q + 2 * q * r,
    ;
    vstd::arithmetic::div_mod::lemma_mod_multiples_vanish(k, (r * r) as int, 3);
    if r == 0 {
        assert(r * r == 0);
    } else if r == 1 {
        assert(r * r == 1);
    } else {
        assert(r * r == 4);
    }
}

/// At scale N the field of N² cells conserves charge (its values sum to
/// zero) exactly when 3 divides N; energy and mass then both equal two
/// thirds of N².
pub proof fn lemma_scale_conservation(scale: nat)
    ensures
        charge_sum(scale * scale) == 0 <==> scale % 3 == 0,
        scale % 3 == 0 ==> energy_sum(scale * scale) == 2 * (scale * scale) / 3
            && mass_sum(scale * scale) == 2 * (scale * scale) / 3,
{
    lemma_field_sums(scale * scale);
    lemma_square_mod3(scale);
}

proof fn lemma_verify_scan_nonempty(
    args: Seq<Seq<char>>,
    floats: Seq<FloatFacts>,
    i: int,
    scales: Seq<u64>,
    tolerance: Seq<char>,
    refused: bool,
)
    ensures
        verify_scan(args, floats, i, scales, tolerance, refused) matches Ok(Some(c)) ==> c.scales.len() > 0,
    decreases args.len() - i,
{
    if 0 <= i < args.len() && i + 1 < args.len() {
        let a = args[i];
        if a == "--scales"@ {
            if let Ok(v) = parse_scales_spec(args[i + 1]) {
                lemma_verify_scan_nonempty(args, floats, i + 2, v, tolerance, refused);
            }
        } else if a == "--tolerance"@ || a == "-t"@ {
            lemma_verify_scan_nonempty(args, floats, i + 2, scales, args[i + 1], tolerance_refused(floats[i + 1]));
        }
    }
}

/// Every accepted `verify` command line names at least one scale.
pub proof fn lemma_verify_scales_nonempty(args: Seq<Seq<char>>, floats: Seq<FloatFacts>)
    ensures
        verify_spec(args, floats) matches Ok(Some(c)) ==> c.scales.len() > 0,
{
    lemma_verify_scan_nonempty(args, floats, 0, seq![3u64, 5u64, 7u64, 9u64], "1e-9"@, false);
}


proof fn lemma_verify_scan_help(
    args: Seq<Seq<char>>,
    floats: Seq<FloatFacts>,
    i: int,
    scales: Seq<u64>,
    tolerance: Seq<char>,
    refused: bool,
)
    requires
        0 <= i,
    ensures
        verify_scan(args, floats, i, scales, tolerance, refused) matches Ok(None) ==> crate::options::has_help_flag(args),
    decreases args.len() - i,
{
    if i < args.len() && i + 1 < args.len() {
        let a = args[i];
        if a == "--scales"@ {
            if let Ok(v) = parse_scales_spec(args[i + 1]) {
                lemma_verify_scan_help(args, floats, i + 2, v, tolerance, refused);
            }
        } else if a == "--tolerance"@ || a == "-t"@ {
            lemma_verify_scan_help(args, floats, i + 2, scales, args[i + 1], tolerance_refused(floats[i + 1]));
        }
    }
    if 0 <= i < args.len() && (args[i] == "--help"@ || args[i] == "-h"@) {
        assert(args[i] == "--help"@ || args[i] == "-h"@);
    }
}

/// Only a `--help` or `-h` among the options asks for help.
pub proof fn lemma_verify_help_needs_flag(args: Seq<Seq<char>>, floats: Seq<FloatFacts>)
    ensures
        verify_spec(args, floats) matches Ok(None) ==> crate::options::has_help_flag(args),
{
    lemma_verify_scan_help(args, floats, 0, seq![3u64, 5u64, 7u64, 9u64], "1e-9"@, false);
}

/// What each option does where the reader meets it, long and short names
/// alike: `--scales` sets the scales to the list that the next argument
/// spells, and fails when it spells none; `--tolerance`/`-t` keeps the next
/// argument as the tolerance when it reads as a number, refusing it at the
/// end if it is at most zero, and fails when it does not read; `--help`/`-h`
/// asks for help, whatever follows.
pub proof fn lemma_verify_options(
    args: Seq<Seq<char>>,
    floats: Seq<FloatFacts>,
    i: int,
    scales: Seq<u64>,
    tolerance: Seq<char>,
    refused: bool,
)
    requires
        0 <= i,
        i + 1 < args.len(),
        floats.len() == args.len(),
    ensures
        args[i] == "--scales"@ ==> match parse_scales_spec(args[i + 1]) {
            Ok(v) => verify_scan(args, floats, i, scales, tolerance, refused) == verify_scan(
                args,
                floats,
                i + 2,
                v,
                tolerance,
                refused,
            ),
            Err(_) => verify_scan(args, floats, i, scales, tolerance, refused) is Err,
        },
        args[i] == "--tolerance"@ || args[i] == "-t"@ ==> match floats[i + 1] {
            FloatFacts::Parsed { at_most_zero, .. } => verify_scan(
                args,
                floats,
                i,
                scales,
                tolerance,
                refused,
            ) == verify_scan(args, floats, i + 2, scales, args[i + 1], at_most_zero),
            FloatFacts::Unparsable(_) => verify_scan(args, floats, i, scales, tolerance, refused) is Err,
        },
        args[i] == "--help"@ || args[i] == "-h"@ ==> verify_scan(
            args,
            floats,
            i,
            scales,
            tolerance,
            refused,
        ) == Ok::<Option<VerifyView>, Seq<char>>(None),
{
    reveal_strlit("--scales");
    assert("--scales"@.len() == 8 && "--scales"@[1] == '-');
    assert("--scales"@[2] == 's');
    reveal_strlit("--tolerance");
    assert("--tolerance"@.len() == 11 && "--tolerance"@[1] == '-');
    assert("--tolerance"@[2] == 't');
    reveal_strlit("-t");
    assert("-t"@.len() == 2 && "-t"@[1] == 't');
    reveal_strlit("--help");
    assert("--help"@.len() == 6 && "--help"@[1] == '-');
    assert("--help"@[2] == 'h');
    reveal_strlit("-h");
    assert("-h"@.len() == 2 && "-h"@[1] == 'h');
}

} // verus!
