//! The `visualize` subcommand: its options, the choice of picture, and the
//! ternary field pattern.
use vstd::prelude::*;
use crate::num::{int_error_text, parse_usize, parse_usize_spec};
use crate::options::{args_view, concat2, concat3, is_option, outcome_view, result_view, without_help, Parsed};
use crate::text::text_eq;

verus! {

/// Options of the `visualize` subcommand.
pub struct VisualizeCmd {
    pub vis_type: String,
    pub width: usize,
    pub height: usize,
}

/// The spec-level counterpart of `VisualizeCmd`.
pub struct VisualizeView {
    pub vis_type: Seq<char>,
    pub width: usize,
    pub height: usize,
}

impl View for VisualizeCmd {
    type V = VisualizeView;

    open spec fn view(&self) -> VisualizeView {
        VisualizeView { vis_type: self.vis_type@, width: self.width, height: self.height }
    }
}

/// Reads the options from position `i` on, with the values seen so far.
/// Here `-h` is the height; only `--help` asks for help.
pub open spec fn visualize_scan(
    args: Seq<Seq<char>>,
    i: int,
    vis_type: Seq<char>,
    width: usize,
    height: usize,
) -> Result<Parsed<VisualizeView>, Seq<char>>
    decreases args.len() - i,
{
    if i < 0 || i >= args.len() {
        if width < 10 {
            Err("width must be >= 10"@)
        } else if height < 5 {
            Err("height must be >= 5"@)
        } else {
            Ok(Parsed::Command(VisualizeView { vis_type, width, height }))
        }
    } else {
        let a = args[i];
        if a == "--type"@ || a == "-t"@ {
            if i + 1 >= args.len() {
                Err("--type requires a value"@)
            } else {
                visualize_scan(args, i + 2, args[i + 1], width, height)
            }
        } else if a == "--width"@ || a == "-w"@ {
            if i + 1 >= args.len() {
                Err("--width requires a value"@)
            } else {
                match parse_usize_spec(args[i + 1]) {
                    Ok(v) => visualize_scan(args, i + 2, vis_type, v as usize, height),
                    Err(e) => Err("invalid width: "@ + int_error_text(e)),
                }
            }
        } else if a == "--height"@ || a == "-h"@ {
            if i + 1 >= args.len() {
                Err("--height requires a value"@)
            } else {
                match parse_usize_spec(args[i + 1]) {
                    Ok(v) => visualize_scan(args, i + 2, vis_type, width, v as usize),
                    Err(e) => Err("invalid height: "@ + int_error_text(e)),
                }
            }
        } else if a == "--help"@ {
            Ok(Parsed::Help)
        } else {
            Err("visualize: unknown option '"@ + a + "'"@)
        }
    }
}

/// The outcome of reading `args` as `visualize` options; the defaults are
/// the type `fitness-landscape`, width 60 and height 20.
pub open spec fn visualize_spec(args: Seq<Seq<char>>) -> Result<Parsed<VisualizeView>, Seq<char>> {
    visualize_scan(args, 0, "fitness-landscape"@, 60, 20)
}

impl VisualizeCmd {
    /// Reads the options, reporting a request for help as such.
    pub fn parse_with_help(args: &[&String]) -> (r: Result<Parsed<VisualizeCmd>, String>)
        ensures
            outcome_view(r) == visualize_spec(args_view(args@)),
    {
        let ghost av = args_view(args@);
        let mut vis_type: String = "fitness-landscape".to_owned();
        let mut width: usize = 60;
        let mut height: usize = 20;
        let n: usize = args.len();
        let mut i: usize = 0;
        while i < n
            invariant
                n == args@.len(),
                av == args_view(args@),
                av.len() == n,
                i <= n,
                visualize_spec(av) == visualize_scan(av, i as int, vis_type@, width, height),
            decreases n - i,
        {
            let a: &str = args[i].as_str();
            assert(a@ == av[i as int]);
            if is_option(a, "--type", "-t") {
                if i + 1 >= n {
                    return Err("--type requires a value".to_owned());
                }
                let v: &str = args[i + 1].as_str();
                assert(v@ == av[i + 1]);
                vis_type = v.to_owned();
                i = i + 2;
            } else if is_option(a, "--width", "-w") {
                if i + 1 >= n {
                    return Err("--width requires a value".to_owned());
                }
                let v: &str = args[i + 1].as_str();
                assert(v@ == av[i + 1]);
                match parse_usize(v) {
                    Ok(x) => {
                        width = x;
                    },
                    Err(e) => {
                        let m = e.message();
                        return Err(concat2("invalid width: ", m.as_str()));
                    },
                }
                i = i + 2;
            } else if is_option(a, "--height", "-h") {
                if i + 1 >= n {
                    return Err("--height requires a value".to_owned());
                }
                let v: &str = args[i + 1].as_str();
                assert(v@ == av[i + 1]);
                match parse_usize(v) {
                    Ok(x) => {
                        height = x;
                    },
                    Err(e) => {
                        let m = e.message();
                        return Err(concat2("invalid height: ", m.as_str()));
                    },
                }
                i = i + 2;
            } else if text_eq(a, "--help") {
                return Ok(Parsed::Help);
            } else {
                return Err(concat3("visualize: unknown option '", a, "'"));
            }
        }
        if width < 10 {
            return Err("width must be >= 10".to_owned());
        }
        if height < 5 {
            return Err("height must be >= 5".to_owned());
        }
        Ok(Parsed::Command(VisualizeCmd { vis_type, width, height }))
    }

    /// Reads the options of a command line that does not ask for help.
    pub fn parse(args: &[&String]) -> (r: Result<VisualizeCmd, String>)
        requires
            !(visualize_spec(args_view(args@)) matches Ok(Parsed::Help)),
        ensures
            result_view(r) == without_help(visualize_spec(args_view(args@))),
    {
        match Self::parse_with_help(args) {
            Ok(Parsed::Command(c)) => Ok(c),
            Ok(Parsed::Help) => Err(String::new()),
            Err(m) => Err(m),
        }
    }
}

/// The pictures that can be drawn.
#[derive(Debug, Clone, Copy, PartialEq, Eq, Structural)]
pub enum Visualization {
    FitnessLandscape,
    PhaseSpace,
    TernaryField,
}

/// The picture that a type names: `fitness-landscape`, `phase-space` or
/// `ternary-field`; any other type is an error.
pub open spec fn visualization_of(t: Seq<char>) -> Result<Visualization, Seq<char>> {
    if t == "fitness-landscape"@ {
        Ok(Visualization::FitnessLandscape)
    } else if t == "phase-space"@ {
        Ok(Visualization::PhaseSpace)
    } else if t == "ternary-field"@ {
        Ok(Visualization::TernaryField)
    } else {
        Err("unknown visualization type: '"@ + t + "'"@)
    }
}

impl VisualizeCmd {
    /// The picture that the type names.
    pub fn visualization(&self) -> (r: Result<Visualization, String>)
        ensures
            match visualization_of(self.vis_type@) {
                Ok(v) => r == Ok::<Visualization, String>(v),
                Err(m) => r matches Err(e) && e@ == m,
            },
    {
        let t: &str = self.vis_type.as_str();
        if text_eq(t, "fitness-landscape") {
            Ok(Visualization::FitnessLandscape)
        } else if text_eq(t, "phase-space") {
            Ok(Visualization::PhaseSpace)
        } else if text_eq(t, "ternary-field") {
            Ok(Visualization::TernaryField)
        } else {
            Err(concat3("unknown visualization type: '", t, "'"))
        }
    }
}

/// The symbol for a field value: `─` for -1, `·` for 0, `│` for +1, where
/// the value is `v - 1`.
pub open spec fn field_symbol(v: int) -> char {
    if v == 0 {
        '─'
    } else if v == 1 {
        '·'
    } else {
        '│'
    }
}

/// The ternary field: row `y`, column `x` holds the symbol of
/// `(x + 7 * y) % 3`.
pub fn ternary_field(width: usize, height: usize) -> (rows: Vec<Vec<char>>)
    ensures
        rows@.len() == height,
        forall|y: int| 0 <= y < height ==> (#[trigger] rows@[y])@.len() == width,
        forall|y: int, x: int|
            0 <= y < height && 0 <= x < width ==> #[trigger] rows@[y]@[x] == field_symbol(
                (x + 7 * y) % 3,
            ),
{
    let mut rows: Vec<Vec<char>> = Vec::new();
    let mut y: usize = 0;
    while y < height
        invariant
            y <= height,
            rows@.len() == y,
            forall|r: int| 0 <= r < y ==> (#[trigger] rows@[r])@.len() == width,
            forall|r: int, x: int|
                0 <= r < y && 0 <= x < width ==> #[trigger] rows@[r]@[x] == field_symbol(
                    (x + 7 * r) % 3,
                ),
        decreases height - y,
    {
        let mut line: Vec<char> = Vec::new();
        let mut x: usize = 0;
        while x < width
            invariant
                x <= width,
                y < height,
                line@.len() == x,
                forall|c: int| 0 <= c < x ==> line@[c] == field_symbol((c + 7 * y) % 3),
            decreases width - x,
        {
            let v: usize = (x % 3 + y % 3) % 3;
            assert(v == (x + 7 * y) % 3);
            let c: char = if v == 0 {
                '─'
            } else if v == 1 {
                '·'
            } else {
                '│'
            };
            line.push(c);
            x = x + 1;
        }
        rows.push(line);
        y = y + 1;
    }
    rows
}


/// The cell at row `y`, column `x` of the phase-space axes of a
/// `width` by `height` picture: the horizontal axis `─` on row `height / 2`,
/// the vertical axis `│` in column `width / 2`, `┼` where they cross, `△`
/// at the top of the vertical axis and `▷` at the right end of the
/// horizontal one (each later mark drawn over the earlier ones); blank
/// elsewhere.
pub open spec fn axes_cell(width: int, height: int, y: int, x: int) -> char {
    if y == height / 2 && x == width - 1 {
        '▷'
    } else if y == 0 && x == width / 2 {
        '△'
    } else if y == height / 2 && x == width / 2 {
        '┼'
    } else if x == width / 2 {
        '│'
    } else if y == height / 2 {
        '─'
    } else {
        ' '
    }
}

/// The grid of the phase-space picture before its points are plotted: the
/// two axes with their marks.
pub fn phase_axes(width: usize, height: usize) -> (rows: Vec<Vec<char>>)
    requires
        width > 0,
        height > 0,
    ensures
        rows@.len() == height,
        forall|y: int| 0 <= y < height ==> (#[trigger] rows@[y])@.len() == width,
        forall|y: int, x: int|
            0 <= y < height && 0 <= x < width ==> #[trigger] rows@[y]@[x] == axes_cell(
                width as int,
                height as int,
                y,
                x,
            ),
{
    let cx: usize = width / 2;
    let cy: usize = height / 2;
    let mut rows: Vec<Vec<char>> = Vec::new();
    let mut y: usize = 0;
    while y < height
        invariant
            y <= height,
            cx == width / 2,
            cy == height / 2,
            rows@.len() == y,
            forall|r: int| 0 <= r < y ==> (#[trigger] rows@[r])@.len() == width,
            forall|r: int, x: int|
                0 <= r < y && 0 <= x < width ==> #[trigger] rows@[r]@[x] == axes_cell(
                    width as int,
                    height as int,
                    r,
                    x,
                ),
        decreases height - y,
    {
        let mut line: Vec<char> = Vec::new();
        let mut x: usize = 0;
        while x < width
            invariant
                x <= width,
                y < height,
                cx == width / 2,
                cy == height / 2,
                line@.len() == x,
                forall|c: int| 0 <= c < x ==> line@[c] == axes_cell(width as int, height as int, y as int, c),
            decreases width - x,
        {
            let c: char = if y == cy && x == width - 1 {
                '▷'
            } else if y == 0 && x == cx {
                '△'
            } else if y == cy && x == cx {
                '┼'
            } else if x == cx {
                '│'
            } else if y == cy {
                '─'
            } else {
                ' '
            };
            line.push(c);
            x = x + 1;
        }
        rows.push(line);
        y = y + 1;
    }
    rows
}

proof fn lemma_visualize_scan_size(
    args: Seq<Seq<char>>,
    i: int,
    vis_type: Seq<char>,
    width: usize,
    height: usize,
)
    ensures
        visualize_scan(args, i, vis_type, width, height) matches Ok(Parsed::Command(c)) ==> c.width
            >= 10 && c.height >= 5,
    decreases args.len() - i,
{
    if 0 <= i < args.len() && i + 1 < args.len() {
        let a = args[i];
        if a == "--type"@ || a == "-t"@ {
            lemma_visualize_scan_size(args, i + 2, args[i + 1], width, height);
        } else if a == "--width"@ || a == "-w"@ {
            if let Ok(v) = parse_usize_spec(args[i + 1]) {
                lemma_visualize_scan_size(args, i + 2, vis_type, v as usize, height);
            }
        } else if a == "--height"@ || a == "-h"@ {
            if let Ok(v) = parse_usize_spec(args[i + 1]) {
                lemma_visualize_scan_size(args, i + 2, vis_type, width, v as usize);
            }
        }
    }
}

/// Every accepted `visualize` command line asks for a picture at least 10
/// wide and 5 high.
pub proof fn lemma_visualize_size_bounds(args: Seq<Seq<char>>)
    ensures
        visualize_spec(args) matches Ok(Parsed::Command(c)) ==> c.width >= 10 && c.height >= 5,
{
    lemma_visualize_scan_size(args, 0, "fitness-landscape"@, 60, 20);
}


proof fn lemma_visualize_scan_help(
    args: Seq<Seq<char>>,
    i: int,
    vis_type: Seq<char>,
    width: usize,
    height: usize,
)
    requires
        0 <= i,
    ensures
        visualize_scan(args, i, vis_type, width, height) matches Ok(Parsed::Help) ==> crate::options::has_help_flag(args),
    decreases args.len() - i,
{
    if i < args.len() && i + 1 < args.len() {
        let a = args[i];
        if a == "--type"@ || a == "-t"@ {
            lemma_visualize_scan_help(args, i + 2, args[i + 1], width, height);
        } else if a == "--width"@ || a == "-w"@ {
            if let Ok(v) = parse_usize_spec(args[i + 1]) {
                lemma_visualize_scan_help(args, i + 2, vis_type, v as usize, height);
            }
        } else if a == "--height"@ || a == "-h"@ {
            if let Ok(v) = parse_usize_spec(args[i + 1]) {
                lemma_visualize_scan_help(args, i + 2, vis_type, width, v as usize);
            }
        }
    }
    if 0 <= i < args.len() && args[i] == "--help"@ {
        assert(args[i] == "--help"@ || args[i] == "-h"@);
    }
}

/// Only a `--help` among the options asks for help.
pub proof fn lemma_visualize_help_needs_flag(args: Seq<Seq<char>>)
    ensures
        visualize_spec(args) matches Ok(Parsed::Help) ==> crate::options::has_help_flag(args),
{
    lemma_visualize_scan_help(args, 0, "fitness-landscape"@, 60, 20);
}

/// What each option does where the reader meets it, long and short names
/// alike: `--type`/`-t` sets the type to the next argument; `--width`/`-w`
/// and `--height`/`-h` set the width and the height to the number that the
/// next argument spells, and fail when it spells none; `--help` asks for
/// help, whatever follows.
pub proof fn lemma_visualize_options(
    args: Seq<Seq<char>>,
    i: int,
    vis_type: Seq<char>,
    width: usize,
    height: usize,
)
    requires
        0 <= i,
        i + 1 < args.len(),
    ensures
        args[i] == "--type"@ || args[i] == "-t"@ ==> visualize_scan(args, i, vis_type, width, height)
            == visualize_scan(args, i + 2, args[i + 1], width, height),
        args[i] == "--width"@ || args[i] == "-w"@ ==> match parse_usize_spec(args[i + 1]) {
            Ok(v) => visualize_scan(args, i, vis_type, width, height) == visualize_scan(
                args,
                i + 2,
                vis_type,
                v as usize,
                height,
            ),
            Err(_) => visualize_scan(args, i, vis_type, width, height) is Err,
        },
        args[i] == "--height"@ || args[i] == "-h"@ ==> match parse_usize_spec(args[i + 1]) {
            Ok(v) => visualize_scan(args, i, vis_type, width, height) == visualize_scan(
                args,
                i + 2,
                vis_type,
                width,
                v as usize,
            ),
            Err(_) => visualize_scan(args, i, vis_type, width, height) is Err,
        },
        args[i] == "--help"@ ==> visualize_scan(args, i, vis_type, width, height) == Ok::<
            Parsed<VisualizeView>,
            Seq<char>,
        >(Parsed::Help),
{
    reveal_strlit("--type");
    assert("--type"@.len() == 6 && "--type"@[1] == '-');
    assert("--type"@[2] == 't');
    reveal_strlit("-t");
    assert("-t"@.len() == 2 && "-t"@[1] == 't');
    reveal_strlit("--width");
    assert("--width"@.len() == 7 && "--width"@[1] == '-');
    assert("--width"@[2] == 'w');
    reveal_strlit("-w");
    assert("-w"@.len() == 2 && "-w"@[1] == 'w');
    reveal_strlit("--height");
    assert("--height"@.len() == 8 && "--height"@[1] == '-');
    assert("--height"@[2] == 'h');
    reveal_strlit("-h");
    assert("-h"@.len() == 2 && "-h"@[1] == 'h');
    reveal_strlit("--help");
    assert("--help"@.len() == 6 && "--help"@[1] == '-');
    assert("--help"@[2] == 'h');
}

} // verus!
