//! The `evolve` subcommand: its options, the seeded generator, and the
//! evolution of ternary genomes.
use vstd::prelude::*;
use crate::num::{int_error_text, parse_u64, parse_u64_spec, parse_usize, parse_usize_spec};
use crate::options::{args_view, concat2, concat3, floats_view, is_option, FloatArg, FloatFacts};

verus! {

/// Options of the `evolve` subcommand. The mutation rate is kept as
/// written; it reads as an `f64` in `[0, 1]`.
pub struct EvolveCmd {
    pub generations: u64,
    pub population: usize,
    pub mutation_rate: String,
    pub seed: Option<u64>,
}

/// The spec-level counterpart of `EvolveCmd`.
pub struct EvolveView {
    pub generations: u64,
    pub population: usize,
    pub mutation_rate: Seq<char>,
    pub seed: Option<u64>,
}

impl View for EvolveCmd {
    type V = EvolveView;

    open spec fn view(&self) -> EvolveView {
        EvolveView {
            generations: self.generations,
            population: self.population,
            mutation_rate: self.mutation_rate@,
            seed: self.seed,
        }
    }
}

/// Whether a mutation rate with these facts is refused: it does not lie in
/// `[0, 1]` (a NaN lies nowhere).
pub open spec fn rate_refused(f: FloatFacts) -> bool {
    match f {
        FloatFacts::Parsed { in_unit, .. } => !in_unit,
        FloatFacts::Unparsable(_) => false,
    }
}

/// Reads the options from position `i` on; `floats[j]` tells how `args[j]`
/// reads as an `f64`; `refused` records whether the rate so far does not
/// lie in `[0, 1]`. `None` stands for a request for help.
pub open spec fn evolve_scan(
    args: Seq<Seq<char>>,
    floats: Seq<FloatFacts>,
    i: int,
    c: EvolveView,
    refused: bool,
) -> Result<Option<EvolveView>, Seq<char>>
    decreases args.len() - i,
{
    if i < 0 || i >= args.len() {
        if c.generations == 0 {
            Err("generations must be > 0"@)
        } else if c.population == 0 {
            Err("population must be > 0"@)
        } else if refused {
            Err("mutation-rate must be in [0, 1]"@)
        } else {
            Ok(Some(c))
        }
    } else {
        let a = args[i];
        if a == "--generations"@ || a == "-g"@ {
            if i + 1 >= args.len() {
                Err("--generations requires a value"@)
            } else {
                match parse_u64_spec(args[i + 1]) {
                    Ok(v) => evolve_scan(
                        args,
                        floats,
                        i + 2,
                        EvolveView { generations: v as u64, ..c },
                        refused,
                    ),
                    Err(e) => Err("invalid generations: "@ + int_error_text(e)),
                }
            }
        } else if a == "--population"@ || a == "-p"@ {
            if i + 1 >= args.len() {
                Err("--population requires a value"@)
            } else {
                match parse_usize_spec(args[i + 1]) {
                    Ok(v) => evolve_scan(
                        args,
                        floats,
                        i + 2,
                        EvolveView { population: v as usize, ..c },
                        refused,
                    ),
                    Err(e) => Err("invalid population: "@ + int_error_text(e)),
                }
            }
        } else if a == "--mutation-rate"@ || a == "-m"@ {
            if i + 1 >= args.len() {
                Err("--mutation-rate requires a value"@)
            } else {
                match floats[i + 1] {
                    FloatFacts::Unparsable(m) => Err("invalid mutation-rate: "@ + m),
                    FloatFacts::Parsed { .. } => evolve_scan(
                        args,
                        floats,
                        i + 2,
                        EvolveView { mutation_rate: args[i + 1], ..c },
                        rate_refused(floats[i + 1]),
                    ),
                }
            }
        } else if a == "--seed"@ || a == "-s"@ {
            if i + 1 >= args.len() {
                Err("--seed requires a value"@)
            } else {
                match parse_u64_spec(args[i + 1]) {
                    Ok(v) => evolve_scan(
                        args,
                        floats,
                        i + 2,
                        EvolveView { seed: Some(v as u64), ..c },
                        refused,
                    ),
                    Err(e) => Err("invalid seed: "@ + int_error_text(e)),
                }
            }
        } else if a == "--help"@ || a == "-h"@ {
            Ok(None)
        } else {
            Err("evolve: unknown option '"@ + a + "'"@)
        }
    }
}

/// The outcome of reading `args` as `evolve` options; the defaults are 1000
/// generations, a population of 100, the rate `0.02` and no seed.
pub open spec fn evolve_spec(args: Seq<Seq<char>>, floats: Seq<FloatFacts>) -> Result<
    Option<EvolveView>,
    Seq<char>,
> {
    evolve_scan(
        args,
        floats,
        0,
        EvolveView { generations: 1000, population: 100, mutation_rate: "0.02"@, seed: None },
        false,
    )
}

/// A parse outcome with its options and message as plain values.
pub open spec fn evolve_outcome_view(r: Result<Option<EvolveCmd>, String>) -> Result<Option<EvolveView>, Seq<char>> {
    match r {
        Ok(Some(c)) => Ok(Some(c@)),
        Ok(None) => Ok(None),
        Err(m) => Err(m@),
    }
}

impl EvolveCmd {
    /// Reads the options, `None` standing for a request for help;
    /// `floats[j]` tells how `args[j]` reads as an `f64`.
    pub fn parse_with_help(args: &[&String], floats: &[FloatArg]) -> (r: Result<
        Option<EvolveCmd>,
        String,
    >)
        requires
            floats@.len() == args@.len(),
        ensures
            evolve_outcome_view(r) == evolve_spec(args_view(args@), floats_view(floats@)),
    {
        let ghost av = args_view(args@);
        let ghost fv = floats_view(floats@);
        let mut generations: u64 = 1000;
        let mut population: usize = 100;
        let mut mutation_rate: String = "0.02".to_owned();
        let mut seed: Option<u64> = None;
        let mut refused: bool = false;
        let n: usize = args.len();
        let mut i: usize = 0;
        while i < n
            invariant
                n == args@.len(),
                n == floats@.len(),
                av == args_view(args@),
                fv == floats_view(floats@),
                av.len() == n,
                i <= n,
                evolve_spec(av, fv) == evolve_scan(
                    av,
                    fv,
                    i as int,
                    EvolveView {
                        generations,
                        population,
                        mutation_rate: mutation_rate@,
                        seed,
                    },
                    refused,
                ),
            decreases n - i,
        {
            let a: &str = args[i].as_str();
            assert(a@ == av[i as int]);
            if is_option(a, "--generations", "-g") {
                if i + 1 >= n {
                    return Err("--generations requires a value".to_owned());
                }
                let v: &str = args[i + 1].as_str();
                assert(v@ == av[i + 1]);
                match parse_u64(v) {
                    Ok(x) => {
                        generations = x;
                    },
                    Err(e) => {
                        let m = e.message();
                        return Err(concat2("invalid generations: ", m.as_str()));
                    },
                }
                i = i + 2;
            } else if is_option(a, "--population", "-p") {
                if i + 1 >= n {
                    return Err("--population requires a value".to_owned());
                }
                let v: &str = args[i + 1].as_str();
                assert(v@ == av[i + 1]);
                match parse_usize(v) {
                    Ok(x) => {
                        population = x;
                    },
                    Err(e) => {
                        let m = e.message();
                        return Err(concat2("invalid population: ", m.as_str()));
                    },
                }
                i = i + 2;
            } else if is_option(a, "--mutation-rate", "-m") {
                if i + 1 >= n {
                    return Err("--mutation-rate requires a value".to_owned());
                }
                let v: &str = args[i + 1].as_str();
                assert(v@ == av[i + 1]);
                assert(fv[i + 1] == floats@[i + 1]@);
                match &floats[i + 1] {
                    FloatArg::Unparsable(m) => {
                        return Err(concat2("invalid mutation-rate: ", m.as_str()));
                    },
                    FloatArg::Parsed { in_unit, .. } => {
                        mutation_rate = v.to_owned();
                        refused = !*in_unit;
                    },
                }
                i = i + 2;
            } else if is_option(a, "--seed", "-s") {
                if i + 1 >= n {
                    return Err("--seed requires a value".to_owned());
                }
                let v: &str = args[i + 1].as_str();
                assert(v@ == av[i + 1]);
                match parse_u64(v) {
                    Ok(x) => {
                        seed = Some(x);
                    },
                    Err(e) => {
                        let m = e.message();
                        return Err(concat2("invalid seed: ", m.as_str()));
                    },
                }
                i = i + 2;
            } else if is_option(a, "--help", "-h") {
                return Ok(None);
            } else {
                return Err(concat3("evolve: unknown option '", a, "'"));
            }
        }
        if generations == 0 {
            return Err("generations must be > 0".to_owned());
        }
        if population == 0 {
            return Err("population must be > 0".to_owned());
        }
        if refused {
            return Err("mutation-rate must be in [0, 1]".to_owned());
        }
        Ok(Some(EvolveCmd { generations, population, mutation_rate, seed }))
    }

    /// Reads the options of a command line that does not ask for help.
    pub fn parse(args: &[&String], floats: &[FloatArg]) -> (r: Result<EvolveCmd, String>)
        requires
            floats@.len() == args@.len(),
            !(evolve_spec(args_view(args@), floats_view(floats@)) matches Ok(None)),
        ensures
            match evolve_spec(args_view(args@), floats_view(floats@)) {
                Ok(Some(c)) => r matches Ok(x) && x@ == c,
                Ok(None) => false,
                Err(m) => r matches Err(e) && e@ == m,
            },
    {
        match Self::parse_with_help(args, floats) {
            Ok(Some(c)) => Ok(c),
            Ok(None) => Err(String::new()),
            Err(e) => Err(e),
        }
    }
}

/// The multiplier of the generator (Knuth's MMIX constants).
pub const LCG_MULTIPLIER: u64 = 6364136223846793005;

/// The increment of the generator.
pub const LCG_INCREMENT: u64 = 1442695040888963407;

/// One step of the linear congruential generator, modulo 2^64.
pub open spec fn lcg_next(s: u64) -> u64 {
    ((s as int * LCG_MULTIPLIER as int + LCG_INCREMENT as int) % 0x1_0000_0000_0000_0000int) as u64
}

/// A seeded linear congruential generator; each draw is its new state.
pub struct SimpleRng {
    pub state: u64,
}

impl SimpleRng {
    /// A generator started from `seed`; a seed of 0 starts from 1.
    pub fn new(seed: u64) -> (r: SimpleRng)
        ensures
            r.state == (if seed == 0 {
                1
            } else {
                seed
            }),
    {
        SimpleRng { state: if seed == 0 { 1 } else { seed } }
    }

    /// Advances the generator and returns its new state.
    pub fn next(&mut self) -> (r: u64)
        ensures
            r == lcg_next(old(self).state),
            final(self).state == r,
    {
        let m: u64 = self.state.wrapping_mul(LCG_MULTIPLIER);
        let r: u64 = m.wrapping_add(LCG_INCREMENT);
        proof {
            let big: int = 0x1_0000_0000_0000_0000int;
            let prod: int = self.state as int * LCG_MULTIPLIER as int;
            assert(m == prod % big);
            assert(r == (m + LCG_INCREMENT as int) % big);
            vstd::arithmetic::div_mod::lemma_add_mod_noop(prod, LCG_INCREMENT as int, big);
            vstd::arithmetic::div_mod::lemma_small_mod(LCG_INCREMENT as nat, big as nat);
            vstd::arithmetic::div_mod::lemma_mod_twice(prod, big);
            vstd::arithmetic::div_mod::lemma_add_mod_noop(m as int, LCG_INCREMENT as int, big);
            vstd::arithmetic::div_mod::lemma_small_mod(m as nat, big as nat);
        }
        self.state = r;
        r
    }
}

/// The number of genes in a genome.
pub const GENOME_LEN: usize = 32;

/// The low byte of `r` read as a signed byte, as `r as i8` gives it.
pub open spec fn signed_low_byte(r: u64) -> int {
    if r % 256 < 128 {
        (r % 256) as int
    } else {
        (r % 256) as int - 256
    }
}

/// The gene drawn from `r`: the signed low byte's remainder modulo 3 (never
/// negative), less one, so a gene is -1, 0 or +1.
pub open spec fn gene_of(r: u64) -> i8 {
    (signed_low_byte(r) % 3 - 1) as i8
}

/// The gene drawn from `r`.
pub fn gene_from_draw(r: u64) -> (g: i8)
    ensures
        g == gene_of(r),
        -1 <= g <= 1,
{
    let b: u64 = r % 256;
    let k: u64 = if b < 128 {
        b % 3
    } else {
        (b + 2) % 3
    };
    proof {
        if b >= 128 {
            assert((b as int - 256) % 3 == (b as int + 2) % 3);
        }
    }
    k as i8 - 1
}

/// The genome drawn from state `s`: `len` genes from consecutive draws;
/// with the state afterwards.
pub open spec fn draw_genome(s: u64, len: nat) -> (u64, Seq<i8>)
    decreases len,
{
    if len == 0 {
        (s, Seq::empty())
    } else {
        let (s1, g) = draw_genome(s, (len - 1) as nat);
        let r = lcg_next(s1);
        (r, g.push(gene_of(r)))
    }
}

/// `count` genomes of `len` genes drawn in turn from state `s`.
pub open spec fn draw_population(s: u64, count: nat, len: nat) -> (u64, Seq<Seq<i8>>)
    decreases count,
{
    if count == 0 {
        (s, Seq::empty())
    } else {
        let (s1, p) = draw_population(s, (count - 1) as nat, len);
        let (s2, g) = draw_genome(s1, len);
        (s2, p.push(g))
    }
}

/// The magnitude of a gene.
pub open spec fn magnitude(g: i8) -> int {
    if g < 0 {
        -g
    } else {
        g as int
    }
}

/// The fitness of a genome: the sum of its genes' magnitudes, which
/// favours decisive genes (±1) over neutral ones (0).
pub open spec fn fitness(g: Seq<i8>) -> int
    decreases g.len(),
{
    if g.len() == 0 {
        0
    } else {
        fitness(g.drop_last()) + magnitude(g.last())
    }
}

/// The fitness of each genome.
pub open spec fn fitnesses(pop: Seq<Seq<i8>>) -> Seq<int> {
    pop.map_values(|g: Seq<i8>| fitness(g))
}

/// The greatest of `fs`, and 0 for none (fitness is never negative).
pub open spec fn max_of(fs: Seq<int>) -> int
    decreases fs.len(),
{
    if fs.len() == 0 {
        0
    } else {
        let m = max_of(fs.drop_last());
        if fs.last() > m {
            fs.last()
        } else {
            m
        }
    }
}

/// A child copied from `parent`, gene by gene: each gene mutates when the
/// draw for it is below `threshold`, and then takes the gene of a further
/// draw; with the state afterwards.
pub open spec fn mutate(s: u64, parent: Seq<i8>, threshold: u64) -> (u64, Seq<i8>)
    decreases parent.len(),
{
    if parent.len() == 0 {
        (s, Seq::empty())
    } else {
        let (s1, child) = mutate(s, parent.drop_last(), threshold);
        let r = lcg_next(s1);
        if r < threshold {
            let r2 = lcg_next(r);
            (r2, child.push(gene_of(r2)))
        } else {
            (r, child.push(parent.last()))
        }
    }
}

/// The parent chosen by a tournament between the genomes at `a` and `b`:
/// the fitter one, `a` on a tie.
pub open spec fn tournament(fits: Seq<int>, a: int, b: int) -> int {
    if fits[a] >= fits[b] {
        a
    } else {
        b
    }
}

/// `count` children bred from `pop` in turn: each picks two genomes by
/// draws modulo the population size, mutates the tournament winner.
pub open spec fn breed(s: u64, pop: Seq<Seq<i8>>, threshold: u64, count: nat) -> (u64, Seq<Seq<i8>>)
    decreases count,
{
    if count == 0 {
        (s, Seq::empty())
    } else {
        let (s1, kids) = breed(s, pop, threshold, (count - 1) as nat);
        let ra = lcg_next(s1);
        let rb = lcg_next(ra);
        let a = (ra as usize) as int % pop.len() as int;
        let b = (rb as usize) as int % pop.len() as int;
        let (s2, child) = mutate(rb, pop[tournament(fitnesses(pop), a, b)], threshold);
        (s2, kids.push(child))
    }
}

/// The genome has `len` genes, each -1, 0 or +1.
pub open spec fn ternary_genome(g: Seq<i8>, len: nat) -> bool {
    g.len() == len && forall|j: int| 0 <= j < len ==> -1 <= #[trigger] g[j] <= 1
}

/// Every genome has `len` genes, each -1, 0 or +1.
pub open spec fn ternary_genomes(pop: Seq<Seq<i8>>, len: nat) -> bool {
    forall|i: int| 0 <= i < pop.len() ==> #[trigger] ternary_genome(pop[i], len)
}

/// The progress shown after a generation: its number, and the best
/// fitness so far with the generation that first reached it.
#[derive(Debug, Clone, Copy, PartialEq, Eq, Structural)]
pub struct Snapshot {
    pub generation: u64,
    pub best_fitness: u64,
    pub best_generation: u64,
}

/// The state of an evolution after some generations.
pub struct EvolutionState {
    pub rng: u64,
    pub population: Seq<Seq<i8>>,
    pub best: int,
    pub best_gen: int,
    pub snapshots: Seq<Snapshot>,
}

/// The generator's first state: the seed, 42 when none is given, and 1 in
/// place of 0.
pub open spec fn start_state(seed: Option<u64>) -> u64 {
    let s = match seed {
        Some(x) => x,
        None => 42u64,
    };
    if s == 0 {
        1
    } else {
        s
    }
}

/// Progress is shown every `max(generations / 20, 1)` generations.
pub open spec fn report_interval(generations: u64) -> int {
    if generations / 20 > 1 {
        (generations / 20) as int
    } else {
        1
    }
}

/// Whether progress is shown after generation `g`: every interval, and
/// after the last one.
pub open spec fn is_report(g: int, generations: u64) -> bool {
    g % report_interval(generations) == 0 || g == generations
}

/// Generation `g` (counted from 1) of `generations`, applied to the state
/// `st` left by the generation before: find the best fitness of the
/// population; a fitness strictly better than any before records `g`;
/// show progress if due; then breed the next population of `pop_size`.
#[verifier::opaque]
pub open spec fn generation_step(
    generations: u64,
    pop_size: nat,
    threshold: u64,
    g: int,
    st: EvolutionState,
) -> EvolutionState {
    let bf = max_of(fitnesses(st.population));
    let best = if bf > st.best {
        bf
    } else {
        st.best
    };
    let best_gen = if bf > st.best {
        g
    } else {
        st.best_gen
    };
    let snapshots = if is_report(g, generations) {
        st.snapshots.push(
            Snapshot { generation: g as u64, best_fitness: best as u64, best_generation: best_gen as u64 },
        )
    } else {
        st.snapshots
    };
    let (s2, next) = breed(st.rng, st.population, threshold, pop_size);
    EvolutionState { rng: s2, population: next, best, best_gen, snapshots }
}

/// The evolution after `g` of `generations` generations of `pop_size`
/// genomes, started from a population drawn from the seed.
pub open spec fn evolution(
    generations: u64,
    pop_size: nat,
    threshold: u64,
    seed: Option<u64>,
    g: nat,
) -> EvolutionState
    decreases g,
{
    if g == 0 {
        let (s, pop) = draw_population(start_state(seed), pop_size, GENOME_LEN as nat);
        EvolutionState { rng: s, population: pop, best: 0, best_gen: 0, snapshots: Seq::empty() }
    } else {
        generation_step(
            generations,
            pop_size,
            threshold,
            g as int,
            evolution(generations, pop_size, threshold, seed, (g - 1) as nat),
        )
    }
}

/// The genes of each genome.
pub open spec fn genomes_view(p: Seq<Vec<i8>>) -> Seq<Seq<i8>> {
    p.map_values(|g: Vec<i8>| g@)
}

/// Fitness values as integers.
pub open spec fn fits_view(f: Seq<u64>) -> Seq<int> {
    f.map_values(|x: u64| x as int)
}

/// Draws a genome of `len` genes.
fn draw_genome_exec(rng: &mut SimpleRng, len: usize) -> (g: Vec<i8>)
    ensures
        (final(rng).state, g@) == draw_genome(old(rng).state, len as nat),
        ternary_genome(g@, len as nat),
{
    let mut g: Vec<i8> = Vec::new();
    let mut i: usize = 0;
    while i < len
        invariant
            i <= len,
            (rng.state, g@) == draw_genome(old(rng).state, i as nat),
            g@.len() == i,
            forall|j: int| 0 <= j < i ==> -1 <= #[trigger] g@[j] <= 1,
        decreases len - i,
    {
        let r = rng.next();
        g.push(gene_from_draw(r));
        i = i + 1;
    }
    g
}

/// Draws `count` genomes of `len` genes.
fn draw_population_exec(rng: &mut SimpleRng, count: usize, len: usize) -> (p: Vec<Vec<i8>>)
    ensures
        (final(rng).state, genomes_view(p@)) == draw_population(old(rng).state, count as nat, len as nat),
        genomes_view(p@).len() == count,
        ternary_genomes(genomes_view(p@), len as nat),
{
    let ghost s0 = rng.state;
    let mut p: Vec<Vec<i8>> = Vec::new();
    let mut i: usize = 0;
    while i < count
        invariant
            i <= count,
            (rng.state, genomes_view(p@)) == draw_population(s0, i as nat, len as nat),
            p@.len() == i,
            ternary_genomes(genomes_view(p@), len as nat),
        decreases count - i,
    {
        let ghost s1 = rng.state;
        let ghost before = genomes_view(p@);
        let g = draw_genome_exec(rng, len);
        assert(draw_genome(s1, len as nat) == (rng.state, g@));
        assert(draw_population(s0, (i + 1) as nat, len as nat) == (rng.state, before.push(g@)));
        p.push(g);
        assert(genomes_view(p@) =~= before.push(g@));
        assert(ternary_genome(g@, len as nat));
        assert forall|k: int| 0 <= k < genomes_view(p@).len() implies #[trigger] ternary_genome(
            genomes_view(p@)[k],
            len as nat,
        ) by {
            if k < before.len() {
                assert(genomes_view(p@)[k] == before[k]);
            }
        }
        i = i + 1;
    }
    p
}

/// The fitness of a genome: the sum of its genes' magnitudes. For a
/// genome of genes -1, 0 and +1 it is at most the genome's length.
pub fn genome_fitness(g: &Vec<i8>) -> (f: u128)
    ensures
        f == fitness(g@),
        f <= 128 * g@.len(),
        (forall|j: int| 0 <= j < g@.len() ==> -1 <= #[trigger] g@[j] <= 1) ==> f <= g@.len(),
{
    let mut sum: u128 = 0;
    let n: usize = g.len();
    let mut i: usize = 0;
    let ghost ternary = forall|j: int| 0 <= j < g@.len() ==> -1 <= #[trigger] g@[j] <= 1;
    assert(g@.take(0) =~= Seq::<i8>::empty());
    while i < n
        invariant
            n == g@.len(),
            i <= n,
            ternary == (forall|j: int| 0 <= j < g@.len() ==> -1 <= #[trigger] g@[j] <= 1),
            sum == fitness(g@.take(i as int)),
            sum <= 128 * i,
            ternary ==> sum <= i,
        decreases n - i,
    {
        let x: i8 = g[i];
        let m: u128 = if x < 0 {
            (0i16 - x as i16) as u128
        } else {
            x as u128
        };
        assert(g@.take(i as int + 1).drop_last() =~= g@.take(i as int));
        assert(m == magnitude(x));
        assert(ternary ==> m <= 1) by {
            if ternary {
                assert(-1 <= g@[i as int] <= 1);
            }
        }
        sum = sum + m;
        i = i + 1;
    }
    assert(g@.take(n as int) =~= g@);
    sum
}

/// The fitness of each genome of a population of ternary genomes.
fn fitnesses_exec(pop: &Vec<Vec<i8>>) -> (fits: Vec<u64>)
    requires
        ternary_genomes(genomes_view(pop@), GENOME_LEN as nat),
    ensures
        fits_view(fits@) == fitnesses(genomes_view(pop@)),
        fits@.len() == pop@.len(),
        forall|i: int| 0 <= i < fits@.len() ==> #[trigger] fits@[i] <= GENOME_LEN,
{
    let mut fits: Vec<u64> = Vec::new();
    let n: usize = pop.len();
    let mut i: usize = 0;
    while i < n
        invariant
            n == pop@.len(),
            i <= n,
            ternary_genomes(genomes_view(pop@), GENOME_LEN as nat),
            fits@.len() == i,
            forall|j: int| 0 <= j < i ==> #[trigger] fits@[j] == fitness(pop@[j]@),
            forall|j: int| 0 <= j < i ==> #[trigger] fits@[j] <= GENOME_LEN,
        decreases n - i,
    {
        assert(genomes_view(pop@)[i as int] == pop@[i as int]@);
        assert(ternary_genome(genomes_view(pop@)[i as int], GENOME_LEN as nat));
        let f = genome_fitness(&pop[i]);
        fits.push(f as u64);
        i = i + 1;
    }
    assert(fits_view(fits@) =~= fitnesses(genomes_view(pop@)));
    fits
}

/// The greatest fitness.
fn max_exec(fits: &Vec<u64>) -> (m: u64)
    ensures
        m == max_of(fits_view(fits@)),
        forall|i: int| 0 <= i < fits@.len() ==> fits@[i] <= m,
        fits@.len() > 0 ==> exists|i: int| 0 <= i < fits@.len() && fits@[i] == m,
{
    let mut m: u64 = 0;
    let n: usize = fits.len();
    let mut i: usize = 0;
    let ghost fv = fits_view(fits@);
    assert(fv.take(0) =~= Seq::<int>::empty());
    while i < n
        invariant
            n == fits@.len(),
            fv == fits_view(fits@),
            i <= n,
            m == max_of(fv.take(i as int)),
            forall|j: int| 0 <= j < i ==> fits@[j] <= m,
            i > 0 ==> exists|j: int| 0 <= j < i && fits@[j] == m,
            i == 0 ==> m == 0,
        decreases n - i,
    {
        assert(fv.take(i as int + 1).drop_last() =~= fv.take(i as int));
        if fits[i] > m {
            m = fits[i];
        } else if i == 0 {
            assert(fits@[0] == 0);
        }
        i = i + 1;
    }
    assert(fv.take(n as int) =~= fv);
    m
}

/// Copies `parent` into a child, mutating genes as `mutate` says.
fn mutate_exec(rng: &mut SimpleRng, parent: &Vec<i8>, threshold: u64) -> (child: Vec<i8>)
    requires
        forall|j: int| 0 <= j < parent@.len() ==> -1 <= #[trigger] parent@[j] <= 1,
    ensures
        (final(rng).state, child@) == mutate(old(rng).state, parent@, threshold),
        child@.len() == parent@.len(),
        forall|j: int| 0 <= j < child@.len() ==> -1 <= #[trigger] child@[j] <= 1,
{
    let mut child: Vec<i8> = Vec::new();
    let n: usize = parent.len();
    let mut i: usize = 0;
    assert(parent@.take(0) =~= Seq::<i8>::empty());
    while i < n
        invariant
            n == parent@.len(),
            i <= n,
            forall|j: int| 0 <= j < parent@.len() ==> -1 <= #[trigger] parent@[j] <= 1,
            (rng.state, child@) == mutate(old(rng).state, parent@.take(i as int), threshold),
            child@.len() == i,
            forall|j: int| 0 <= j < i ==> -1 <= #[trigger] child@[j] <= 1,
        decreases n - i,
    {
        let ghost pre = parent@.take(i as int + 1);
        assert(pre.drop_last() =~= parent@.take(i as int));
        assert(pre.last() == parent@[i as int]);
        let r = rng.next();
        if r < threshold {
            let r2 = rng.next();
            child.push(gene_from_draw(r2));
        } else {
            child.push(parent[i]);
        }
        i = i + 1;
    }
    assert(parent@.take(n as int) =~= parent@);
    child
}

/// Breeds `count` children from `pop`, whose fitnesses are `fits`.
fn breed_exec(
    rng: &mut SimpleRng,
    pop: &Vec<Vec<i8>>,
    fits: &Vec<u64>,
    threshold: u64,
    count: usize,
) -> (kids: Vec<Vec<i8>>)
    requires
        pop@.len() > 0,
        ternary_genomes(genomes_view(pop@), GENOME_LEN as nat),
        fits_view(fits@) == fitnesses(genomes_view(pop@)),
    ensures
        (final(rng).state, genomes_view(kids@)) == breed(old(rng).state, genomes_view(pop@), threshold, count as nat),
        genomes_view(kids@).len() == count,
        ternary_genomes(genomes_view(kids@), GENOME_LEN as nat),
{
    let ghost gv = genomes_view(pop@);
    let n: usize = pop.len();
    assert(fits_view(fits@).len() == fits@.len());
    let mut kids: Vec<Vec<i8>> = Vec::new();
    let mut i: usize = 0;
    while i < count
        invariant
            n == pop@.len(),
            n > 0,
            gv == genomes_view(pop@),
            ternary_genomes(gv, GENOME_LEN as nat),
            fits_view(fits@) == fitnesses(gv),
            fits@.len() == n,
            i <= count,
            (rng.state, genomes_view(kids@)) == breed(old(rng).state, gv, threshold, i as nat),
            kids@.len() == i,
            ternary_genomes(genomes_view(kids@), GENOME_LEN as nat),
        decreases count - i,
    {
        let ra = rng.next();
        let rb = rng.next();
        let a: usize = (ra as usize) % n;
        let b: usize = (rb as usize) % n;
        assert(fits_view(fits@)[a as int] == fits@[a as int] as int);
        assert(fits_view(fits@)[b as int] == fits@[b as int] as int);
        let parent: usize = if fits[a] >= fits[b] {
            a
        } else {
            b
        };
        assert(parent as int == tournament(fitnesses(gv), a as int, b as int));
        assert(gv[parent as int] == pop@[parent as int]@);
        assert(ternary_genome(gv[parent as int], GENOME_LEN as nat));
        let child = mutate_exec(rng, &pop[parent], threshold);
        let ghost before = genomes_view(kids@);
        kids.push(child);
        assert(genomes_view(kids@) =~= before.push(child@));
        assert(ternary_genome(child@, GENOME_LEN as nat));
        assert forall|k: int| 0 <= k < genomes_view(kids@).len() implies #[trigger] ternary_genome(
            genomes_view(kids@)[k],
            GENOME_LEN as nat,
        ) by {
            if k < before.len() {
                assert(genomes_view(kids@)[k] == before[k]);
            }
        }
        i = i + 1;
    }
    kids
}

/// Runs generation `gen` on the state held in `rng`, `pop`, `best`,
/// `best_gen` and `snapshots`, and returns the next population.
fn run_generation(
    rng: &mut SimpleRng,
    pop: &Vec<Vec<i8>>,
    best: &mut u64,
    best_gen: &mut u64,
    snapshots: &mut Vec<Snapshot>,
    gen: u64,
    generations: u64,
    interval: u64,
    threshold: u64,
) -> (next: Vec<Vec<i8>>)
    requires
        pop@.len() > 0,
        ternary_genomes(genomes_view(pop@), GENOME_LEN as nat),
        interval as int == report_interval(generations),
        *old(best) <= GENOME_LEN,
        *old(best) == 0 <==> *old(best_gen) == 0,
        *old(best_gen) < gen,
    ensures
        generation_step(
            generations,
            pop@.len() as nat,
            threshold,
            gen as int,
            EvolutionState {
                rng: old(rng).state,
                population: genomes_view(pop@),
                best: *old(best) as int,
                best_gen: *old(best_gen) as int,
                snapshots: old(snapshots)@,
            },
        ) == (EvolutionState {
            rng: final(rng).state,
            population: genomes_view(next@),
            best: *final(best) as int,
            best_gen: *final(best_gen) as int,
            snapshots: final(snapshots)@,
        }),
        next@.len() == pop@.len(),
        ternary_genomes(genomes_view(next@), GENOME_LEN as nat),
        *final(best) <= GENOME_LEN,
        *final(best) == 0 <==> *final(best_gen) == 0,
        *final(best_gen) <= gen,
{
    reveal(generation_step);
    let fits = fitnesses_exec(pop);
    let bf = max_exec(&fits);
    if bf > *best {
        *best = bf;
        *best_gen = gen;
    }
    if gen % interval == 0 || gen == generations {
        snapshots.push(Snapshot { generation: gen, best_fitness: *best, best_generation: *best_gen });
    }
    let next = breed_exec(rng, pop, &fits, threshold, pop.len());
    assert(genomes_view(next@).len() == next@.len());
    next
}

/// What a run of the evolution reports: the best fitness reached, the first
/// generation that reached it (0 when no genome ever scored above 0), and
/// the progress shown along the way.
pub struct EvolutionReport {
    pub best_fitness: u64,
    pub best_generation: u64,
    pub snapshots: Vec<Snapshot>,
}

/// Runs `generations` generations of `population` genomes of 32 genes.
/// A gene mutates when the draw for it is below `mutation_threshold`, which
/// the caller derives from the mutation rate: the draws `r` below it are
/// those with `r / u64::MAX < rate` in `f64` arithmetic.
pub fn simulate(generations: u64, population: usize, mutation_threshold: u64, seed: Option<u64>) -> (r: EvolutionReport)
    requires
        population > 0,
    ensures
        r.best_fitness == evolution(generations, population as nat, mutation_threshold, seed, generations as nat).best,
        r.best_generation == evolution(generations, population as nat, mutation_threshold, seed, generations as nat).best_gen,
        r.snapshots@ == evolution(generations, population as nat, mutation_threshold, seed, generations as nat).snapshots,
        r.best_fitness <= GENOME_LEN,
        r.best_generation <= generations,
        r.best_fitness == 0 <==> r.best_generation == 0,
{
    let ghost ps = population as nat;
    let mut rng = SimpleRng::new(
        match seed {
            Some(x) => x,
            None => 42,
        },
    );
    assert(start_state(seed) == rng.state);
    let mut pop = draw_population_exec(&mut rng, population, GENOME_LEN);
    assert(genomes_view(pop@).len() == pop@.len());
    let mut best: u64 = 0;
    let mut best_gen: u64 = 0;
    let mut snapshots: Vec<Snapshot> = Vec::new();
    let interval: u64 = if generations / 20 > 1 {
        generations / 20
    } else {
        1
    };
    let mut done: u64 = 0;
    while done < generations
        invariant
            done <= generations,
            population > 0,
            ps == population as nat,
            interval as int == report_interval(generations),
            pop@.len() == population,
            ternary_genomes(genomes_view(pop@), GENOME_LEN as nat),
            evolution(generations, ps, mutation_threshold, seed, done as nat) == (EvolutionState {
                rng: rng.state,
                population: genomes_view(pop@),
                best: best as int,
                best_gen: best_gen as int,
                snapshots: snapshots@,
            }),
            best <= GENOME_LEN,
            best_gen <= done,
            best == 0 <==> best_gen == 0,
        decreases generations - done,
    {
        let gen: u64 = done + 1;
        let ghost st = evolution(generations, ps, mutation_threshold, seed, done as nat);
        assert(pop@.len() as nat == ps);
        let next = run_generation(
            &mut rng,
            &pop,
            &mut best,
            &mut best_gen,
            &mut snapshots,
            gen,
            generations,
            interval,
            mutation_threshold,
        );
        assert(evolution(generations, ps, mutation_threshold, seed, gen as nat) == generation_step(
            generations,
            ps,
            mutation_threshold,
            gen as int,
            st,
        ));
        assert(generation_step(generations, ps, mutation_threshold, gen as int, st) == (EvolutionState {
            rng: rng.state,
            population: genomes_view(next@),
            best: best as int,
            best_gen: best_gen as int,
            snapshots: snapshots@,
        }));
        pop = next;
        done = gen;
    }
    EvolutionReport { best_fitness: best, best_generation: best_gen, snapshots }
}


proof fn lemma_evolve_scan_valid(
    args: Seq<Seq<char>>,
    floats: Seq<FloatFacts>,
    i: int,
    c: EvolveView,
    refused: bool,
)
    ensures
        evolve_scan(args, floats, i, c, refused) matches Ok(Some(d)) ==> d.generations > 0
            && d.population > 0,
    decreases args.len() - i,
{
    if 0 <= i < args.len() && i + 1 < args.len() {
        let a = args[i];
        if a == "--generations"@ || a == "-g"@ {
            if let Ok(v) = parse_u64_spec(args[i + 1]) {
                lemma_evolve_scan_valid(args, floats, i + 2, EvolveView { generations: v as u64, ..c }, refused);
            }
        } else if a == "--population"@ || a == "-p"@ {
            if let Ok(v) = parse_usize_spec(args[i + 1]) {
                lemma_evolve_scan_valid(args, floats, i + 2, EvolveView { population: v as usize, ..c }, refused);
            }
        } else if a == "--mutation-rate"@ || a == "-m"@ {
            lemma_evolve_scan_valid(
                args,
                floats,
                i + 2,
                EvolveView { mutation_rate: args[i + 1], ..c },
                rate_refused(floats[i + 1]),
            );
        } else if a == "--seed"@ || a == "-s"@ {
            if let Ok(v) = parse_u64_spec(args[i + 1]) {
                lemma_evolve_scan_valid(args, floats, i + 2, EvolveView { seed: Some(v as u64), ..c }, refused);
            }
        }
    }
}

/// Every accepted `evolve` command line asks for at least one generation
/// of at least one genome.
pub proof fn lemma_evolve_accepts_runnable(args: Seq<Seq<char>>, floats: Seq<FloatFacts>)
    ensures
        evolve_spec(args, floats) matches Ok(Some(c)) ==> c.generations > 0 && c.population > 0,
{
    lemma_evolve_scan_valid(
        args,
        floats,
        0,
        EvolveView { generations: 1000, population: 100, mutation_rate: "0.02"@, seed: None },
        false,
    );
}

/// A seed of 0 runs as a seed of 1, and no seed runs as the seed 42: the
/// whole evolution is the same.
pub proof fn lemma_seed_equivalence(generations: u64, pop_size: nat, threshold: u64, g: nat)
    ensures
        evolution(generations, pop_size, threshold, Some(0u64), g) == evolution(
            generations,
            pop_size,
            threshold,
            Some(1u64),
            g,
        ),
        evolution(generations, pop_size, threshold, None, g) == evolution(
            generations,
            pop_size,
            threshold,
            Some(42u64),
            g,
        ),
    decreases g,
{
    if g > 0 {
        lemma_seed_equivalence(generations, pop_size, threshold, (g - 1) as nat);
    }
}

/// The best fitness never falls from one generation to the next, and the
/// generation that reached it never lies ahead of the generations run.
pub proof fn lemma_best_monotone(
    generations: u64,
    pop_size: nat,
    threshold: u64,
    seed: Option<u64>,
    g: nat,
)
    ensures
        evolution(generations, pop_size, threshold, seed, g).best <= evolution(
            generations,
            pop_size,
            threshold,
            seed,
            g + 1,
        ).best,
        0 <= evolution(generations, pop_size, threshold, seed, g).best_gen <= g,
    decreases g,
{
    reveal(generation_step);
    if g > 0 {
        lemma_best_monotone(generations, pop_size, threshold, seed, (g - 1) as nat);
    }
}


proof fn lemma_evolve_scan_help(
    args: Seq<Seq<char>>,
    floats: Seq<FloatFacts>,
    i: int,
    c: EvolveView,
    refused: bool,
)
    requires
        0 <= i,
    ensures
        evolve_scan(args, floats, i, c, refused) matches Ok(None) ==> crate::options::has_help_flag(args),
    decreases args.len() - i,
{
    if i < args.len() && i + 1 < args.len() {
        let a = args[i];
        if a == "--generations"@ || a == "-g"@ {
            if let Ok(v) = parse_u64_spec(args[i + 1]) {
                lemma_evolve_scan_help(args, floats, i + 2, EvolveView { generations: v as u64, ..c }, refused);
            }
        } else if a == "--population"@ || a == "-p"@ {
            if let Ok(v) = parse_usize_spec(args[i + 1]) {
                lemma_evolve_scan_help(args, floats, i + 2, EvolveView { population: v as usize, ..c }, refused);
            }
        } else if a == "--mutation-rate"@ || a == "-m"@ {
            lemma_evolve_scan_help(
                args,
                floats,
                i + 2,
                EvolveView { mutation_rate: args[i + 1], ..c },
                rate_refused(floats[i + 1]),
            );
        } else if a == "--seed"@ || a == "-s"@ {
            if let Ok(v) = parse_u64_spec(args[i + 1]) {
                lemma_evolve_scan_help(args, floats, i + 2, EvolveView { seed: Some(v as u64), ..c }, refused);
            }
        }
    }
    if 0 <= i < args.len() && (args[i] == "--help"@ || args[i] == "-h"@) {
        assert(args[i] == "--help"@ || args[i] == "-h"@);
    }
}

/// Only a `--help` or `-h` among the options asks for help.
pub proof fn lemma_evolve_help_needs_flag(args: Seq<Seq<char>>, floats: Seq<FloatFacts>)
    ensures
        evolve_spec(args, floats) matches Ok(None) ==> crate::options::has_help_flag(args),
{
    lemma_evolve_scan_help(
        args,
        floats,
        0,
        EvolveView { generations: 1000, population: 100, mutation_rate: "0.02"@, seed: None },
        false,
    );
}


proof fn lemma_gene_range(r: u64)
    ensures
        -1 <= gene_of(r) <= 1,
{
    let v = signed_low_byte(r);
    assert(0 <= v % 3 < 3);
}

proof fn lemma_draw_genome_ternary(s: u64, len: nat)
    ensures
        ternary_genome(draw_genome(s, len).1, len),
    decreases len,
{
    if len > 0 {
        lemma_draw_genome_ternary(s, (len - 1) as nat);
        let (s1, g) = draw_genome(s, (len - 1) as nat);
        lemma_gene_range(lcg_next(s1));
        let h = g.push(gene_of(lcg_next(s1)));
        assert forall|j: int| 0 <= j < len implies -1 <= #[trigger] h[j] <= 1 by {
            if j < len - 1 {
                assert(h[j] == g[j]);
            }
        }
    }
}

proof fn lemma_draw_population_ternary(s: u64, count: nat, len: nat)
    ensures
        draw_population(s, count, len).1.len() == count,
        ternary_genomes(draw_population(s, count, len).1, len),
    decreases count,
{
    if count > 0 {
        lemma_draw_population_ternary(s, (count - 1) as nat, len);
        let (s1, p) = draw_population(s, (count - 1) as nat, len);
        lemma_draw_genome_ternary(s1, len);
        let q = p.push(draw_genome(s1, len).1);
        assert forall|i: int| 0 <= i < q.len() implies #[trigger] ternary_genome(q[i], len) by {
            if i < p.len() {
                assert(q[i] == p[i]);
            }
        }
    }
}

proof fn lemma_mutate_ternary(s: u64, parent: Seq<i8>, threshold: u64, len: nat)
    requires
        parent.len() <= len,
        forall|j: int| 0 <= j < parent.len() ==> -1 <= #[trigger] parent[j] <= 1,
    ensures
        mutate(s, parent, threshold).1.len() == parent.len(),
        forall|j: int| 0 <= j < parent.len() ==> -1 <= #[trigger] mutate(s, parent, threshold).1[j] <= 1,
    decreases parent.len(),
{
    if parent.len() > 0 {
        let d = parent.drop_last();
        assert forall|j: int| 0 <= j < d.len() implies -1 <= #[trigger] d[j] <= 1 by {
            assert(d[j] == parent[j]);
        }
        lemma_mutate_ternary(s, d, threshold, len);
        let (s1, child) = mutate(s, d, threshold);
        let r = lcg_next(s1);
        lemma_gene_range(lcg_next(r));
        assert(parent.last() == parent[parent.len() - 1]);
        let c = mutate(s, parent, threshold).1;
        assert forall|j: int| 0 <= j < parent.len() implies -1 <= #[trigger] c[j] <= 1 by {
            if j < parent.len() - 1 {
                assert(c[j] == child[j]);
            }
        }
    }
}

proof fn lemma_breed_ternary(s: u64, pop: Seq<Seq<i8>>, threshold: u64, count: nat)
    requires
        pop.len() > 0,
        ternary_genomes(pop, GENOME_LEN as nat),
    ensures
        breed(s, pop, threshold, count).1.len() == count,
        ternary_genomes(breed(s, pop, threshold, count).1, GENOME_LEN as nat),
    decreases count,
{
    if count > 0 {
        lemma_breed_ternary(s, pop, threshold, (count - 1) as nat);
        let (s1, kids) = breed(s, pop, threshold, (count - 1) as nat);
        let ra = lcg_next(s1);
        let rb = lcg_next(ra);
        let a = (ra as usize) as int % pop.len() as int;
        let b = (rb as usize) as int % pop.len() as int;
        let p = tournament(fitnesses(pop), a, b);
        assert(ternary_genome(pop[p], GENOME_LEN as nat));
        lemma_mutate_ternary(rb, pop[p], threshold, GENOME_LEN as nat);
        let q = kids.push(mutate(rb, pop[p], threshold).1);
        assert forall|i: int| 0 <= i < q.len() implies #[trigger] ternary_genome(q[i], GENOME_LEN as nat) by {
            if i < kids.len() {
                assert(q[i] == kids[i]);
            }
        }
    }
}

/// Fitness favours decisive genes: a genome of ternary genes scores
/// between 0 and its length, and scores its full length exactly when no
/// gene is 0.
pub proof fn lemma_fitness_range(g: Seq<i8>)
    requires
        forall|j: int| 0 <= j < g.len() ==> -1 <= #[trigger] g[j] <= 1,
    ensures
        0 <= fitness(g) <= g.len(),
        fitness(g) == g.len() <==> forall|j: int| 0 <= j < g.len() ==> #[trigger] g[j] != 0,
    decreases g.len(),
{
    if g.len() > 0 {
        let d = g.drop_last();
        assert forall|j: int| 0 <= j < d.len() implies -1 <= #[trigger] d[j] <= 1 by {
            assert(d[j] == g[j]);
        }
        lemma_fitness_range(d);
        assert(g.last() == g[g.len() - 1]);
        if fitness(g) == g.len() {
            assert forall|j: int| 0 <= j < g.len() implies #[trigger] g[j] != 0 by {
                if j < g.len() - 1 {
                    assert(g[j] == d[j]);
                }
            }
        }
        if forall|j: int| 0 <= j < g.len() ==> #[trigger] g[j] != 0 {
            assert forall|j: int| 0 <= j < d.len() implies #[trigger] d[j] != 0 by {
                assert(d[j] == g[j]);
            }
        }
    }
}

/// In every generation the population keeps its size, and every organism
/// has a genome of 32 ternary genes (-1, 0 or +1).
pub proof fn lemma_population_stays_ternary(
    generations: u64,
    pop_size: nat,
    threshold: u64,
    seed: Option<u64>,
    g: nat,
)
    requires
        pop_size > 0,
    ensures
        evolution(generations, pop_size, threshold, seed, g).population.len() == pop_size,
        ternary_genomes(evolution(generations, pop_size, threshold, seed, g).population, GENOME_LEN as nat),
    decreases g,
{
    reveal(generation_step);
    if g == 0 {
        lemma_draw_population_ternary(start_state(seed), pop_size, GENOME_LEN as nat);
    } else {
        lemma_population_stays_ternary(generations, pop_size, threshold, seed, (g - 1) as nat);
        let st = evolution(generations, pop_size, threshold, seed, (g - 1) as nat);
        lemma_breed_ternary(st.rng, st.population, threshold, pop_size);
    }
}

/// A tournament keeps the fitter of the two drawn genomes: the chosen
/// one is one of the two, its fitness is the larger of theirs, and on a tie
/// the first drawn wins.
pub proof fn lemma_tournament_keeps_fitter(fits: Seq<int>, a: int, b: int)
    requires
        0 <= a < fits.len(),
        0 <= b < fits.len(),
    ensures
        tournament(fits, a, b) == a || tournament(fits, a, b) == b,
        fits[tournament(fits, a, b)] >= fits[a],
        fits[tournament(fits, a, b)] >= fits[b],
        fits[a] == fits[b] ==> tournament(fits, a, b) == a,
{
}

/// The greatest of `fs` is at least each of them and at least 0, and it is
/// one of them when `fs` is not empty and none is negative.
pub proof fn lemma_max_of_is_greatest(fs: Seq<int>)
    ensures
        max_of(fs) >= 0,
        forall|i: int| 0 <= i < fs.len() ==> #[trigger] fs[i] <= max_of(fs),
        fs.len() > 0 && (forall|i: int| 0 <= i < fs.len() ==> #[trigger] fs[i] >= 0) ==> exists|
            i: int,
        | 0 <= i < fs.len() && fs[i] == max_of(fs),
    decreases fs.len(),
{
    if fs.len() > 0 {
        let d = fs.drop_last();
        lemma_max_of_is_greatest(d);
        assert forall|i: int| 0 <= i < fs.len() implies #[trigger] fs[i] <= max_of(fs) by {
            if i < fs.len() - 1 {
                assert(fs[i] == d[i]);
            }
        }
        if forall|i: int| 0 <= i < fs.len() ==> #[trigger] fs[i] >= 0 {
            if fs.last() > max_of(d) {
                assert(fs[fs.len() - 1] == max_of(fs));
            } else if d.len() > 0 {
                assert forall|i: int| 0 <= i < d.len() implies #[trigger] d[i] >= 0 by {
                    assert(d[i] == fs[i]);
                }
                let i = choose|i: int| 0 <= i < d.len() && d[i] == max_of(d);
                assert(fs[i] == max_of(fs));
            } else {
                assert(fs.last() >= 0);
                assert(fs[0] == max_of(fs));
            }
        }
    }
}

/// The highest fitness in the population that generation `g` (counted from
/// 1) evaluates: the one left by the generation before.
pub open spec fn generation_max(
    generations: u64,
    pop_size: nat,
    threshold: u64,
    seed: Option<u64>,
    g: int,
) -> int {
    max_of(fitnesses(evolution(generations, pop_size, threshold, seed, (g - 1) as nat).population))
}

/// After `n` generations, the best fitness is the highest fitness any of
/// them evaluated (0 when none scored above 0), and the best generation is
/// the first one that reached it: no earlier generation did. The best
/// generation is 0 exactly when the best fitness is 0.
pub proof fn lemma_best_is_first_reached(
    generations: u64,
    pop_size: nat,
    threshold: u64,
    seed: Option<u64>,
    n: nat,
)
    ensures
        ({
            let st = evolution(generations, pop_size, threshold, seed, n);
            &&& st.best >= 0
            &&& forall|g: int|
                1 <= g <= n ==> #[trigger] generation_max(generations, pop_size, threshold, seed, g)
                    <= st.best
            &&& (st.best_gen == 0 <==> st.best == 0)
            &&& st.best_gen > 0 ==> {
                &&& 1 <= st.best_gen <= n
                &&& generation_max(generations, pop_size, threshold, seed, st.best_gen) == st.best
                &&& forall|g: int|
                    1 <= g < st.best_gen ==> #[trigger] generation_max(
                        generations,
                        pop_size,
                        threshold,
                        seed,
                        g,
                    ) < st.best
            }
        }),
    decreases n,
{
    reveal(generation_step);
    if n > 0 {
        lemma_best_is_first_reached(generations, pop_size, threshold, seed, (n - 1) as nat);
        let prev = evolution(generations, pop_size, threshold, seed, (n - 1) as nat);
        let st = evolution(generations, pop_size, threshold, seed, n);
        let bf = generation_max(generations, pop_size, threshold, seed, n as int);
        assert(bf == max_of(fitnesses(prev.population)));
        assert(st == generation_step(generations, pop_size, threshold, n as int, prev));
        if bf > prev.best {
            assert(st.best == bf && st.best_gen == n);
            assert forall|g: int| 1 <= g < st.best_gen implies #[trigger] generation_max(
                generations,
                pop_size,
                threshold,
                seed,
                g,
            ) < st.best by {
                assert(generation_max(generations, pop_size, threshold, seed, g) <= prev.best);
            }
        } else {
            assert(st.best == prev.best && st.best_gen == prev.best_gen);
        }
        assert forall|g: int| 1 <= g <= n implies #[trigger] generation_max(
            generations,
            pop_size,
            threshold,
            seed,
            g,
        ) <= st.best by {
            if g < n {
                assert(generation_max(generations, pop_size, threshold, seed, g) <= prev.best);
            }
        }
    }
}

/// What each option does where the reader meets it, long and short names
/// alike: `--generations`/`-g`, `--population`/`-p` and `--seed`/`-s` set
/// their value to the number that the next argument spells, and fail when it
/// spells none; `--mutation-rate`/`-m` keeps the next argument as the rate
/// when it reads as a number, refusing it at the end unless it lies in
/// `[0, 1]`, and fails when it does not read; `--help`/`-h` asks for help,
/// whatever follows.
pub proof fn lemma_evolve_options(
    args: Seq<Seq<char>>,
    floats: Seq<FloatFacts>,
    i: int,
    c: EvolveView,
    refused: bool,
)
    requires
        0 <= i,
        i + 1 < args.len(),
        floats.len() == args.len(),
    ensures
        args[i] == "--generations"@ || args[i] == "-g"@ ==> match parse_u64_spec(args[i + 1]) {
            Ok(v) => evolve_scan(args, floats, i, c, refused) == evolve_scan(
                args,
                floats,
                i + 2,
                EvolveView { generations: v as u64, ..c },
                refused,
            ),
            Err(_) => evolve_scan(args, floats, i, c, refused) is Err,
        },
        args[i] == "--population"@ || args[i] == "-p"@ ==> match parse_usize_spec(args[i + 1]) {
            Ok(v) => evolve_scan(args, floats, i, c, refused) == evolve_scan(
                args,
                floats,
                i + 2,
                EvolveView { population: v as usize, ..c },
                refused,
            ),
            Err(_) => evolve_scan(args, floats, i, c, refused) is Err,
        },
        args[i] == "--seed"@ || args[i] == "-s"@ ==> match parse_u64_spec(args[i + 1]) {
            Ok(v) => evolve_scan(args, floats, i, c, refused) == evolve_scan(
                args,
                floats,
                i + 2,
                EvolveView { seed: Some(v as u64), ..c },
                refused,
            ),
            Err(_) => evolve_scan(args, floats, i, c, refused) is Err,
        },
        args[i] == "--mutation-rate"@ || args[i] == "-m"@ ==> match floats[i + 1] {
            FloatFacts::Parsed { in_unit, .. } => evolve_scan(args, floats, i, c, refused)
                == evolve_scan(
                args,
                floats,
                i + 2,
                EvolveView { mutation_rate: args[i + 1], ..c },
                !in_unit,
            ),
            FloatFacts::Unparsable(_) => evolve_scan(args, floats, i, c, refused) is Err,
        },
        args[i] == "--help"@ || args[i] == "-h"@ ==> evolve_scan(args, floats, i, c, refused)
            == Ok::<Option<EvolveView>, Seq<char>>(None),
{
    reveal_strlit("--generations");
    assert("--generations"@.len() == 13 && "--generations"@[1] == '-');
    assert("--generations"@[2] == 'g');
    reveal_strlit("-g");
    assert("-g"@.len() == 2 && "-g"@[1] == 'g');
    reveal_strlit("--population");
    assert("--population"@.len() == 12 && "--population"@[1] == '-');
    assert("--population"@[2] == 'p');
    reveal_strlit("-p");
    assert("-p"@.len() == 2 && "-p"@[1] == 'p');
    reveal_strlit("--mutation-rate");
    assert("--mutation-rate"@.len() == 15 && "--mutation-rate"@[1] == '-');
    assert("--mutation-rate"@[2] == 'm');
    reveal_strlit("-m");
    assert("-m"@.len() == 2 && "-m"@[1] == 'm');
    reveal_strlit("--seed");
    assert("--seed"@.len() == 6 && "--seed"@[1] == '-');
    assert("--seed"@[2] == 's');
    reveal_strlit("-s");
    assert("-s"@.len() == 2 && "-s"@[1] == 's');
    reveal_strlit("--help");
    assert("--help"@.len() == 6 && "--help"@[1] == '-');
    assert("--help"@[2] == 'h');
    reveal_strlit("-h");
    assert("-h"@.len() == 2 && "-h"@[1] == 'h');
}

/// With a threshold of 0 no gene mutates: the child is a copy of its
/// parent, and one draw is spent per gene.
pub proof fn lemma_zero_threshold_copies(s: u64, parent: Seq<i8>)
    ensures
        mutate(s, parent, 0).1 == parent,
    decreases parent.len(),
{
    if parent.len() > 0 {
        lemma_zero_threshold_copies(s, parent.drop_last());
        assert(parent.drop_last().push(parent.last()) =~= parent);
    }
}

/// The progress shown after the last generation is always there, and it
/// reads the final best fitness and the generation that first reached it.
pub proof fn lemma_last_snapshot_reports_the_result(
    generations: u64,
    pop_size: nat,
    threshold: u64,
    seed: Option<u64>,
)
    requires
        generations > 0,
    ensures
        ({
            let st = evolution(generations, pop_size, threshold, seed, generations as nat);
            &&& st.snapshots.len() > 0
            &&& st.snapshots.last() == Snapshot {
                generation: generations,
                best_fitness: st.best as u64,
                best_generation: st.best_gen as u64,
            }
        }),
{
    reveal(generation_step);
    let prev = evolution(generations, pop_size, threshold, seed, (generations - 1) as nat);
    assert(evolution(generations, pop_size, threshold, seed, generations as nat) == generation_step(
        generations,
        pop_size,
        threshold,
        generations as int,
        prev,
    ));
    assert(is_report(generations as int, generations));
}

} // verus!
