//! Resource shapes and where they come from: the divisors of the per-node
//! core count, or `nodes,ranks,threads` arguments.

use vstd::prelude::*;
use crate::number::{
    decimal, lemma_decimal_denotes, lemma_parse_decimal, parse_spec, parse_usize, to_decimal,
};
use crate::text::{join_spec, lemma_join_then_split, pieces_free_of, split, split_spec};

verus! {

/// Cores of one node, which ranks times threads must fill.
pub const CORES_PER_NODE: usize = 24;

/// The divisors of [`CORES_PER_NODE`], ascending.
pub const DIVISORS: [usize; 8] = [1, 2, 3, 4, 6, 8, 12, 24];

/// One resource shape of a job: how many nodes, how many ranks on each node,
/// and how many threads each rank runs.
#[derive(Clone, Copy, Debug, PartialEq, Eq, Structural)]
pub struct Combo {
    pub nodes: usize,
    pub ranks: usize,
    pub threads: usize,
}

/// Why arguments could not be read as shapes.
#[derive(Clone, Copy, Debug, PartialEq, Eq, Structural)]
pub enum ParseError {
    /// One of the first three pieces of an argument is no `usize`.
    InvalidNumber,
    /// An argument has fewer or more than three pieces.
    SegmentCount,
    /// There is no argument at all.
    NoArguments,
}

/// The first three pieces, as far as there are that many, are all numbers.
pub open spec fn leading_numbers(pieces: Seq<Seq<char>>) -> bool {
    forall|k: int| 0 <= k < pieces.len() && k < 3 ==> (#[trigger] parse_spec(pieces[k])) is Some
}

/// What one argument means. Its pieces are read from the left: a piece among
/// the first three that is no number is reported before a wrong count is.
pub open spec fn parse_arg_spec(arg: Seq<char>) -> Result<Combo, ParseError> {
    let pieces = split_spec(arg, ',');
    if !leading_numbers(pieces) {
        Err(ParseError::InvalidNumber)
    } else if pieces.len() != 3 {
        Err(ParseError::SegmentCount)
    } else {
        Ok(
            Combo {
                nodes: parse_spec(pieces[0])->0,
                ranks: parse_spec(pieces[1])->0,
                threads: parse_spec(pieces[2])->0,
            },
        )
    }
}

/// The argument that spells `combo`.
pub open spec fn arg_of(combo: Combo) -> Seq<char> {
    decimal(combo.nodes as nat) + seq![','] + decimal(combo.ranks as nat) + seq![','] + decimal(
        combo.threads as nat,
    )
}

/// A shape written as an argument reads back as itself.
pub proof fn lemma_parse_arg_of(combo: Combo)
    ensures
        parse_arg_spec(arg_of(combo)) == Ok::<Combo, ParseError>(combo),
{
    let nodes = decimal(combo.nodes as nat);
    let ranks = decimal(combo.ranks as nat);
    let threads = decimal(combo.threads as nat);
    let pieces = seq![nodes, ranks, threads];
    lemma_decimal_denotes(combo.nodes as nat);
    lemma_decimal_denotes(combo.ranks as nat);
    lemma_decimal_denotes(combo.threads as nat);
    lemma_parse_decimal(combo.nodes);
    lemma_parse_decimal(combo.ranks);
    lemma_parse_decimal(combo.threads);
    lemma_join_then_split(pieces, ',');
    reveal_with_fuel(join_spec, 3);
    assert(join_spec(pieces, ',') == arg_of(combo));
}

/// What a list of arguments means, whether or not there is one: the shapes
/// of all of them in order, or the error of the first that has one.
pub open spec fn parse_each(args: Seq<Seq<char>>) -> Result<Seq<Combo>, ParseError>
    decreases args.len(),
{
    if args.len() == 0 {
        Ok(Seq::empty())
    } else {
        match parse_each(args.drop_last()) {
            Err(error) => Err(error),
            Ok(combos) => match parse_arg_spec(args.last()) {
                Err(error) => Err(error),
                Ok(combo) => Ok(combos.push(combo)),
            },
        }
    }
}

/// What the arguments of a call mean: there must be one at least.
pub open spec fn parse_args_spec(args: Seq<Seq<char>>) -> Result<Seq<Combo>, ParseError> {
    if args.len() == 0 {
        Err(ParseError::NoArguments)
    } else {
        parse_each(args)
    }
}

/// A result with its shapes as a sequence.
pub open spec fn outcome(result: Result<Vec<Combo>, ParseError>) -> Result<
    Seq<Combo>,
    ParseError,
> {
    match result {
        Ok(combos) => Ok(combos@),
        Err(error) => Err(error),
    }
}

/// An error among the first arguments is the error of the whole list.
pub proof fn lemma_parse_each_prefix(args: Seq<Seq<char>>, k: int)
    requires
        0 <= k <= args.len(),
        parse_each(args.take(k)) is Err,
    ensures
        parse_each(args) == parse_each(args.take(k)),
    decreases args.len() - k,
{
    if k == args.len() {
        assert(args.take(k) == args);
    } else {
        assert(args.take(k + 1).drop_last() == args.take(k));
        lemma_parse_each_prefix(args, k + 1);
    }
}

/// Arguments that can all be read give one shape each, in their order.
pub proof fn lemma_parse_each_ok(args: Seq<Seq<char>>)
    ensures
        parse_each(args) is Ok <==> forall|k: int|
            0 <= k < args.len() ==> (#[trigger] parse_arg_spec(args[k])) is Ok,
        parse_each(args) matches Ok(combos) ==> combos.len() == args.len() && forall|k: int|
            0 <= k < args.len() ==> parse_arg_spec(args[k]) == Ok::<Combo, ParseError>(
                #[trigger] combos[k],
            ),
    decreases args.len(),
{
    if args.len() > 0 {
        let front = args.drop_last();
        lemma_parse_each_ok(front);
        assert forall|k: int| 0 <= k < front.len() implies front[k] == args[k] by {}
    }
}

/// Where an argument cannot be read, the error is that of the first such
/// argument.
pub proof fn lemma_parse_each_err(args: Seq<Seq<char>>, bad: int)
    requires
        0 <= bad < args.len(),
        parse_arg_spec(args[bad]) is Err,
        forall|k: int| 0 <= k < bad ==> (#[trigger] parse_arg_spec(args[k])) is Ok,
    ensures
        parse_each(args) == Err::<Seq<Combo>, ParseError>(parse_arg_spec(args[bad])->Err_0),
{
    let front = args.take(bad);
    lemma_parse_each_ok(front);
    assert(args.take(bad + 1).drop_last() == front);
    lemma_parse_each_prefix(args, bad + 1);
}

/// The shape for one divisor of the core count, on a single node.
pub open spec fn single_node_combo(divisor: usize) -> Combo {
    Combo { nodes: 1, ranks: divisor, threads: (CORES_PER_NODE / divisor) as usize }
}

/// The shapes of the single-node enumeration: one for each listed divisor.
pub open spec fn single_node_combos() -> Seq<Combo> {
    Seq::new(DIVISORS@.len(), |k: int| single_node_combo(DIVISORS@[k]))
}

/// `d` divides `n`.
pub open spec fn divides(d: int, n: int) -> bool {
    d > 0 && n % d == 0
}

/// [`DIVISORS`] holds every divisor of [`CORES_PER_NODE`], and nothing else,
/// in ascending order.
pub proof fn lemma_divisors_exact()
    ensures
        forall|d: int| #[trigger] divides(d, CORES_PER_NODE as int) <==> exists|k: int|
            0 <= k < DIVISORS@.len() && #[trigger] DIVISORS@[k] == d,
        forall|j: int, k: int| 0 <= j < k < DIVISORS@.len() ==> DIVISORS@[j] < DIVISORS@[k],
{
    let list = DIVISORS@;
    assert(list =~= seq![1usize, 2, 3, 4, 6, 8, 12, 24]);
    assert forall|d: int| #[trigger] divides(d, CORES_PER_NODE as int) implies exists|k: int|
        0 <= k < list.len() && #[trigger] list[k] == d by {
        assert(1 <= d <= 24) by (nonlinear_arith)
            requires
                d > 0,
                24int % d == 0,
        ;
        if d == 5 || d == 7 || (9 <= d <= 11) {
            assert(24int % 5 == 4 && 24int % 7 == 3 && 24int % 9 == 6);
            assert(24int % 10 == 4 && 24int % 11 == 2);
        } else if 13 <= d <= 23 {
            assert(24int % d == 24 - d) by (nonlinear_arith)
                requires
                    13 <= d <= 23,
            ;
        }
    }
    assert forall|d: int|
        (exists|k: int| 0 <= k < list.len() && #[trigger] list[k] == d) implies #[trigger] divides(
        d,
        CORES_PER_NODE as int,
    ) by {
        let k = choose|k: int| 0 <= k < list.len() && #[trigger] list[k] == d;
        assert(k == 0 || k == 1 || k == 2 || k == 3 || k == 4 || k == 5 || k == 6 || k == 7);
    }
}

/// Every shape made from a listed divisor fills a node exactly.
pub proof fn lemma_single_node_fills(k: int)
    requires
        0 <= k < DIVISORS@.len(),
    ensures
        DIVISORS@[k] > 0,
        single_node_combo(DIVISORS@[k]).ranks == DIVISORS@[k],
        single_node_combo(DIVISORS@[k]).ranks * single_node_combo(DIVISORS@[k]).threads
            == CORES_PER_NODE,
{
    assert(DIVISORS@ =~= seq![1usize, 2, 3, 4, 6, 8, 12, 24]);
    assert(k == 0 || k == 1 || k == 2 || k == 3 || k == 4 || k == 5 || k == 6 || k == 7);
}

impl Combo {
    /// The shape with the given fields.
    pub fn new(nodes: usize, ranks: usize, threads: usize) -> (combo: Combo)
        ensures
            combo == (Combo { nodes, ranks, threads }),
    {
        Combo { nodes, ranks, threads }
    }

    /// One shape per divisor of the core count, in the order of [`DIVISORS`],
    /// each on one node and each filling the node exactly.
    pub fn gen_combos_single_node() -> (combos: Vec<Combo>)
        ensures
            combos@ == single_node_combos(),
            forall|k: int|
                0 <= k < combos@.len() ==> (#[trigger] combos@[k]).ranks * combos@[k].threads
                    == CORES_PER_NODE,
    {
        let mut combos: Vec<Combo> = Vec::new();
        let mut i: usize = 0;
        while i < DIVISORS.len()
            invariant
                i <= DIVISORS@.len(),
                combos@.len() == i,
                forall|k: int|
                    0 <= k < i ==> #[trigger] combos@[k] == single_node_combo(DIVISORS@[k]),
                forall|k: int|
                    0 <= k < i ==> (#[trigger] combos@[k]).ranks * combos@[k].threads
                        == CORES_PER_NODE,
            decreases DIVISORS@.len() - i,
        {
            proof {
                lemma_single_node_fills(i as int);
            }
            let d = DIVISORS[i];
            combos.push(Combo::new(1, d, CORES_PER_NODE / d));
            i += 1;
        }
        combos
    }

    /// Reads one argument of the form `nodes,ranks,threads`.
    pub fn parse_arg(arg: &str) -> (result: Result<Combo, ParseError>)
        ensures
            result == parse_arg_spec(arg@),
    {
        let pieces = split(arg, ',');
        let mut nodes: usize = 0;
        let mut ranks: usize = 0;
        let mut threads: usize = 0;
        let mut i: usize = 0;
        while i < pieces.len()
            invariant
                pieces.deep_view() == split_spec(arg@, ','),
                i <= pieces@.len(),
                i <= 3,
                forall|k: int| 0 <= k < i ==> (#[trigger] parse_spec(pieces.deep_view()[k])) is Some,
                i > 0 ==> nodes == parse_spec(pieces.deep_view()[0])->0,
                i > 1 ==> ranks == parse_spec(pieces.deep_view()[1])->0,
                i > 2 ==> threads == parse_spec(pieces.deep_view()[2])->0,
            decreases pieces@.len() - i,
        {
            if i >= 3 {
                return Err(ParseError::SegmentCount);
            }
            match parse_usize(pieces[i]) {
                Some(value) => {
                    if i == 0 {
                        nodes = value;
                    } else if i == 1 {
                        ranks = value;
                    } else {
                        threads = value;
                    }
                },
                None => {
                    return Err(ParseError::InvalidNumber);
                },
            }
            i += 1;
        }
        if i != 3 {
            return Err(ParseError::SegmentCount);
        }
        Ok(Combo::new(nodes, ranks, threads))
    }

    /// Reads every argument as a shape, keeping their order and any repeats.
    ///
    /// Fails on an empty list, and else with the error of the first argument
    /// that cannot be read.
    pub fn gen_from_args(args: &Vec<String>) -> (result: Result<Vec<Combo>, ParseError>)
        ensures
            outcome(result) == parse_args_spec(args.deep_view()),
    {
        if args.len() == 0 {
            return Err(ParseError::NoArguments);
        }
        let ghost texts = args.deep_view();
        let mut combos: Vec<Combo> = Vec::new();
        let mut i: usize = 0;
        while i < args.len()
            invariant
                i <= args@.len(),
                texts == args.deep_view(),
                parse_each(texts.take(i as int)) == Ok::<Seq<Combo>, ParseError>(combos@),
            decreases args@.len() - i,
        {
            proof {
                assert(texts.take(i + 1).drop_last() == texts.take(i as int));
            }
            match Combo::parse_arg(args[i].as_str()) {
                Ok(combo) => {
                    combos.push(combo);
                },
                Err(error) => {
                    proof {
                        lemma_parse_each_prefix(texts, i + 1);
                    }
                    return Err(error);
                },
            }
            i += 1;
        }
        assert(texts.take(i as int) == texts);
        Ok(combos)
    }

    /// The three fields in decimal, in the order nodes, ranks, threads.
    pub fn stringify(&self) -> (texts: (String, String, String))
        ensures
            texts.0@ == decimal(self.nodes as nat),
            texts.1@ == decimal(self.ranks as nat),
            texts.2@ == decimal(self.threads as nat),
    {
        (to_decimal(self.nodes), to_decimal(self.ranks), to_decimal(self.threads))
    }
}

} // verus!
