//! Where a generated script is stored, and with which permissions.

use vstd::prelude::*;
use vstd::string::*;
use crate::combo::Combo;
use crate::number::{all_digits, decimal, is_digit, lemma_decimal_denotes, to_decimal};

verus! {

/// Mode of a stored script: the owner reads, writes and runs it, everyone
/// else reads it.
pub const PERMISSIONS: u32 = 0o744;

/// The file name for a shape given by ranks and threads alone.
pub open spec fn script_name_ranks_threads(combo: Combo) -> Seq<char> {
    "run_"@ + decimal(combo.ranks as nat) + "ranks_"@ + decimal(combo.threads as nat)
        + "threads.sh"@
}

/// The file name for a shape.
pub open spec fn script_name(combo: Combo) -> Seq<char> {
    "run_"@ + decimal(combo.nodes as nat) + "nodes_"@ + decimal(combo.ranks as nat) + "ranks_"@
        + decimal(combo.threads as nat) + "threads.sh"@
}

/// A text that starts with a run of digits, followed by something that is no
/// digit, can be cut into the two in one way only.
proof fn lemma_digit_run_unique(a: Seq<char>, x: Seq<char>, b: Seq<char>, y: Seq<char>)
    requires
        all_digits(a),
        all_digits(b),
        x.len() > 0 && !is_digit(x[0]),
        y.len() > 0 && !is_digit(y[0]),
        a + x == b + y,
    ensures
        a == b,
        x == y,
{
    assert(b == (b + y).take(b.len() as int));
    assert(x == (a + x).skip(a.len() as int));
    assert(y == (b + y).skip(b.len() as int));
}

/// After the same word, a number and what follows it can be told apart in
/// one way only.
proof fn lemma_word_number_unique(
    word: Seq<char>,
    a: nat,
    x: Seq<char>,
    b: nat,
    y: Seq<char>,
)
    requires
        x.len() > 0 && !is_digit(x[0]),
        y.len() > 0 && !is_digit(y[0]),
        word + (decimal(a) + x) == word + (decimal(b) + y),
    ensures
        a == b,
        x == y,
{
    let left = decimal(a) + x;
    let right = decimal(b) + y;
    assert(left == (word + left).skip(word.len() as int));
    assert(right == (word + right).skip(word.len() as int));
    lemma_decimal_denotes(a);
    lemma_decimal_denotes(b);
    lemma_digit_run_unique(decimal(a), x, decimal(b), y);
}

/// The words of a file name, none of which starts with a digit.
proof fn lemma_words()
    ensures
        "nodes_"@.len() > 0 && !is_digit("nodes_"@[0]),
        "ranks_"@.len() > 0 && !is_digit("ranks_"@[0]),
        "threads.sh"@.len() > 0 && !is_digit("threads.sh"@[0]),
{
    reveal_strlit("nodes_");
    reveal_strlit("ranks_");
    reveal_strlit("threads.sh");
}

/// A file name from `ranks_` on.
spec fn name_from_ranks(combo: Combo) -> Seq<char> {
    "ranks_"@ + (decimal(combo.threads as nat) + "threads.sh"@)
}

/// A file name from `nodes_` on.
spec fn name_from_nodes(combo: Combo) -> Seq<char> {
    "nodes_"@ + (decimal(combo.ranks as nat) + name_from_ranks(combo))
}

/// A file name is `run_`, the number of nodes, and the rest.
proof fn lemma_script_name_parts(combo: Combo)
    ensures
        script_name(combo) == "run_"@ + (decimal(combo.nodes as nat) + name_from_nodes(combo)),
{
}

/// Two shapes share a file name only if they are the same shape: the
/// script of one shape never replaces that of another.
pub proof fn lemma_script_name_injective(first: Combo, second: Combo)
    requires
        script_name(first) == script_name(second),
    ensures
        first == second,
{
    lemma_words();
    lemma_script_name_parts(first);
    lemma_script_name_parts(second);
    lemma_word_number_unique(
        "run_"@,
        first.nodes as nat,
        name_from_nodes(first),
        second.nodes as nat,
        name_from_nodes(second),
    );
    lemma_word_number_unique(
        "nodes_"@,
        first.ranks as nat,
        name_from_ranks(first),
        second.ranks as nat,
        name_from_ranks(second),
    );
    lemma_word_number_unique(
        "ranks_"@,
        first.threads as nat,
        "threads.sh"@,
        second.threads as nat,
        "threads.sh"@,
    );
}

/// The path of the script for `combo` in the directory `parent`:
/// `<parent>/run_<nodes>nodes_<ranks>ranks_<threads>threads.sh`.
pub fn script_path(parent: &str, combo: &Combo) -> (path: String)
    ensures
        path@ == parent@ + "/"@ + script_name(*combo),
{
    let (nodes, ranks, threads) = combo.stringify();
    let mut path = String::from_str(parent);
    path.append("/");
    path.append("run_");
    path.append(nodes.as_str());
    path.append("nodes_");
    path.append(ranks.as_str());
    path.append("ranks_");
    path.append(threads.as_str());
    path.append("threads.sh");
    path
}

/// The path of the script for `combo` where shapes are told apart by ranks
/// and threads alone: `<parent>/run_<ranks>ranks_<threads>threads.sh`.
pub fn script_path_ranks_threads(parent: &str, combo: &Combo) -> (path: String)
    ensures
        path@ == parent@ + "/"@ + script_name_ranks_threads(*combo),
{
    let (_, ranks, threads) = combo.stringify();
    let mut path = String::from_str(parent);
    path.append("/");
    path.append("run_");
    path.append(ranks.as_str());
    path.append("ranks_");
    path.append(threads.as_str());
    path.append("threads.sh");
    path
}

} // verus!
