//! The script template and its placeholders.

use vstd::prelude::*;
use vstd::string::*;
use crate::combo::Combo;
use crate::number::{decimal, lemma_decimal_denotes};
use crate::text::{
    lemma_replace_absent, lemma_replace_occurrences, occurs_in, replace_all, replace_spec,
    share_no_char,
};

verus! {

/// Stands for the number of nodes.
pub const NODES_KEY: &'static str = "@nodes";

/// Stands for the number of ranks.
pub const RANKS_KEY: &'static str = "@ranks";

/// Stands for the number of threads.
pub const THREADS_KEY: &'static str = "@threads";

/// The text of a template, read once and filled in for each shape.
#[derive(Debug)]
pub struct Template {
    content: String,
}

impl View for Template {
    type V = Seq<char>;

    closed spec fn view(&self) -> Seq<char> {
        self.content@
    }
}

/// `content` with the ranks and then the threads of `combo` put in for
/// their placeholders.
pub open spec fn fill_ranks_threads(content: Seq<char>, combo: Combo) -> Seq<char> {
    replace_spec(
        replace_spec(content, RANKS_KEY@, decimal(combo.ranks as nat)),
        THREADS_KEY@,
        decimal(combo.threads as nat),
    )
}

/// `content` with the nodes, then the ranks, then the threads of `combo`
/// put in for their placeholders.
pub open spec fn fill(content: Seq<char>, combo: Combo) -> Seq<char> {
    fill_ranks_threads(replace_spec(content, NODES_KEY@, decimal(combo.nodes as nat)), combo)
}

/// A text that holds no placeholder is its own filling, whatever the shape.
pub proof fn lemma_fill_without_placeholders(content: Seq<char>, combo: Combo)
    requires
        !occurs_in(content, NODES_KEY@),
        !occurs_in(content, RANKS_KEY@),
        !occurs_in(content, THREADS_KEY@),
    ensures
        fill(content, combo) == content,
        fill_ranks_threads(content, combo) == content,
{
    lemma_replace_absent(content, NODES_KEY@, decimal(combo.nodes as nat));
    lemma_replace_absent(content, RANKS_KEY@, decimal(combo.ranks as nat));
    lemma_replace_absent(content, THREADS_KEY@, decimal(combo.threads as nat));
}

/// A number in decimal is not empty and shares no character with a
/// placeholder.
proof fn lemma_decimal_apart(n: nat)
    ensures
        decimal(n).len() > 0,
        share_no_char(decimal(n), NODES_KEY@),
        share_no_char(decimal(n), RANKS_KEY@),
        share_no_char(decimal(n), THREADS_KEY@),
{
    lemma_decimal_denotes(n);
    reveal_strlit("@nodes");
    reveal_strlit("@ranks");
    reveal_strlit("@threads");
}

/// Filling in ranks and threads leaves neither of their placeholders in the
/// text, and `@nodes` only where it stood before.
pub proof fn lemma_fill_ranks_threads_complete(content: Seq<char>, combo: Combo)
    ensures
        !occurs_in(fill_ranks_threads(content, combo), RANKS_KEY@),
        !occurs_in(fill_ranks_threads(content, combo), THREADS_KEY@),
        occurs_in(fill_ranks_threads(content, combo), NODES_KEY@) ==> occurs_in(
            content,
            NODES_KEY@,
        ),
{
    let ranks = decimal(combo.ranks as nat);
    let threads = decimal(combo.threads as nat);
    let with_ranks = replace_spec(content, RANKS_KEY@, ranks);
    lemma_decimal_apart(combo.ranks as nat);
    lemma_decimal_apart(combo.threads as nat);
    lemma_replace_occurrences(content, RANKS_KEY@, ranks, RANKS_KEY@);
    lemma_replace_occurrences(content, RANKS_KEY@, ranks, NODES_KEY@);
    lemma_replace_occurrences(with_ranks, THREADS_KEY@, threads, RANKS_KEY@);
    lemma_replace_occurrences(with_ranks, THREADS_KEY@, threads, THREADS_KEY@);
    lemma_replace_occurrences(with_ranks, THREADS_KEY@, threads, NODES_KEY@);
}

/// A filled text holds no placeholder any more: every occurrence of each
/// has been replaced.
pub proof fn lemma_fill_complete(content: Seq<char>, combo: Combo)
    ensures
        !occurs_in(fill(content, combo), NODES_KEY@),
        !occurs_in(fill(content, combo), RANKS_KEY@),
        !occurs_in(fill(content, combo), THREADS_KEY@),
{
    let nodes = decimal(combo.nodes as nat);
    let with_nodes = replace_spec(content, NODES_KEY@, nodes);
    lemma_decimal_apart(combo.nodes as nat);
    lemma_replace_occurrences(content, NODES_KEY@, nodes, NODES_KEY@);
    lemma_fill_ranks_threads_complete(with_nodes, combo);
}

impl Template {
    /// A template with the given text.
    pub fn new(content: String) -> (template: Template)
        ensures
            template@ == content@,
    {
        Template { content }
    }

    /// The text of the template, as given.
    pub fn content(&self) -> (content: &str)
        ensures
            content@ == self@,
    {
        self.content.as_str()
    }

    /// The script for `combo`: the template with every placeholder replaced
    /// by the decimal form of the field it stands for.
    pub fn finish(&self, combo: &Combo) -> (script: String)
        ensures
            script@ == fill(self@, *combo),
    {
        let (nodes, ranks, threads) = combo.stringify();
        let mut result = replace_all(self.content.as_str(), NODES_KEY, nodes.as_str());
        result = replace_all(result.as_str(), RANKS_KEY, ranks.as_str());
        replace_all(result.as_str(), THREADS_KEY, threads.as_str())
    }

    /// The script for `combo` where the template speaks of ranks and threads
    /// only: `@nodes` is left as it stands.
    pub fn finish_ranks_threads(&self, combo: &Combo) -> (script: String)
        ensures
            script@ == fill_ranks_threads(self@, *combo),
    {
        let (_, ranks, threads) = combo.stringify();
        let result = replace_all(self.content.as_str(), RANKS_KEY, ranks.as_str());
        replace_all(result.as_str(), THREADS_KEY, threads.as_str())
    }
}

} // verus!
