//! The run: the pool of candidates and the decisions of each round. What a
//! round reads from disk and writes out is the caller's part; this module
//! says which candidates to read, which to report, and when the run is over.
use crate::algo::{find_work, gather, kept, key_matches, Class, Work};
use crate::algo_laws::{
    fully_read, grouped, is_run, law_ample_budget_takes_all, law_pass_partitions_pool,
    law_reread_group_is_duplicates,
};
use crate::cli::Options;
use crate::order::{
    ascending, bytes_le, drop_repeats, keeps_first_of_ranks, keeps_ranks, lemma_lex_antisymmetric,
    lemma_lex_reflexive, lemma_lex_total, lemma_lex_transitive, lemma_stable_order_unique, lex_le,
    sorted, stable_sort, stably_sorted, ties, Ranking,
};
use crate::possdupe::{Key, PossDupe};
use crate::text::{decimal, hex_lower, push_decimal};
use crate::trusted::hex_encode;
use vstd::prelude::*;
use vstd::string::StringExecFns;
use vstd::utf8::encode_utf8;

verus! {

/// The order of grouping keys: by length, and among equal lengths by the
/// digest, byte for byte.
pub open spec fn key_le(a: Key, b: Key) -> bool {
    a.len < b.len || (a.len == b.len && lex_le(a.digest_snapshot@, b.digest_snapshot@))
}

/// Candidates ranked by their grouping key.
pub struct ByKey;

impl Ranking<PossDupe> for ByKey {
    open spec fn le(a: PossDupe, b: PossDupe) -> bool {
        key_le(a.key, b.key)
    }

    proof fn total(a: PossDupe, b: PossDupe) {
        lemma_lex_total(a.key.digest_snapshot@, b.key.digest_snapshot@);
    }

    proof fn transitive(a: PossDupe, b: PossDupe, c: PossDupe) {
        if a.key.len == b.key.len && b.key.len == c.key.len {
            lemma_lex_transitive(
                a.key.digest_snapshot@,
                b.key.digest_snapshot@,
                c.key.digest_snapshot@,
            );
        }
    }

    fn precedes(a: &PossDupe, b: &PossDupe) -> (r: bool) {
        if a.key.len != b.key.len {
            a.key.len < b.key.len
        } else {
            bytes_le(a.key.digest_snapshot.as_slice(), b.key.digest_snapshot.as_slice())
        }
    }
}

/// Candidates ranked by the text of their path: by its bytes in UTF-8.
pub struct ByPath;

impl Ranking<PossDupe> for ByPath {
    open spec fn le(a: PossDupe, b: PossDupe) -> bool {
        lex_le(encode_utf8(a.path@), encode_utf8(b.path@))
    }

    proof fn total(a: PossDupe, b: PossDupe) {
        lemma_lex_total(encode_utf8(a.path@), encode_utf8(b.path@));
    }

    proof fn transitive(a: PossDupe, b: PossDupe, c: PossDupe) {
        lemma_lex_transitive(encode_utf8(a.path@), encode_utf8(b.path@), encode_utf8(c.path@));
    }

    fn precedes(a: &PossDupe, b: &PossDupe) -> (r: bool) {
        bytes_le(a.path.as_str().as_bytes(), b.path.as_str().as_bytes())
    }
}

/// Two candidates share a rank by key exactly when their keys are equal.
pub proof fn law_key_ties(a: PossDupe, b: PossDupe)
    ensures
        ties::<PossDupe, ByKey>(a)(b) <==> a.key == b.key,
{
    if ties::<PossDupe, ByKey>(a)(b) {
        lemma_lex_antisymmetric(a.key.digest_snapshot@, b.key.digest_snapshot@);
        assert(a.key.digest_snapshot =~= b.key.digest_snapshot);
    }
    if a.key == b.key {
        lemma_lex_reflexive(a.key.digest_snapshot@);
    }
}

/// Two candidates share a rank by path exactly when their paths are the same
/// text.
pub proof fn law_path_ties(a: PossDupe, b: PossDupe)
    ensures
        ties::<PossDupe, ByPath>(a)(b) <==> a.path@ == b.path@,
{
    broadcast use vstd::utf8::encode_utf8_decode_utf8;

    if ties::<PossDupe, ByPath>(a)(b) {
        lemma_lex_antisymmetric(encode_utf8(a.path@), encode_utf8(b.path@));
        assert(vstd::utf8::decode_utf8(encode_utf8(a.path@)) == a.path@);
        assert(vstd::utf8::decode_utf8(encode_utf8(b.path@)) == b.path@);
    }
    if a.path@ == b.path@ {
        lemma_lex_reflexive(encode_utf8(a.path@));
    }
}

/// A pool that is sorted by key has its equal keys next to each other, as
/// the batching pass expects.
pub proof fn law_sorted_pool_is_grouped(pool: Seq<PossDupe>)
    requires
        sorted::<PossDupe, ByKey>(pool),
    ensures
        grouped::<PossDupe, Key>(pool),
{
    assert forall|i: int, j: int|
        0 <= i < j < pool.len() && #[trigger] key_matches::<PossDupe, Key>(
            pool[j],
            pool[i],
        ) implies key_matches::<PossDupe, Key>(pool[i + 1], pool[i]) by {
        if i + 1 < j {
            assert(ByKey::le(pool[i], pool[i + 1]));
            assert(ByKey::le(pool[i + 1], pool[j]));
            assert(pool[j].key == pool[i].key);
            law_key_ties(pool[i], pool[i + 1]);
        }
    }
}

/// Sorts the candidates by length and digest snapshot. Candidates with equal
/// keys stay in their order.
pub fn sort_poss_dupes(poss_dupes: &mut Vec<PossDupe>)
    ensures
        final(poss_dupes)@ == stably_sorted::<PossDupe, ByKey>(old(poss_dupes)@),
        sorted::<PossDupe, ByKey>(final(poss_dupes)@),
        keeps_ranks::<PossDupe, ByKey>(old(poss_dupes)@, final(poss_dupes)@),
        final(poss_dupes)@.to_multiset() =~= old(poss_dupes)@.to_multiset(),
        final(poss_dupes)@.len() == old(poss_dupes)@.len(),
{
    stable_sort::<PossDupe, ByKey>(poss_dupes);
}

/// The candidates of `listed` without repeated paths: in the order of their
/// paths, and of the candidates with one path the first that was listed.
pub open spec fn distinct_paths(listed: Seq<PossDupe>) -> Seq<PossDupe> {
    choose|kept: Seq<PossDupe>|
        ascending::<PossDupe, ByPath>(kept) && keeps_first_of_ranks::<PossDupe, ByPath>(
            listed,
            kept,
        )
}

/// Whatever is in the order of its paths and keeps the first candidate of
/// each path of `listed` is `distinct_paths` of it.
pub proof fn lemma_distinct_paths(listed: Seq<PossDupe>, kept: Seq<PossDupe>)
    requires
        ascending::<PossDupe, ByPath>(kept),
        keeps_first_of_ranks::<PossDupe, ByPath>(listed, kept),
    ensures
        kept == distinct_paths(listed),
{
    let chosen = distinct_paths(listed);
    assert forall|x: PossDupe| #[trigger]
        chosen.filter(ties::<PossDupe, ByPath>(x)) == kept.filter(
            ties::<PossDupe, ByPath>(x),
        ) by {
        assert(kept.filter(ties::<PossDupe, ByPath>(x)) == crate::order::first_of(
            listed.filter(ties::<PossDupe, ByPath>(x)),
        ));
    }
    lemma_stable_order_unique::<PossDupe, ByPath>(kept, chosen);
}

/// Removes any duplicate paths which may have been listed: of the
/// candidates with one path the first stays. What stays is in the order of
/// the paths.
pub fn remove_duplicate_paths(poss_dupes: &mut Vec<PossDupe>)
    ensures
        final(poss_dupes)@ == distinct_paths(old(poss_dupes)@),
        ascending::<PossDupe, ByPath>(final(poss_dupes)@),
        keeps_first_of_ranks::<PossDupe, ByPath>(old(poss_dupes)@, final(poss_dupes)@),
{
    stable_sort::<PossDupe, ByPath>(poss_dupes);
    let ghost in_order = poss_dupes@;
    drop_repeats::<PossDupe, ByPath>(poss_dupes);
    proof {
        assert forall|x: PossDupe| #[trigger]
            poss_dupes@.filter(ties::<PossDupe, ByPath>(x)) == crate::order::first_of(
                old(poss_dupes)@.filter(ties::<PossDupe, ByPath>(x)),
            ) by {
            assert(in_order.filter(ties::<PossDupe, ByPath>(x)) == old(poss_dupes)@.filter(
                ties::<PossDupe, ByPath>(x),
            ));
        }
        lemma_distinct_paths(old(poss_dupes)@, poss_dupes@);
    }
}

/// The line that reports `pd` as a duplicate: its digest in hexadecimal, its
/// size if `show_size` asks for it, and its path, two spaces between them
/// and a line feed at the end.
pub open spec fn line_of(pd: PossDupe, show_size: bool) -> Seq<char> {
    hex_lower(pd.key.digest_snapshot@) + seq![' ', ' '] + if show_size {
        decimal(pd.file_len as nat) + seq![' ', ' ']
    } else {
        Seq::empty()
    } + pd.path@ + seq!['\n']
}

/// Writes the line that reports `pd` as a duplicate.
pub fn output_line(pd: &PossDupe, show_size: bool) -> (line: String)
    ensures
        line@ == line_of(*pd, show_size),
{
    proof {
        reveal_strlit("  ");
        reveal_strlit("\n");
    }
    let mut line = hex_encode(pd.key.digest_snapshot.as_slice());
    line.append("  ");
    if show_size {
        push_decimal(&mut line, pd.file_len);
        line.append("  ");
    }
    line.append(pd.path.as_str());
    line.append("\n");
    assert(line@ =~= line_of(*pd, show_size));
    line
}

/// What a directory scan found under one listed path.
pub struct Listing {
    /// The path as it was listed.
    pub path: String,
    /// The length of what the path names, in bytes.
    pub len: u64,
    /// Whether the path names a directory.
    pub is_dir: bool,
    /// Whether the path names a symbolic link.
    pub is_symlink: bool,
}

impl Listing {
    /// Directories and symbolic links are no candidates; all else is.
    pub open spec fn is_candidate(&self) -> bool {
        !self.is_dir && !self.is_symlink
    }
}

/// The listings among the first `n` of `listings` that are candidates, by
/// path and length, in the order in which they were listed.
pub open spec fn listed_files(listings: Seq<Listing>, n: int) -> Seq<(Seq<char>, u64)>
    decreases n,
{
    if n <= 0 {
        Seq::empty()
    } else if listings[n - 1].is_candidate() {
        listed_files(listings, n - 1).push((listings[n - 1].path@, listings[n - 1].len))
    } else {
        listed_files(listings, n - 1)
    }
}

/// Makes an unread candidate of every listing that is neither a directory
/// nor a symbolic link, in the order of the listings.
pub fn candidates(listings: &Vec<Listing>) -> (found: Vec<PossDupe>)
    ensures
        found@.len() == listed_files(listings@, listings@.len() as int).len(),
        forall|i: int|
            0 <= i < found@.len() ==> {
                &&& (#[trigger] found@[i]).path@ == listed_files(
                    listings@,
                    listings@.len() as int,
                )[i].0
                &&& found@[i].is_unread(listed_files(listings@, listings@.len() as int)[i].1)
                &&& found@[i].well_formed()
            },
{
    let mut found: Vec<PossDupe> = Vec::new();
    let mut n: usize = 0;
    while n < listings.len()
        invariant
            n <= listings.len(),
            found@.len() == listed_files(listings@, n as int).len(),
            forall|i: int|
                0 <= i < found@.len() ==> {
                    &&& (#[trigger] found@[i]).path@ == listed_files(listings@, n as int)[i].0
                    &&& found@[i].is_unread(listed_files(listings@, n as int)[i].1)
                    &&& found@[i].well_formed()
                },
        decreases listings.len() - n,
    {
        let listing = &listings[n];
        if !listing.is_dir && !listing.is_symlink {
            found.push(PossDupe::new(listing.path.as_str(), listing.len));
        }
        n += 1;
    }
    found
}

/// What the caller is to do next.
pub enum Step {
    /// Report the uniques and the duplicates of this batch, read one chunk
    /// of each candidate of its work, and hand the candidates read back.
    Round(Work<PossDupe>),
    /// Nothing is left: the run is over.
    Done,
}

/// A run over a pool of candidates.
pub struct Fddup {
    options: Options,
    poss_dupes: Vec<PossDupe>,
}

impl Fddup {
    /// The candidates that no round has taken yet, sorted by key.
    pub closed spec fn pool(&self) -> Seq<PossDupe> {
        self.poss_dupes@
    }

    /// The options of the run.
    pub closed spec fn options(&self) -> Options {
        self.options
    }

    /// A run with these options and no candidates yet.
    pub fn new(options: Options) -> (run: Fddup)
        ensures
            run.options() == options,
            run.pool() == Seq::<PossDupe>::empty(),
    {
        Fddup { options, poss_dupes: Vec::new() }
    }

    /// The number of reads that a round of this run may start.
    pub fn budget(&self) -> (n: usize)
        ensures
            n == self.options().num_threads,
    {
        self.options.num_threads
    }

    /// The number of bytes that a round reads of each candidate at most.
    pub fn read_size(&self) -> (n: usize)
        ensures
            n == self.options().read_size,
    {
        self.options.read_size
    }

    /// Whether output lines carry the file's size.
    pub fn show_size(&self) -> (b: bool)
        ensures
            b == self.options().show_size,
    {
        self.options.show_size
    }

    /// Whether the run is to show statistics at its end.
    pub fn verbose(&self) -> (b: bool)
        ensures
            b == self.options().verbose,
    {
        self.options.verbose
    }

    /// The number of candidates that no round has taken yet.
    pub fn pending(&self) -> (n: usize)
        ensures
            n == self.pool().len(),
    {
        self.poss_dupes.len()
    }

    /// Makes `listed` the pool of the run: without repeated paths, sorted by
    /// key.
    pub fn load(&mut self, listed: Vec<PossDupe>)
        ensures
            final(self).options() == old(self).options(),
            final(self).pool() == stably_sorted::<PossDupe, ByKey>(distinct_paths(listed@)),
            sorted::<PossDupe, ByKey>(final(self).pool()),
            grouped::<PossDupe, Key>(final(self).pool()),
    {
        let mut listed = listed;
        remove_duplicate_paths(&mut listed);
        sort_poss_dupes(&mut listed);
        proof {
            law_sorted_pool_is_grouped(listed@);
        }
        self.poss_dupes = listed;
    }

    /// Decides the next round. `read` holds the candidates that the caller
    /// read a chunk of since the last step, in any order; at the start of
    /// the run it is empty.
    ///
    /// Candidates that were just read are sorted by key and batched again,
    /// all of them whatever the budget, since the round that admitted them
    /// is theirs to finish. When there are none, the next batch comes off the
    /// pool, within the budget. When the pool is empty too, the run is over.
    pub fn step(&mut self, read: Vec<PossDupe>) -> (next: Step)
        ensures
            final(self).options() == old(self).options(),
            read@.len() > 0 ==> {
                &&& final(self).pool() == old(self).pool()
                &&& next matches Step::Round(w)
                &&& w.work@ == gather::<PossDupe, Key>(
                    stably_sorted::<PossDupe, ByKey>(read@),
                    0,
                    Class::Work,
                )
                &&& w.duplicates@ == gather::<PossDupe, Key>(
                    stably_sorted::<PossDupe, ByKey>(read@),
                    0,
                    Class::Duplicate,
                )
                &&& w.uniques@ == gather::<PossDupe, Key>(
                    stably_sorted::<PossDupe, ByKey>(read@),
                    0,
                    Class::Unique,
                )
            },
            read@.len() == 0 && old(self).pool().len() == 0 ==> {
                &&& final(self).pool() == old(self).pool()
                &&& next is Done
            },
            read@.len() == 0 && old(self).pool().len() > 0 ==> {
                &&& final(self).pool() == old(self).pool().take(
                    kept::<PossDupe, Key>(old(self).pool(), old(self).options().num_threads as nat),
                )
                &&& next matches Step::Round(w)
                &&& w.work@ == gather::<PossDupe, Key>(
                    old(self).pool(),
                    kept::<PossDupe, Key>(old(self).pool(), old(self).options().num_threads as nat),
                    Class::Work,
                )
                &&& w.duplicates@ == gather::<PossDupe, Key>(
                    old(self).pool(),
                    kept::<PossDupe, Key>(old(self).pool(), old(self).options().num_threads as nat),
                    Class::Duplicate,
                )
                &&& w.uniques@ == gather::<PossDupe, Key>(
                    old(self).pool(),
                    kept::<PossDupe, Key>(old(self).pool(), old(self).options().num_threads as nat),
                    Class::Unique,
                )
            },
    {
        let mut read = read;
        sort_poss_dupes(&mut read);
        let ghost in_order = read@;
        assert(in_order.len() == read.len());
        let again = find_work::<PossDupe, Key>(&mut read, usize::MAX);
        proof {
            law_ample_budget_takes_all::<PossDupe, Key>(in_order, usize::MAX as nat);
            law_pass_partitions_pool::<PossDupe, Key>(in_order, usize::MAX as nat);
        }
        if again.work.len() == 0 && again.duplicates.len() == 0 && again.uniques.len() == 0 {
            if self.poss_dupes.len() == 0 {
                Step::Done
            } else {
                Step::Round(find_work::<PossDupe, Key>(&mut self.poss_dupes, self.options.num_threads))
            }
        } else {
            Step::Round(again)
        }
    }
}

/// Two files of length zero of which nothing was read are duplicates of each
/// other at once: a pass with a budget of at least one takes both and puts
/// both with the duplicates, and no byte of either was read.
pub proof fn law_unread_empty_files_are_duplicates(a: PossDupe, b: PossDupe, budget: nat)
    requires
        a.is_unread(0),
        b.is_unread(0),
        budget >= 1,
    ensures
        kept::<PossDupe, Key>(seq![a, b], budget) == 0,
        gather::<PossDupe, Key>(seq![a, b], 0, Class::Duplicate) == seq![b, a],
        gather::<PossDupe, Key>(seq![a, b], 0, Class::Work) == Seq::<PossDupe>::empty(),
        gather::<PossDupe, Key>(seq![a, b], 0, Class::Unique) == Seq::<PossDupe>::empty(),
        a.bytes_read == 0 && b.bytes_read == 0,
{
    let pool = seq![a, b];
    assert(a.key.digest_snapshot =~= b.key.digest_snapshot);
    assert(is_run::<PossDupe, Key>(pool, 0, 2));
    assert(fully_read::<PossDupe, Key>(pool, 0, 2));
    law_reread_group_is_duplicates::<PossDupe, Key>(pool, budget);
    assert(pool.reverse() =~= seq![b, a]);
}

} // verus!
