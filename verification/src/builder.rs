//! The password builder: samples distinct lines from the dictionary and
//! joins them with the separator.

use vstd::prelude::*;

use crate::config::Config;
use crate::errors::Error;
use crate::errors::ErrorSpec;
use crate::text::join_spec;
use crate::text::join_words;
use crate::text::lines_spec;
use crate::text::split_lines;

verus! {

#[verifier::external_type_specification]
#[verifier::external_body]
pub struct ExThreadRng(rand::rngs::ThreadRng);

/// Relies on rand::rng: returns the thread-local random generator. It can
/// abort only if seeding from the operating system's randomness source
/// fails.
#[verifier::external_body]
fn fresh_rng() -> rand::rngs::ThreadRng {
    rand::rng()
}

/// Relies on rand::seq::index::sample: `amount` distinct indices sampled
/// from `0..length`, in random order; it panics only when
/// `amount > length`, which the precondition rules out.
#[verifier::external_body]
fn sample_indices(rng: &mut rand::rngs::ThreadRng, length: usize, amount: usize) -> (r: Vec<
    usize,
>)
    requires
        amount <= length,
    ensures
        r@.len() == amount,
        forall|i: int| 0 <= i < r@.len() ==> #[trigger] r@[i] < length,
        forall|i: int, j: int| 0 <= i < j < r@.len() ==> r@[i] != r@[j],
{
    rand::seq::index::sample(rng, length, amount).into_vec()
}

/// The words of `lines` at the positions of `idx`, in that order.
pub open spec fn select_words(lines: Seq<Seq<char>>, idx: Seq<int>) -> Seq<Seq<char>> {
    idx.map_values(|i: int| lines[i])
}

/// Whether `idx` selects `k` distinct positions among `n`.
pub open spec fn is_index_sample(idx: Seq<int>, n: int, k: int) -> bool {
    &&& idx.len() == k
    &&& forall|i: int| 0 <= i < idx.len() ==> 0 <= #[trigger] idx[i] < n
    &&& forall|i: int, j: int| 0 <= i < j < idx.len() ==> idx[i] != idx[j]
}

/// Builds the passphrase of `conf`: `conf.count` lines of the dictionary,
/// selected at distinct random positions, joined with the separator. Fails
/// exactly when the count exceeds the number of dictionary lines.
pub fn make_password(conf: &Config) -> (r: Result<String, Error>)
    ensures
        match r {
            Ok(s) => {
                let lines = lines_spec(conf@.dictionary);
                &&& conf@.count <= lines.len()
                &&& exists|idx: Seq<int>|
                    is_index_sample(idx, lines.len() as int, conf@.count as int) && s@ == join_spec(
                        select_words(lines, idx),
                        conf@.separator,
                    )
            },
            Err(e) => {
                &&& e@ == ErrorSpec::NotEnoughWords
                &&& conf@.count > lines_spec(conf@.dictionary).len()
            },
        },
{
    let words = split_lines(conf.dictionary.as_str());
    if conf.count > words.len() {
        return Err(Error::NotEnoughWords);
    }
    let mut rng = fresh_rng();
    let idxs = sample_indices(&mut rng, words.len(), conf.count);
    let ghost lines = lines_spec(conf@.dictionary);
    let mut chosen: Vec<String> = Vec::new();
    let mut i: usize = 0;
    while i < idxs.len()
        invariant
            i <= idxs@.len(),
            words.deep_view() == lines,
            forall|k: int| 0 <= k < idxs@.len() ==> #[trigger] idxs@[k] < words@.len(),
            chosen.deep_view() == idxs@.subrange(0, i as int).map_values(
                |u: usize| lines[u as int],
            ),
        decreases idxs@.len() - i,
    {
        let w = words[idxs[i]].clone();
        let ghost old_chosen = chosen.deep_view();
        chosen.push(w);
        proof {
            assert(chosen.deep_view() =~= old_chosen.push(lines[idxs@[i as int] as int]));
            assert(chosen.deep_view() =~= idxs@.subrange(0, i + 1).map_values(
                |u: usize| lines[u as int],
            ));
        }
        i = i + 1;
    }
    let out = join_words(&chosen, conf.separator.as_str());
    proof {
        assert(idxs@.subrange(0, idxs@.len() as int) =~= idxs@);
        let idx = idxs@.map_values(|u: usize| u as int);
        assert(is_index_sample(idx, lines.len() as int, conf@.count as int));
        assert(select_words(lines, idx) =~= idxs@.map_values(|u: usize| lines[u as int]));
    }
    Ok(out)
}

/// Any selection of `k` distinct positions picks exactly `k` words, and when
/// the dictionary's lines are pairwise distinct, so are the picked words: a
/// sampled passphrase never repeats a word of such a dictionary.
pub proof fn lemma_sampled_words_distinct(lines: Seq<Seq<char>>, idx: Seq<int>, k: int)
    requires
        is_index_sample(idx, lines.len() as int, k),
        forall|i: int, j: int| 0 <= i < j < lines.len() ==> lines[i] != lines[j],
    ensures
        select_words(lines, idx).len() == k,
        forall|i: int, j: int|
            0 <= i < j < select_words(lines, idx).len() ==> #[trigger] select_words(lines, idx)[i]
                != #[trigger] select_words(lines, idx)[j],
{
    let ws = select_words(lines, idx);
    assert forall|i: int, j: int| 0 <= i < j < ws.len() implies ws[i] != ws[j] by {
        assert(ws[i] == lines[idx[i]]);
        assert(ws[j] == lines[idx[j]]);
        if idx[i] < idx[j] {
            assert(lines[idx[i]] != lines[idx[j]]);
        } else {
            assert(lines[idx[j]] != lines[idx[i]]);
        }
    }
}

} // verus!
