//! Properties of the filter as a whole.
//!
//! These lemmas relate the filter's output model
//! ([`output_of`](crate::filter::output_of)) to independent
//! characterizations of the input: how many maximal runs it has, what
//! collapsing each run to its first line yields, and how the run
//! lengths add up.

use vstd::prelude::*;

use crate::engine::groups;
use crate::engine::lemma_groups_last;
use crate::filter::output_of;
use crate::lines::key;
use crate::render::rendered_all;

verus! {

/// Position `i` starts a maximal run: it is the first line, or its
/// comparison key differs from the preceding line's.
pub open spec fn is_run_start(ls: Seq<Seq<u8>>, i: int) -> bool {
    0 <= i < ls.len() && (i == 0 || key(ls[i]) != key(ls[i - 1]))
}

/// How many of the first `n` positions of `ls` start a run.
pub open spec fn run_starts_below(ls: Seq<Seq<u8>>, n: int) -> nat
    decreases n,
{
    if n <= 0 {
        0
    } else {
        run_starts_below(ls, n - 1) + if is_run_start(ls, n - 1) {
            1nat
        } else {
            0nat
        }
    }
}

/// The number of maximal runs of adjacent lines of `ls` sharing a
/// comparison key.
pub open spec fn run_count(ls: Seq<Seq<u8>>) -> nat {
    run_starts_below(ls, ls.len() as int)
}

/// `ls` with every maximal run of adjacent lines sharing a comparison
/// key collapsed to its first line, in input order.
pub open spec fn collapsed(ls: Seq<Seq<u8>>) -> Seq<Seq<u8>>
    decreases ls.len(),
{
    if ls.len() == 0 {
        Seq::empty()
    } else if is_run_start(ls, ls.len() - 1) {
        collapsed(ls.drop_last()).push(ls.last())
    } else {
        collapsed(ls.drop_last())
    }
}

/// The representative lines of a run sequence.
pub open spec fn representatives(gs: Seq<(Seq<u8>, nat)>) -> Seq<Seq<u8>> {
    gs.map_values(|g: (Seq<u8>, nat)| g.0)
}

/// The run lengths of a run sequence, added up.
pub open spec fn total_count(gs: Seq<(Seq<u8>, nat)>) -> nat
    decreases gs.len(),
{
    if gs.len() == 0 {
        0
    } else {
        total_count(gs.drop_last()) + gs.last().1
    }
}

/// Whether a position starts a run only depends on the lines up to
/// that position, so dropping the last line changes nothing below it.
proof fn lemma_run_starts_below_drop_last(ls: Seq<Seq<u8>>, n: int)
    requires
        ls.len() > 0,
        n <= ls.len() - 1,
    ensures
        run_starts_below(ls, n) == run_starts_below(ls.drop_last(), n),
    decreases n,
{
    if n > 0 {
        lemma_run_starts_below_drop_last(ls, n - 1);
        assert(is_run_start(ls, n - 1) == is_run_start(ls.drop_last(), n - 1));
    }
}

/// The filter emits exactly one record per maximal run of adjacent
/// lines sharing a comparison key.
pub proof fn lemma_record_count(ls: Seq<Seq<u8>>, counting: bool)
    ensures
        output_of(ls, counting).len() == run_count(ls),
    decreases ls.len(),
{
    lemma_groups_run_count(ls);
}

/// The run sequence has exactly one entry per maximal run.
proof fn lemma_groups_run_count(ls: Seq<Seq<u8>>)
    ensures
        groups(ls).len() == run_count(ls),
    decreases ls.len(),
{
    if ls.len() > 0 {
        let d = ls.drop_last();
        lemma_groups_run_count(d);
        lemma_run_starts_below_drop_last(ls, ls.len() - 1);
        if d.len() > 0 {
            lemma_groups_last(d);
            assert(d.last() == ls[ls.len() - 2]);
        }
    }
}

/// The representatives the filter emits are the input with each run
/// collapsed to its first line, in input order.
pub proof fn lemma_reconstruction(ls: Seq<Seq<u8>>)
    ensures
        output_of(ls, false) == collapsed(ls),
{
    lemma_groups_representatives(ls);
    assert(rendered_all(groups(ls), false) =~= representatives(groups(ls)));
}

/// The first lines of the run sequence's runs are the collapsed input.
proof fn lemma_groups_representatives(ls: Seq<Seq<u8>>)
    ensures
        representatives(groups(ls)) == collapsed(ls),
    decreases ls.len(),
{
    if ls.len() == 0 {
        assert(representatives(groups(ls)) =~= collapsed(ls));
    } else {
        let d = ls.drop_last();
        let g = groups(d);
        lemma_groups_representatives(d);
        if d.len() > 0 {
            lemma_groups_last(d);
            assert(d.last() == ls[ls.len() - 2]);
        }
        if g.len() > 0 && key(g.last().0) == key(ls.last()) {
            let g1 = g.update(g.len() - 1, (g.last().0, (g.last().1 + 1) as nat));
            assert(representatives(g1) =~= representatives(g));
        } else {
            assert(representatives(g.push((ls.last(), 1nat))) =~= representatives(g).push(
                ls.last(),
            ));
        }
    }
}

/// Adjacent lines of the collapsed input never share a comparison
/// key: each kept line started a new run.
proof fn lemma_collapsed_adjacent_keys(ls: Seq<Seq<u8>>)
    ensures
        collapsed(ls).len() > 0 ==> key(collapsed(ls).last()) == key(ls.last()),
        collapsed(ls).len() > 0 ==> ls.len() > 0,
        forall|i: int|
            0 < i < collapsed(ls).len() ==> #[trigger] key(collapsed(ls)[i]) != key(
                collapsed(ls)[i - 1],
            ),
    decreases ls.len(),
{
    lemma_groups_representatives(ls);
    if ls.len() > 0 {
        let d = ls.drop_last();
        let c = collapsed(d);
        lemma_collapsed_adjacent_keys(d);
        if is_run_start(ls, ls.len() - 1) {
            if c.len() > 0 {
                assert(d.last() == ls[ls.len() - 2]);
                assert(key(c.last()) != key(ls.last()));
            }
            assert(forall|i: int|
                0 < i < c.len() ==> #[trigger] key(collapsed(ls)[i]) == key(c[i]) && key(
                    collapsed(ls)[i - 1],
                ) == key(c[i - 1]));
        } else {
            assert(key(collapsed(ls).last()) == key(ls.last())) by {
                assert(collapsed(ls) == c);
                assert(c.len() > 0) by {
                    lemma_groups_run_count(d);
                    assert(groups(d).len() > 0) by { lemma_groups_last(d) }
                    assert(c.len() == groups(d).len());
                }
                assert(key(c.last()) == key(d.last()));
                assert(key(d.last()) == key(ls.last()));
            }
        }
    }
}

/// A sequence whose adjacent lines never share a comparison key is
/// its own collapse: every line starts a run.
proof fn lemma_collapsed_identity(ls: Seq<Seq<u8>>)
    requires
        forall|i: int| 0 < i < ls.len() ==> #[trigger] key(ls[i]) != key(ls[i - 1]),
    ensures
        collapsed(ls) == ls,
    decreases ls.len(),
{
    if ls.len() > 0 {
        let d = ls.drop_last();
        assert(forall|i: int| 0 < i < d.len() ==> #[trigger] key(d[i]) != key(d[i - 1])) by {
            assert(forall|i: int| 0 <= i < d.len() ==> d[i] == ls[i]);
        }
        lemma_collapsed_identity(d);
        assert(is_run_start(ls, ls.len() - 1));
        assert(collapsed(ls) =~= ls);
    } else {
        assert(collapsed(ls) =~= ls);
    }
}

/// Running the filter on its own non-counting output changes nothing:
/// adjacent output lines never share a key, so every one is kept.
pub proof fn lemma_idempotent(ls: Seq<Seq<u8>>)
    ensures
        output_of(output_of(ls, false), false) == output_of(ls, false),
{
    lemma_reconstruction(ls);
    lemma_reconstruction(collapsed(ls));
    lemma_collapsed_adjacent_keys(ls);
    lemma_collapsed_identity(collapsed(ls));
}

/// The comparison keys of a line sequence, in order.
pub open spec fn keys_of(ls: Seq<Seq<u8>>) -> Seq<Seq<u8>> {
    ls.map_values(|l: Seq<u8>| key(l))
}

/// `count` copies of the comparison key `k`.
pub open spec fn repeated_key(k: Seq<u8>, count: nat) -> Seq<Seq<u8>> {
    Seq::new(count as nat, |i: int| k)
}

/// The comparison keys a run sequence accounts for: each run's key,
/// repeated as often as the run's length says.
pub open spec fn accounted_keys(gs: Seq<(Seq<u8>, nat)>) -> Seq<Seq<u8>>
    decreases gs.len(),
{
    if gs.len() == 0 {
        Seq::empty()
    } else {
        accounted_keys(gs.drop_last()) + repeated_key(key(gs.last().0), gs.last().1)
    }
}

/// Every run length is exact: expanding each run back into that many
/// copies of its comparison key reproduces the keys of the input,
/// line for line and in order.
pub proof fn lemma_count_exact(ls: Seq<Seq<u8>>)
    ensures
        accounted_keys(groups(ls)) == keys_of(ls),
    decreases ls.len(),
{
    if ls.len() == 0 {
        assert(accounted_keys(groups(ls)) =~= keys_of(ls));
    } else {
        let d = ls.drop_last();
        let g = groups(d);
        lemma_count_exact(d);
        assert(keys_of(ls) =~= keys_of(d).push(key(ls.last())));
        if g.len() > 0 && key(g.last().0) == key(ls.last()) {
            let k = key(g.last().0);
            let c = g.last().1;
            let g1 = g.update(g.len() - 1, (g.last().0, (c + 1) as nat));
            assert(g1.drop_last() =~= g.drop_last());
            assert(repeated_key(k, (c + 1) as nat) =~= repeated_key(k, c).push(k));
            assert(accounted_keys(g1) =~= accounted_keys(g).push(k));
        } else {
            assert(groups(ls).drop_last() =~= g);
            assert(repeated_key(key(ls.last()), 1nat) =~= Seq::<Seq<u8>>::empty().push(
                key(ls.last()),
            ));
            assert(accounted_keys(groups(ls)) =~= accounted_keys(g).push(key(ls.last())));
        }
    }
}

/// In counting mode every input line is accounted for exactly once:
/// the run lengths of the runs add up to the input length.
pub proof fn lemma_count_sum(ls: Seq<Seq<u8>>)
    ensures
        total_count(groups(ls)) == ls.len(),
    decreases ls.len(),
{
    if ls.len() > 0 {
        let d = ls.drop_last();
        let g = groups(d);
        lemma_count_sum(d);
        if g.len() > 0 && key(g.last().0) == key(ls.last()) {
            let g1 = g.update(g.len() - 1, (g.last().0, (g.last().1 + 1) as nat));
            assert(g1.drop_last() =~= g.drop_last());
            assert(g1.last().1 == g.last().1 + 1);
        } else {
            assert(groups(ls).drop_last() =~= g);
        }
    }
}

} // verus!
