//! The whole filter on an in-memory line sequence.
//!
//! [`run`] feeds every line to the [`Engine`](crate::engine::Engine)
//! in order and renders each closed run, so its output is exactly the
//! rendering of [`groups`]: one record per maximal run of adjacent
//! lines sharing a comparison key, each record the run's first line,
//! prefixed with the right-aligned run length when counting is on.

use vstd::prelude::*;

use crate::args::Config;
use crate::engine::Engine;
use crate::engine::groups;
use crate::engine::lemma_groups_last;
use crate::lines::copy_bytes;
use crate::lines::key;
use crate::render::render_record;
use crate::render::rendered;
use crate::render::rendered_all;

verus! {

/// The output of the filter on the line sequence `ls`: the runs of
/// `ls`, rendered in order.
pub open spec fn output_of(ls: Seq<Seq<u8>>, counting: bool) -> Seq<Seq<u8>> {
    rendered_all(groups(ls), counting)
}

/// A rendered run sequence grows by one record per run.
proof fn lemma_rendered_all_push(gs: Seq<(Seq<u8>, nat)>, counting: bool)
    requires
        gs.len() > 0,
    ensures
        rendered_all(gs, counting) == rendered_all(gs.drop_last(), counting).push(
            rendered(gs.last().0, gs.last().1, counting),
        ),
{
    assert(rendered_all(gs, counting) =~= rendered_all(gs.drop_last(), counting).push(
        rendered(gs.last().0, gs.last().1, counting),
    ));
}

/// Emits every maximal run of adjacent lines sharing a comparison key
/// exactly once, in input order: the run's first line verbatim,
/// prefixed with the right-aligned run length when `config.count` is
/// set.
pub fn run(config: &Config, input: &Vec<Vec<u8>>) -> (out: Vec<Vec<u8>>)
    ensures
        out.deep_view() == output_of(input.deep_view(), config.count),
{
    let ghost ls = input.deep_view();
    let mut engine = Engine::new();
    let mut out: Vec<Vec<u8>> = Vec::new();
    let mut i: usize = 0;
    proof {
        assert(ls.take(0) =~= Seq::<Seq<u8>>::empty());
        assert(out.deep_view() =~= Seq::<Seq<u8>>::empty());
    }
    while i < input.len()
        invariant
            i <= ls.len(),
            ls == input.deep_view(),
            ls.len() == input@.len(),
            i == 0 ==> engine.count == 0 && out.deep_view() == Seq::<Seq<u8>>::empty(),
            i > 0 ==> {
                let g = groups(ls.take(i as int));
                &&& g.len() > 0
                &&& engine.count > 0
                &&& engine.count <= i
                &&& engine.representative@ == g.last().0
                &&& engine.count == g.last().1
                &&& out.deep_view() == rendered_all(g.drop_last(), config.count)
            },
        decreases ls.len() - i,
    {
        let ghost g = groups(ls.take(i as int));
        let line = copy_bytes(&input[i]);
        proof {
            assert(ls[i as int] == input@[i as int].deep_view());
            assert(input@[i as int].deep_view() =~= input@[i as int]@);
            assert(ls.take(i + 1).drop_last() =~= ls.take(i as int));
            assert(ls.take(i + 1).last() == ls[i as int]);
        }
        let flushed = engine.push(line);
        let ghost g1 = groups(ls.take(i + 1));
        match flushed {
            Some(record) => {
                proof {
                    assert(g.len() > 0 && key(g.last().0) != key(ls[i as int]));
                    assert(g1 == g.push((ls[i as int], 1nat)));
                    assert(g1.drop_last() =~= g);
                    lemma_rendered_all_push(g, config.count);
                }
                let rendered_line = render_record(&record, config.count);
                out.push(rendered_line);
                proof {
                    assert(out.deep_view() =~~= rendered_all(g1.drop_last(), config.count));
                }
            },
            None => {
                proof {
                    if i == 0 {
                        assert(g1 == Seq::<(Seq<u8>, nat)>::empty().push((ls[0], 1nat)));
                        assert(g1.drop_last() =~= Seq::<(Seq<u8>, nat)>::empty());
                        assert(rendered_all(g1.drop_last(), config.count) =~= Seq::<
                            Seq<u8>,
                        >::empty());
                    } else {
                        assert(g.len() > 0 && key(g.last().0) == key(ls[i as int]));
                        assert(g1 == g.update(
                            g.len() - 1,
                            (g.last().0, (g.last().1 + 1) as nat),
                        ));
                        assert(g1.drop_last() =~= g.drop_last());
                        assert(g1.last() == (g.last().0, (g.last().1 + 1) as nat));
                    }
                }
            },
        }
        i = i + 1;
    }
    proof {
        assert(ls.take(ls.len() as int) =~= ls);
    }
    match engine.finish() {
        Some(record) => {
            proof {
                lemma_groups_last(ls);
                lemma_rendered_all_push(groups(ls), config.count);
            }
            let rendered_line = render_record(&record, config.count);
            out.push(rendered_line);
            proof {
                assert(out.deep_view() =~~= rendered_all(groups(ls), config.count));
            }
        },
        None => {
            proof {
                assert(ls.len() == 0);
                assert(groups(ls) =~= Seq::<(Seq<u8>, nat)>::empty());
                assert(rendered_all(groups(ls), config.count) =~= Seq::<Seq<u8>>::empty());
            }
        },
    }
    out
}

} // verus!
