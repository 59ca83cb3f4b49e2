use vstd::prelude::*;

use crate::collapse::{collapse_state, spec_collapse};
use crate::render::spec_output;
use crate::trimmed::trim_eq;

verus! {

/// The texts of the emitted records, in emission order: the whole output
/// when no count prefix is shown.
pub open spec fn emitted_texts(lines: Seq<Seq<char>>) -> Seq<Seq<char>> {
    spec_collapse(lines).map_values(|r: (Seq<char>, nat)| r.0)
}

/// The sum of the counts of a record sequence.
pub open spec fn count_sum(records: Seq<(Seq<char>, nat)>) -> nat
    decreases records.len(),
{
    if records.len() == 0 {
        0
    } else {
        count_sum(records.drop_last()) + records.last().1
    }
}

proof fn lemma_state_count(lines: Seq<Seq<char>>)
    ensures
        count_sum(collapse_state(lines).0) + (match collapse_state(lines).1 {
            None => 0nat,
            Some(p) => p.1,
        }) == lines.len(),
    decreases lines.len(),
{
    if lines.len() > 0 {
        lemma_state_count(lines.drop_last());
        let prev = collapse_state(lines.drop_last());
        match prev.1 {
            None => {},
            Some(p) => {
                if !trim_eq(lines.last(), p.0) {
                    assert(prev.0.push(p).drop_last() =~= prev.0);
                }
            },
        }
    }
}

/// Count conservation: over any input, the counts of the emitted records
/// sum to the number of input lines.
pub proof fn lemma_count_conservation(lines: Seq<Seq<char>>)
    ensures
        count_sum(spec_collapse(lines)) == lines.len(),
{
    lemma_state_count(lines);
    let st = collapse_state(lines);
    match st.1 {
        None => {},
        Some(p) => {
            assert(st.0.push(p).drop_last() =~= st.0);
        },
    }
}

proof fn lemma_state_counts_positive(lines: Seq<Seq<char>>)
    ensures
        ({
            let st = collapse_state(lines);
            &&& forall|i: int| 0 <= i < st.0.len() ==> #[trigger] st.0[i].1 >= 1
            &&& match st.1 {
                None => true,
                Some(p) => p.1 >= 1,
            }
        }),
    decreases lines.len(),
{
    if lines.len() > 0 {
        lemma_state_counts_positive(lines.drop_last());
    }
}

/// No run is empty: every emitted record has a count of at least one.
pub proof fn lemma_counts_positive(lines: Seq<Seq<char>>)
    ensures
        forall|i: int| 0 <= i < spec_collapse(lines).len() ==> #[trigger] spec_collapse(
            lines,
        )[i].1 >= 1,
{
    lemma_state_counts_positive(lines);
    let st = collapse_state(lines);
    match st.1 {
        None => {},
        Some(p) => {
            assert forall|i: int| 0 <= i < st.0.push(p).len() implies #[trigger] st.0.push(
                p,
            )[i].1 >= 1 by {
                if i < st.0.len() {
                    assert(st.0.push(p)[i] == st.0[i]);
                }
            }
        },
    }
}

/// Empty input: no lines in, no records and no output bytes out.
pub proof fn lemma_empty_input(show: bool)
    ensures
        spec_collapse(Seq::<Seq<char>>::empty()) == Seq::<(Seq<char>, nat)>::empty(),
        spec_output(spec_collapse(Seq::<Seq<char>>::empty()), show) == Seq::<char>::empty(),
{
    assert(spec_collapse(Seq::<Seq<char>>::empty()) =~= Seq::<(Seq<char>, nat)>::empty());
}

proof fn lemma_state_distinct(lines: Seq<Seq<char>>)
    ensures
        ({
            let st = collapse_state(lines);
            &&& forall|i: int|
                0 <= i < st.0.len() - 1 ==> !trim_eq(#[trigger] st.0[i].0, st.0[i + 1].0)
            &&& match st.1 {
                None => st.0.len() == 0,
                Some(p) => st.0.len() > 0 ==> !trim_eq(st.0.last().0, p.0),
            }
        }),
    decreases lines.len(),
{
    if lines.len() > 0 {
        lemma_state_distinct(lines.drop_last());
        let prev = collapse_state(lines.drop_last());
        let st = collapse_state(lines);
        match prev.1 {
            None => {},
            Some(p) => {
                if !trim_eq(lines.last(), p.0) {
                    assert forall|i: int| 0 <= i < st.0.len() - 1 implies !trim_eq(
                        #[trigger] st.0[i].0,
                        st.0[i + 1].0,
                    ) by {
                        if i < st.0.len() - 2 {
                            assert(st.0[i] == prev.0[i]);
                            assert(st.0[i + 1] == prev.0[i + 1]);
                        } else {
                            assert(st.0[i] == prev.0.last());
                            assert(st.0[i + 1] == p);
                        }
                    }
                }
            },
        }
    }
}

/// Adjacent emitted records are never trim-equal: each run closed because
/// the next line differed.
pub proof fn lemma_no_adjacent_trim_equal(lines: Seq<Seq<char>>)
    ensures
        forall|i: int|
            0 <= i < spec_collapse(lines).len() - 1 ==> !trim_eq(
                #[trigger] spec_collapse(lines)[i].0,
                spec_collapse(lines)[i + 1].0,
            ),
{
    lemma_state_distinct(lines);
    let st = collapse_state(lines);
    match st.1 {
        None => {},
        Some(p) => {
            let all = st.0.push(p);
            assert forall|i: int| 0 <= i < all.len() - 1 implies !trim_eq(
                #[trigger] all[i].0,
                all[i + 1].0,
            ) by {
                if i < all.len() - 2 {
                    assert(all[i] == st.0[i]);
                    assert(all[i + 1] == st.0[i + 1]);
                } else {
                    assert(all[i] == st.0.last());
                    assert(all[i + 1] == p);
                }
            }
        },
    }
}

proof fn lemma_collapse_of_distinct(xs: Seq<Seq<char>>)
    requires
        forall|i: int| 0 <= i < xs.len() - 1 ==> !trim_eq(#[trigger] xs[i], xs[i + 1]),
    ensures
        spec_collapse(xs) =~= xs.map_values(|t: Seq<char>| (t, 1nat)),
    decreases xs.len(),
{
    if xs.len() > 0 {
        let prev_lines = xs.drop_last();
        assert forall|i: int| 0 <= i < prev_lines.len() - 1 implies !trim_eq(
            #[trigger] prev_lines[i],
            prev_lines[i + 1],
        ) by {
            assert(prev_lines[i] == xs[i]);
            assert(prev_lines[i + 1] == xs[i + 1]);
        }
        lemma_collapse_of_distinct(prev_lines);
        let prev = collapse_state(prev_lines);
        match prev.1 {
            None => {
                assert(prev_lines.len() == 0) by {
                    crate::collapse::lemma_pending_le_len(prev_lines);
                }
            },
            Some(p) => {
                assert(p == (prev_lines.last(), 1nat)) by {
                    assert(spec_collapse(prev_lines) == prev.0.push(p));
                    assert(prev.0.push(p).last() == p);
                    assert(prev_lines.map_values(|t: Seq<char>| (t, 1nat)).last() == (
                        prev_lines.last(),
                        1nat,
                    ));
                }
                assert(!trim_eq(xs.last(), p.0)) by {
                    assert(xs[xs.len() - 2] == prev_lines.last());
                }
                assert(prev.0 =~= prev_lines.drop_last().map_values(|t: Seq<char>| (t, 1nat)))
                    by {
                    assert(spec_collapse(prev_lines) == prev.0.push(p));
                    assert(prev.0 =~= spec_collapse(prev_lines).drop_last());
                }
            },
        }
    }
}

/// Idempotence at the record level: collapsing the texts the collapser
/// emitted leaves every one of them its own record, so the emitted texts
/// come back unchanged.
pub proof fn lemma_collapse_idempotent(lines: Seq<Seq<char>>)
    ensures
        emitted_texts(emitted_texts(lines)) == emitted_texts(lines),
{
    lemma_no_adjacent_trim_equal(lines);
    let out = emitted_texts(lines);
    assert forall|i: int| 0 <= i < out.len() - 1 implies !trim_eq(#[trigger] out[i], out[i + 1]) by {
        assert(out[i] == spec_collapse(lines)[i].0);
        assert(out[i + 1] == spec_collapse(lines)[i + 1].0);
    }
    lemma_collapse_of_distinct(out);
    assert(emitted_texts(out) =~= out);
}

proof fn lemma_output_texts_only(a: Seq<(Seq<char>, nat)>, b: Seq<(Seq<char>, nat)>)
    requires
        a.len() == b.len(),
        forall|i: int| 0 <= i < a.len() ==> #[trigger] a[i].0 == b[i].0,
    ensures
        spec_output(a, false) == spec_output(b, false),
    decreases a.len(),
{
    if a.len() > 0 {
        assert forall|i: int| 0 <= i < a.drop_first().len() implies #[trigger] a.drop_first()[i].0
            == b.drop_first()[i].0 by {
            assert(a.drop_first()[i] == a[i + 1]);
            assert(b.drop_first()[i] == b[i + 1]);
        }
        lemma_output_texts_only(a.drop_first(), b.drop_first());
    }
}

/// Idempotence at the byte level: with no count prefix, running the
/// collapser on the lines of its own output writes the same bytes again.
pub proof fn lemma_idempotent_output(lines: Seq<Seq<char>>)
    ensures
        spec_output(spec_collapse(emitted_texts(lines)), false) == spec_output(
            spec_collapse(lines),
            false,
        ),
{
    lemma_collapse_idempotent(lines);
    let out = emitted_texts(lines);
    let twice = spec_collapse(out);
    let once = spec_collapse(lines);
    assert(twice.map_values(|r: (Seq<char>, nat)| r.0) == once.map_values(
        |r: (Seq<char>, nat)| r.0,
    ));
    assert forall|i: int| 0 <= i < twice.len() implies #[trigger] twice[i].0 == once[i].0 by {
        assert(twice.map_values(|r: (Seq<char>, nat)| r.0)[i] == twice[i].0);
        assert(once.map_values(|r: (Seq<char>, nat)| r.0)[i] == once[i].0);
    }
    lemma_output_texts_only(twice, once);
}

} // verus!

