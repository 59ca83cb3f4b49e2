use vstd::prelude::*;

use crate::render::{format_record, spec_output, spec_record};
use crate::trimmed::{trim_eq, trim_eq_exec};

verus! {

/// The character sequences of a sequence of strings.
pub open spec fn views(lines: Seq<String>) -> Seq<Seq<char>> {
    lines.map_values(|s: String| s@)
}

/// The collapser's abstract state after consuming `lines`: the records
/// already emitted (closed runs, in order) and the still-open run, if any.
/// A record pairs the run's stored first-occurrence text with its length.
pub open spec fn collapse_state(lines: Seq<Seq<char>>) -> (Seq<(Seq<char>, nat)>, Option<
    (Seq<char>, nat),
>)
    decreases lines.len(),
{
    if lines.len() == 0 {
        (Seq::<(Seq<char>, nat)>::empty(), None)
    } else {
        let prev = collapse_state(lines.drop_last());
        let line = lines.last();
        match prev.1 {
            None => (prev.0, Some((line, 1nat))),
            Some(p) => if trim_eq(line, p.0) {
                (prev.0, Some((p.0, (p.1 + 1) as nat)))
            } else {
                (prev.0.push(p), Some((line, 1nat)))
            },
        }
    }
}

/// All records the collapser emits for `lines`: one per maximal run of
/// adjacent trim-equal lines, carrying the run's first text and its length.
pub open spec fn spec_collapse(lines: Seq<Seq<char>>) -> Seq<(Seq<char>, nat)> {
    let st = collapse_state(lines);
    match st.1 {
        None => st.0,
        Some(p) => st.0.push(p),
    }
}

/// The open run's length is bounded by the number of lines consumed.
pub proof fn lemma_pending_le_len(lines: Seq<Seq<char>>)
    ensures
        match collapse_state(lines).1 {
            None => lines.len() == 0,
            Some(p) => 1 <= p.1 <= lines.len(),
        },
    decreases lines.len(),
{
    if lines.len() > 0 {
        lemma_pending_le_len(lines.drop_last());
    }
}

/// Appending one record extends the rendered output by that record's text.
pub proof fn lemma_output_push(records: Seq<(Seq<char>, nat)>, r: (Seq<char>, nat), show: bool)
    ensures
        spec_output(records.push(r), show) == spec_output(records, show) + spec_record(
            r.0,
            r.1,
            show,
        ),
    decreases records.len(),
{
    if records.len() == 0 {
        assert(records.push(r).drop_first() =~= records);
        assert(spec_output(records.push(r), show) =~= spec_output(records, show) + spec_record(
            r.0,
            r.1,
            show,
        ));
    } else {
        assert(records.push(r).drop_first() =~= records.drop_first().push(r));
        lemma_output_push(records.drop_first(), r, show);
        assert(spec_output(records.push(r), show) =~= spec_output(records, show) + spec_record(
            r.0,
            r.1,
            show,
        ));
    }
}

/// The single-pass adjacent-duplicate collapser. It holds at most one
/// pending run — the stored first-occurrence text and the count of
/// consecutive trim-equal lines seen — and emits a record each time a
/// differing line closes the run.
pub struct Collapser {
    pending: Option<(String, usize)>,
    lines: Ghost<Seq<Seq<char>>>,
}

impl Collapser {
    /// The lines consumed so far.
    pub closed spec fn history(self) -> Seq<Seq<char>> {
        self.lines@
    }

    /// The open run as the abstract state sees it.
    pub closed spec fn spec_pending(self) -> Option<(Seq<char>, nat)> {
        match self.pending {
            None => None,
            Some(p) => Some((p.0@, p.1 as nat)),
        }
    }

    /// The open run's length, zero when no run is open.
    pub closed spec fn pending_count(self) -> nat {
        match self.pending {
            None => 0,
            Some(p) => p.1 as nat,
        }
    }

    /// The held run is exactly the open run of the abstract state over the
    /// consumed lines.
    pub closed spec fn wf(self) -> bool {
        self.spec_pending() == collapse_state(self.history()).1
    }

    /// A collapser that has consumed nothing and holds no open run.
    pub fn new() -> (c: Collapser)
        ensures
            c.wf(),
            c.history() == Seq::<Seq<char>>::empty(),
    {
        Collapser { pending: None, lines: Ghost(Seq::empty()) }
    }

    /// The open run's current length, zero when no run is open. `push`
    /// asks its caller to keep this below `usize::MAX`.
    pub fn current_count(&self) -> (n: usize)
        ensures
            n as nat == self.pending_count(),
    {
        match &self.pending {
            None => 0,
            Some(p) => p.1,
        }
    }

    /// Consumes one line. A line trim-equal to the open run extends it and
    /// its text is discarded; a differing line closes the run, whose record
    /// is returned for emission, and opens a new run holding the line.
    pub fn push(&mut self, line: String) -> (emitted: Option<(String, usize)>)
        requires
            old(self).wf(),
            old(self).pending_count() < usize::MAX,
        ensures
            final(self).wf(),
            final(self).history() == old(self).history().push(line@),
            ({
                let before = collapse_state(old(self).history()).0;
                let after = collapse_state(final(self).history()).0;
                match emitted {
                    None => after == before,
                    Some(e) => after == before.push((e.0@, e.1 as nat)),
                }
            }),
    {
        proof {
            assert(self.lines@.push(line@).drop_last() =~= self.lines@);
        }
        self.lines = Ghost(self.lines@.push(line@));
        let prev = self.pending.take();
        match prev {
            None => {
                self.pending = Some((line, 1));
                None
            },
            Some((text, cnt)) => {
                if trim_eq_exec(line.as_str(), text.as_str()) {
                    self.pending = Some((text, cnt + 1));
                    None
                } else {
                    self.pending = Some((line, 1));
                    Some((text, cnt))
                }
            },
        }
    }

    /// Ends the input. The still-open run, if any, is returned for
    /// emission; together with the records already emitted it completes
    /// the collapse of the consumed lines. No run is open exactly when no
    /// line was consumed, so empty input emits nothing.
    pub fn finish(self) -> (last: Option<(String, usize)>)
        requires
            self.wf(),
        ensures
            ({
                let emitted = collapse_state(self.history()).0;
                match last {
                    None => spec_collapse(self.history()) == emitted && self.history().len() == 0,
                    Some(e) => spec_collapse(self.history()) == emitted.push((e.0@, e.1 as nat)),
                }
            }),
    {
        proof {
            lemma_pending_le_len(self.history());
        }
        self.pending
    }
}

/// Collapses a whole line sequence at once and renders every emitted
/// record: the full output of one run of the collapser over `lines`.
pub fn collapse_all(lines: &Vec<String>, show_count: bool) -> (out: String)
    ensures
        out@ == spec_output(spec_collapse(views(lines@)), show_count),
{
    let mut c = Collapser::new();
    let mut out = String::new();
    let mut i: usize = 0;
    proof {
        assert(views(lines@.take(0)) =~= Seq::<Seq<char>>::empty());
    }
    while i < lines.len()
        invariant
            i <= lines@.len(),
            c.wf(),
            c.history() == views(lines@.take(i as int)),
            out@ == spec_output(collapse_state(c.history()).0, show_count),
        decreases lines@.len() - i,
    {
        proof {
            lemma_pending_le_len(c.history());
            assert(c.history().len() == i);
            assert(views(lines@.take(i + 1)) =~= views(lines@.take(i as int)).push(
                lines@[i as int]@,
            ));
        }
        let ghost before = collapse_state(c.history()).0;
        let line = lines[i].clone();
        let emitted = c.push(line);
        match emitted {
            Some((text, cnt)) => {
                proof {
                    lemma_output_push(before, (text@, cnt as nat), show_count);
                }
                let rec = format_record(text.as_str(), cnt, show_count);
                out.append(rec.as_str());
            },
            None => {},
        }
        i = i + 1;
    }
    proof {
        assert(lines@.take(lines@.len() as int) =~= lines@);
        lemma_pending_le_len(c.history());
    }
    let ghost before = collapse_state(c.history()).0;
    let last = c.finish();
    match last {
        Some((text, cnt)) => {
            proof {
                lemma_output_push(before, (text@, cnt as nat), show_count);
            }
            let rec = format_record(text.as_str(), cnt, show_count);
            out.append(rec.as_str());
        },
        None => {},
    }
    out
}

} // verus!
