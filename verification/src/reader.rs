//! The record reconstructor: consumes physical lines one at a time and
//! decides, line by line, where one logical record ends and the next begins,
//! so that records spanning several physical lines come back as one unit.
//! The caller reads lines and hands them in; `finish` flushes the last
//! pending record and makes the sequence one-shot.

use vstd::prelude::*;
use vstd::string::StringExecFns;

use crate::chars::{
    count_char, find_last, push_char, spec_count_char, spec_last_match, str_to_chars,
};
use crate::options::{qualifier_or_nul, TextFileOptions};
use crate::pattern::regex_is_match;

verus! {

/// The pending record stands inside an unterminated qualified value: the
/// last entry into a quoted field (delimiter then qualifier) lies after the
/// last exit from one (qualifier then delimiter), and the record does not
/// end on the qualifier itself.
pub open spec fn spec_is_open(rec: Seq<char>, delimiter: char, qualifier: char) -> bool {
    let start_pat = seq![delimiter, qualifier];
    let end_pat = seq![qualifier, delimiter];
    &&& rec.len() > 0
    &&& rec.last() != qualifier
    &&& spec_last_match(rec, start_pat) >= 0
    &&& spec_last_match(rec, start_pat) > spec_last_match(rec, end_pat)
}

/// The decision for one physical line, given the pending record: the new
/// pending record and the completed record this line emits, if any.
/// The decision order is: buffer the first line; a boundary line completes
/// the pending record; an empty line is kept as an embedded blank line; a
/// line reached while a qualified value is open continues that value; a line
/// whose delimiter count differs from the header baseline is a continuation
/// too; any other line completes the pending record and starts the next.
pub open spec fn spec_step(
    pending: Option<Seq<char>>,
    line: Seq<char>,
    is_boundary: bool,
    delimiter: char,
    qualifier: Option<char>,
    header_count: nat,
) -> (Option<Seq<char>>, Option<Seq<char>>) {
    match pending {
        None => (Some(line), None),
        Some(rec) => {
            if is_boundary {
                (Some(line), Some(rec))
            } else if line.len() == 0 {
                (Some(rec.push('\n')), None)
            } else if qualifier is Some && spec_is_open(rec, delimiter, qualifier_or_nul(qualifier)) {
                (Some(rec + seq!['\r'] + line), None)
            } else if spec_count_char(line, delimiter) != header_count {
                (Some(rec + seq!['\r'] + line), None)
            } else {
                (Some(line), Some(rec))
            }
        },
    }
}

/// The view of an optional owned string.
pub open spec fn opt_str_view(o: Option<String>) -> Option<Seq<char>> {
    match o {
        Some(s) => Some(s@),
        None => None,
    }
}

/// One line-decision relates the state before it to the state after it and
/// to what was emitted.
pub open spec fn spec_step_matches(
    pending_before: Option<Seq<char>>,
    line: Seq<char>,
    is_boundary: bool,
    delimiter: char,
    qualifier: Option<char>,
    header_count: nat,
    pending_after: Option<Seq<char>>,
    emitted: Option<Seq<char>>,
) -> bool {
    spec_step(pending_before, line, is_boundary, delimiter, qualifier, header_count) == (
        pending_after,
        emitted,
    )
}

/// Reassembles logical records from physical lines. The header line is
/// consumed up front and is never emitted as a record; its delimiter count
/// is the baseline that the continuation heuristic compares against.
pub struct RecordsReader {
    pub header_line: String,
    pub header_delimiter_count: usize,
    pub temp_record: Option<String>,
    pub is_done: bool,
}

impl RecordsReader {
    /// The pending record as a sequence of characters.
    pub open spec fn pending_view(&self) -> Option<Seq<char>> {
        opt_str_view(self.temp_record)
    }

    /// Starts a reconstruction whose header baseline is taken from
    /// `header_line`.
    pub fn new(options: &TextFileOptions, header_line: String) -> (r: RecordsReader)
        ensures
            r.header_line@ == header_line@,
            r.header_delimiter_count == spec_count_char(header_line@, options.delimiter),
            r.temp_record is None,
            !r.is_done,
    {
        let hc = str_to_chars(header_line.as_str());
        let n = count_char(&hc, options.delimiter);
        RecordsReader {
            header_line,
            header_delimiter_count: n,
            temp_record: None,
            is_done: false,
        }
    }

    /// Feeds one physical line with the record-boundary decision already
    /// made; returns the logical record this line completes, if any.
    pub fn advance(&mut self, options: &TextFileOptions, line: String, is_boundary: bool) -> (r:
        Option<String>)
        requires
            options.wf(),
        ensures
            final(self).header_line == old(self).header_line,
            final(self).header_delimiter_count == old(self).header_delimiter_count,
            final(self).is_done == old(self).is_done,
            old(self).is_done ==> *final(self) == *old(self) && r is None,
            !old(self).is_done ==> spec_step_matches(
                old(self).pending_view(),
                line@,
                is_boundary,
                options.delimiter,
                options.qualifier,
                old(self).header_delimiter_count as nat,
                final(self).pending_view(),
                opt_str_view(r),
            ),
    {
        if self.is_done {
            return None;
        }
        if self.temp_record.is_none() {
            self.temp_record = Some(line);
            return None;
        }
        if is_boundary {
            let prev = self.temp_record.take();
            self.temp_record = Some(line);
            return prev;
        }
        let mut rec = self.temp_record.take().unwrap();
        if line.as_str().is_empty() {
            push_char(&mut rec, '\n');
            proof {
                assert(rec@ =~= old(self).pending_view().unwrap().push('\n'));
            }
            self.temp_record = Some(rec);
            return None;
        }
        let mut open = false;
        match options.qualifier {
            Some(q) => {
                let rc = str_to_chars(rec.as_str());
                let sp = str_to_chars(options.start_pattern.as_str());
                let ep = str_to_chars(options.end_pattern.as_str());
                if rc.len() > 0 && rc[rc.len() - 1] != q {
                    let ls = find_last(&rc, &sp);
                    let le = find_last(&rc, &ep);
                    open = match (ls, le) {
                        (Some(a), Some(b)) => a > b,
                        (Some(_), None) => true,
                        _ => false,
                    };
                }
                proof {
                    assert(open == spec_is_open(rec@, options.delimiter, q));
                }
            },
            None => {},
        }
        if open {
            push_char(&mut rec, '\r');
            rec.append(line.as_str());
            proof {
                assert(rec@ =~= old(self).pending_view().unwrap() + seq!['\r'] + line@);
            }
            self.temp_record = Some(rec);
            return None;
        }
        let lc = str_to_chars(line.as_str());
        let cnt = count_char(&lc, options.delimiter);
        if cnt != self.header_delimiter_count {
            push_char(&mut rec, '\r');
            rec.append(line.as_str());
            proof {
                assert(rec@ =~= old(self).pending_view().unwrap() + seq!['\r'] + line@);
            }
            self.temp_record = Some(rec);
            return None;
        }
        self.temp_record = Some(line);
        Some(rec)
    }

    /// Feeds one physical line, deciding the record boundary with the
    /// configured pattern. Which lines the pattern accepts is not modelled,
    /// so the state moves by one line-decision with some boundary verdict.
    pub fn push_line(&mut self, options: &TextFileOptions, line: String) -> (r: Option<String>)
        requires
            options.wf(),
        ensures
            final(self).header_line == old(self).header_line,
            final(self).header_delimiter_count == old(self).header_delimiter_count,
            final(self).is_done == old(self).is_done,
            old(self).is_done ==> *final(self) == *old(self) && r is None,
            !old(self).is_done ==> exists|b: bool|
                spec_step_matches(
                    old(self).pending_view(),
                    line@,
                    b,
                    options.delimiter,
                    options.qualifier,
                    old(self).header_delimiter_count as nat,
                    final(self).pending_view(),
                    opt_str_view(r),
                ),
    {
        if !self.is_done && self.temp_record.is_some() {
            let b = regex_is_match(&options.record_find_regex, line.as_str());
            let r = self.advance(options, line, b);
            proof {
                assert(spec_step_matches(
                    old(self).pending_view(),
                    line@,
                    b,
                    options.delimiter,
                    options.qualifier,
                    old(self).header_delimiter_count as nat,
                    self.pending_view(),
                    opt_str_view(r),
                ));
            }
            r
        } else {
            let r = self.advance(options, line, false);
            proof {
                if !old(self).is_done {
                    assert(spec_step_matches(
                        old(self).pending_view(),
                        line@,
                        false,
                        options.delimiter,
                        options.qualifier,
                        old(self).header_delimiter_count as nat,
                        self.pending_view(),
                        opt_str_view(r),
                    ));
                }
            }
            r
        }
    }

    /// Ends the line sequence: emits the pending record, if one remains, and
    /// closes the reconstruction for good.
    pub fn finish(&mut self) -> (r: Option<String>)
        ensures
            final(self).header_line == old(self).header_line,
            final(self).header_delimiter_count == old(self).header_delimiter_count,
            final(self).is_done,
            old(self).is_done ==> *final(self) == *old(self) && r is None,
            !old(self).is_done ==> opt_str_view(r) == old(self).pending_view()
                && final(self).temp_record is None,
    {
        if self.is_done {
            return None;
        }
        self.is_done = true;
        self.temp_record.take()
    }
}

/// The reconstruction run over a whole sequence of lines, where every
/// element carries a line and its boundary flag. Gives what remains pending
/// at the end, and the records completed along the way, in order.
pub open spec fn spec_run(
    pending: Option<Seq<char>>,
    inputs: Seq<(Seq<char>, bool)>,
    delimiter: char,
    qualifier: Option<char>,
    header_count: nat,
) -> (Option<Seq<char>>, Seq<Seq<char>>)
    decreases inputs.len(),
{
    if inputs.len() == 0 {
        (pending, Seq::empty())
    } else {
        let stepped = spec_step(
            pending,
            inputs[0].0,
            inputs[0].1,
            delimiter,
            qualifier,
            header_count,
        );
        let rest = spec_run(stepped.0, inputs.drop_first(), delimiter, qualifier, header_count);
        (
            rest.0,
            match stepped.1 {
                Some(rec) => seq![rec] + rest.1,
                None => rest.1,
            },
        )
    }
}

proof fn lemma_run_unfold(
    pending: Option<Seq<char>>,
    inputs: Seq<(Seq<char>, bool)>,
    delimiter: char,
    qualifier: Option<char>,
    header_count: nat,
)
    requires
        inputs.len() > 0,
    ensures
        spec_run(pending, inputs, delimiter, qualifier, header_count) == ({
            let stepped = spec_step(
                pending,
                inputs[0].0,
                inputs[0].1,
                delimiter,
                qualifier,
                header_count,
            );
            let rest = spec_run(stepped.0, inputs.drop_first(), delimiter, qualifier, header_count);
            (
                rest.0,
                match stepped.1 {
                    Some(rec) => seq![rec] + rest.1,
                    None => rest.1,
                },
            )
        }),
{
}

/// A non-empty line whose delimiter count equals the header baseline never
/// merges into the pending record, as long as no open qualified value
/// bridges them: the pending record is completed and the line starts the
/// next one, whatever the boundary verdict says.
pub proof fn lemma_baseline_line_not_merged(
    pending: Seq<char>,
    line: Seq<char>,
    is_boundary: bool,
    delimiter: char,
    qualifier: Option<char>,
    header_count: nat,
)
    requires
        line.len() > 0,
        spec_count_char(line, delimiter) == header_count,
        !(qualifier is Some && spec_is_open(pending, delimiter, qualifier_or_nul(qualifier))),
    ensures
        spec_step(Some(pending), line, is_boundary, delimiter, qualifier, header_count) == (
            Some(line),
            Some(pending),
        ),
{
}

/// While the pending record stands inside an open qualified value, a
/// non-boundary, non-empty line only continues it: nothing is emitted.
pub proof fn lemma_open_value_line_continues(
    pending: Seq<char>,
    line: Seq<char>,
    delimiter: char,
    qualifier: Option<char>,
    header_count: nat,
)
    requires
        line.len() > 0,
        qualifier is Some,
        spec_is_open(pending, delimiter, qualifier_or_nul(qualifier)),
    ensures
        spec_step(Some(pending), line, false, delimiter, qualifier, header_count) == (
            Some(pending + seq!['\r'] + line),
            None::<Seq<char>>,
        ),
{
}

/// A record whose every embedded line break falls inside an open qualified
/// value is never split, however many physical lines it spans: as long as no
/// following line is a boundary line and each is either empty or reached
/// while the pending record stands open, the run emits no record at all.
pub proof fn lemma_open_record_never_split(
    pending: Seq<char>,
    inputs: Seq<(Seq<char>, bool)>,
    delimiter: char,
    qualifier: Option<char>,
    header_count: nat,
)
    requires
        qualifier is Some,
        forall|i: int| 0 <= i < inputs.len() ==> !(#[trigger] inputs[i]).1,
        forall|i: int|
            0 <= i < inputs.len() ==> {
                let before = spec_run(
                    Some(pending),
                    inputs.take(i),
                    delimiter,
                    qualifier,
                    header_count,
                ).0;
                (#[trigger] inputs[i]).0.len() == 0 || (before is Some && spec_is_open(
                    before.unwrap(),
                    delimiter,
                    qualifier_or_nul(qualifier),
                ))
            },
    ensures
        spec_run(Some(pending), inputs, delimiter, qualifier, header_count).1
            == Seq::<Seq<char>>::empty(),
        spec_run(Some(pending), inputs, delimiter, qualifier, header_count).0 is Some,
    decreases inputs.len(),
{
    if inputs.len() == 0 {
    } else {
        let st = spec_step(
            Some(pending),
            inputs[0].0,
            inputs[0].1,
            delimiter,
            qualifier,
            header_count,
        );
        assert(inputs.take(0) =~= Seq::<(Seq<char>, bool)>::empty());
        assert(spec_run(Some(pending), inputs.take(0), delimiter, qualifier, header_count).0
            == Some(pending));
        assert(!inputs[0].1);
        assert(st.1 is None && st.0 is Some);
        let p2 = st.0.unwrap();
        let tail = inputs.drop_first();
        assert forall|i: int| 0 <= i < tail.len() implies !(#[trigger] tail[i]).1 by {
            assert(tail[i] == inputs[i + 1]);
        }
        assert forall|i: int| 0 <= i < tail.len() implies {
            let before = spec_run(Some(p2), tail.take(i), delimiter, qualifier, header_count).0;
            (#[trigger] tail[i]).0.len() == 0 || (before is Some && spec_is_open(
                before.unwrap(),
                delimiter,
                qualifier_or_nul(qualifier),
            ))
        } by {
            assert(tail[i] == inputs[i + 1]);
            lemma_run_unfold(Some(pending), inputs.take(i + 1), delimiter, qualifier, header_count);
            assert(inputs.take(i + 1)[0] == inputs[0]);
            assert(inputs.take(i + 1).drop_first() =~= tail.take(i));
            assert(spec_run(Some(pending), inputs.take(i + 1), delimiter, qualifier, header_count).0
                == spec_run(Some(p2), tail.take(i), delimiter, qualifier, header_count).0);
        }
        lemma_open_record_never_split(p2, tail, delimiter, qualifier, header_count);
        lemma_run_unfold(Some(pending), inputs, delimiter, qualifier, header_count);
    }
}

/// Re-running the reconstruction over the same lines with the same boundary
/// verdicts, from the same starting state, gives the identical sequence of
/// logical records and the identical final pending record.
pub proof fn lemma_run_deterministic(
    pending_a: Option<Seq<char>>,
    pending_b: Option<Seq<char>>,
    inputs_a: Seq<(Seq<char>, bool)>,
    inputs_b: Seq<(Seq<char>, bool)>,
    delimiter: char,
    qualifier: Option<char>,
    header_count: nat,
)
    requires
        pending_a == pending_b,
        inputs_a == inputs_b,
    ensures
        spec_run(pending_a, inputs_a, delimiter, qualifier, header_count) == spec_run(
            pending_b,
            inputs_b,
            delimiter,
            qualifier,
            header_count,
        ),
{
}

} // verus!
