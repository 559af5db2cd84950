//! Configuration of one file scan: delimiter, optional qualifier, the derived
//! quoting patterns, and the rolling all-qualified state that the escape
//! analyzer threads through a scan, together with the escape analyzer itself.

use vstd::prelude::*;

use crate::chars::{
    contains_char, count_char, count_matches, chars_to_string, spec_count_char,
    spec_count_matches, spec_split, split_on, str_to_chars, subvec, vecs_to_strings,
};
use crate::extract::{extract_qualified_values, has_unescaped, spec_extract, spec_has_unescaped};

verus! {

/// The qualifier character that enters the derived patterns: the configured
/// one, or the null character when none is configured.
pub open spec fn qualifier_or_nul(q: Option<char>) -> char {
    match q {
        Some(c) => c,
        None => '\0',
    }
}

/// Parsing configuration for one file, plus the rolling all-qualified state
/// owned by that file's scan.
pub struct TextFileOptions {
    pub record_find_regex: regex::Regex,
    pub delimiter: char,
    pub qualifier: Option<char>,
    pub all_qualified_pattern: String,
    pub start_pattern: String,
    pub end_pattern: String,
    pub file_name: String,
    pub all_qualified_count: i32,
    pub is_all_qualified: bool,
}

impl TextFileOptions {
    /// Well-formedness: the derived patterns agree with the configured
    /// delimiter and qualifier, the qualifier differs from the delimiter,
    /// and the rolling counter stays in its small range.
    pub open spec fn wf(&self) -> bool {
        let q0 = qualifier_or_nul(self.qualifier);
        &&& self.qualifier != Some(self.delimiter)
        &&& self.start_pattern@ == seq![self.delimiter, q0]
        &&& self.end_pattern@ == seq![q0, self.delimiter]
        &&& self.all_qualified_pattern@ == seq![q0, self.delimiter, q0]
        &&& 0 <= self.all_qualified_count <= 10
    }

    /// The immutable configuration of `a` and `b` agree; only the rolling
    /// all-qualified state may differ.
    pub open spec fn same_config(a: &TextFileOptions, b: &TextFileOptions) -> bool {
        &&& a.record_find_regex == b.record_find_regex
        &&& a.delimiter == b.delimiter
        &&& a.qualifier == b.qualifier
        &&& a.all_qualified_pattern == b.all_qualified_pattern
        &&& a.start_pattern == b.start_pattern
        &&& a.end_pattern == b.end_pattern
        &&& a.file_name == b.file_name
    }

    /// Builds the configuration for one file. The qualifier, when one is
    /// configured, must differ from the delimiter; that is a construction
    /// error, not a scanning one.
    pub fn new(
        file_name: String,
        record_find_regex: regex::Regex,
        delimiter: char,
        qualifier: Option<char>,
    ) -> (r: Result<TextFileOptions, String>)
        ensures
            match r {
                Ok(o) => {
                    &&& o.wf()
                    &&& o.delimiter == delimiter
                    &&& o.qualifier == qualifier
                    &&& o.file_name@ == file_name@
                    &&& o.all_qualified_count == 0
                    &&& !o.is_all_qualified
                    &&& qualifier != Some(delimiter)
                },
                Err(m) => qualifier == Some(delimiter) && m@
                    == "the qualifier must differ from the delimiter"@,
            },
    {
        let q0: char = match qualifier {
            Some(c) => {
                if c == delimiter {
                    return Err(String::from_str("the qualifier must differ from the delimiter"));
                }
                c
            },
            None => '\0',
        };
        let mut sp: Vec<char> = Vec::new();
        sp.push(delimiter);
        sp.push(q0);
        let mut ep: Vec<char> = Vec::new();
        ep.push(q0);
        ep.push(delimiter);
        let mut ap: Vec<char> = Vec::new();
        ap.push(q0);
        ap.push(delimiter);
        ap.push(q0);
        proof {
            assert(sp@ =~= seq![delimiter, q0]);
            assert(ep@ =~= seq![q0, delimiter]);
            assert(ap@ =~= seq![q0, delimiter, q0]);
        }
        Ok(TextFileOptions {
            record_find_regex,
            delimiter,
            qualifier,
            all_qualified_pattern: chars_to_string(&ap),
            start_pattern: chars_to_string(&sp),
            end_pattern: chars_to_string(&ep),
            file_name,
            all_qualified_count: 0,
            is_all_qualified: false,
        })
    }
}

/// Whether the qualifier character occurs anywhere in the record.
pub fn qualifier_in_record(qualifier: &char, record: &str) -> (r: bool)
    ensures
        r == record@.contains(*qualifier),
{
    let chars = str_to_chars(record);
    contains_char(&chars, *qualifier)
}

/// The all-qualified test on one record: after stripping one trailing
/// qualifier character (when the record ends with one), the delimiter
/// occurrence count equals the occurrence count of the all-qualified pattern.
pub open spec fn spec_check_all_qualified(
    delimiter: char,
    qualifier: char,
    all_qualified_pattern: Seq<char>,
    record: Seq<char>,
) -> bool {
    let check = if record.len() > 0 && record.last() == qualifier {
        record.drop_last()
    } else {
        record
    };
    spec_count_char(check, delimiter) == spec_count_matches(check, all_qualified_pattern)
}

/// Tests whether every field of `record` is fully wrapped in qualifiers, by
/// comparing the delimiter count with the all-qualified-pattern count.
pub fn check_all_qualified(
    delimiter: &char,
    qualifier: &char,
    all_qualified_pattern: &str,
    record: &str,
) -> (r: bool)
    ensures
        r == spec_check_all_qualified(*delimiter, *qualifier, all_qualified_pattern@, record@),
{
    let rec = str_to_chars(record);
    let pat = str_to_chars(all_qualified_pattern);
    let n = rec.len();
    let check: Vec<char> = if n > 0 && rec[n - 1] == *qualifier {
        subvec(&rec, 0, n - 1)
    } else {
        subvec(&rec, 0, n)
    };
    proof {
        if record@.len() > 0 && record@.last() == *qualifier {
            assert(check@ =~= record@.drop_last());
        } else {
            assert(check@ =~= record@);
        }
    }
    count_char(&check, *delimiter) == count_matches(&check, &pat)
}

impl TextFileOptions {
    /// The all-qualified test using this configuration's own pattern; false
    /// when no qualifier is configured.
    pub fn check_all_qualified(&self, record: &str) -> (r: bool)
        ensures
            r == match self.qualifier {
                None => false,
                Some(q) => spec_check_all_qualified(
                    self.delimiter,
                    q,
                    self.all_qualified_pattern@,
                    record@,
                ),
            },
    {
        let q = match self.qualifier {
            Some(q) => q,
            None => {
                return false;
            },
        };
        check_all_qualified(&self.delimiter, &q, self.all_qualified_pattern.as_str(), record)
    }
}

/// The inner content of an all-qualified record: the record with its first
/// character and its last two characters stripped (the outer quoting);
/// records of fewer than three characters have no inner content.
pub open spec fn inner_of(rec: Seq<char>) -> Seq<char> {
    if rec.len() >= 3 {
        rec.subrange(1, rec.len() - 2)
    } else {
        Seq::empty()
    }
}

/// The fields of `fields` that hold an unescaped qualifier, in their original
/// order.
pub open spec fn spec_anomalies(q: char, fields: Seq<Seq<char>>) -> Seq<Seq<char>>
    decreases fields.len(),
{
    if fields.len() == 0 {
        Seq::empty()
    } else {
        spec_anomalies(q, fields.drop_last()) + if spec_has_unescaped(q, fields.last()) {
            seq![fields.last()]
        } else {
            Seq::empty()
        }
    }
}

proof fn lemma_anomalies_unfold(q: char, fields: Seq<Seq<char>>)
    requires
        fields.len() > 0,
    ensures
        spec_anomalies(q, fields) == spec_anomalies(q, fields.drop_last()) + if spec_has_unescaped(
            q,
            fields.last(),
        ) {
            seq![fields.last()]
        } else {
            Seq::<Seq<char>>::empty()
        },
{
}

/// Field lengths never increase along the sequence.
pub open spec fn sorted_desc_by_len(fs: Seq<Seq<char>>) -> bool {
    forall|i: int, j: int| 0 <= i <= j < fs.len() ==> fs[i].len() >= fs[j].len()
}

/// Orders the strings by descending character length; strings of equal
/// length may come out in any order.
fn sort_by_len_desc(input: Vec<String>) -> (r: Vec<String>)
    ensures
        r.deep_view().to_multiset() == input.deep_view().to_multiset(),
        sorted_desc_by_len(r.deep_view()),
{
    broadcast use vstd::seq_lib::group_to_multiset_ensures;

    let ghost orig = input.deep_view().to_multiset();
    let mut src = input;
    let mut out: Vec<String> = Vec::new();
    proof {
        assert(out.deep_view() =~= Seq::<Seq<char>>::empty());
        assert(out.deep_view().to_multiset().add(src.deep_view().to_multiset()) =~= orig);
    }
    while src.len() > 0
        invariant
            out.deep_view().to_multiset().add(src.deep_view().to_multiset()) == orig,
            sorted_desc_by_len(out.deep_view()),
            forall|a: int, b: int|
                0 <= a < out.deep_view().len() && 0 <= b < src.deep_view().len()
                    ==> out.deep_view()[a].len() >= src.deep_view()[b].len(),
        decreases src@.len(),
    {
        let mut best: usize = 0;
        let mut best_len = src[0].as_str().unicode_len();
        let mut k: usize = 1;
        while k < src.len()
            invariant
                0 <= best < k <= src@.len(),
                src@.len() == src.deep_view().len(),
                best_len == src.deep_view()[best as int].len(),
                forall|m: int|
                    0 <= m < k ==> src.deep_view()[m].len() <= src.deep_view()[best as int].len(),
            decreases src@.len() - k,
        {
            let l = src[k].as_str().unicode_len();
            if l > best_len {
                best = k;
                best_len = l;
            }
            k = k + 1;
        }
        let ghost src_old = src.deep_view();
        let ghost out_old = out.deep_view();
        let chosen = src.remove(best);
        out.push(chosen);
        proof {
            assert(chosen@ == src_old[best as int]);
            assert(src.deep_view() =~= src_old.remove(best as int));
            assert(out.deep_view() =~= out_old.push(chosen@));
            vstd::seq_lib::to_multiset_remove(src_old, best as int);
            vstd::seq_lib::to_multiset_build(out_old, chosen@);
            assert(src_old.contains(src_old[best as int]));
            vstd::seq_lib::to_multiset_contains(src_old, chosen@);
            assert(src_old.to_multiset().count(chosen@) > 0);
            assert(out.deep_view().to_multiset().add(src.deep_view().to_multiset()) =~= orig);
        }
    }
    out
}

impl TextFileOptions {
    /// Analyzes one record, in record order. The first ten records feed the
    /// all-qualified mode detection; the record's fields are then extracted
    /// (by pattern split in all-qualified mode, by the look-behind scan
    /// otherwise) and the fields holding an unescaped qualifier come back,
    /// longest first. With no qualifier configured, or none occurring in the
    /// record, nothing is flagged and the state does not change.
    pub fn check_non_escaped_qualifiers(&mut self, record_num: usize, record: &String) -> (r: Vec<
        String,
    >)
        requires
            old(self).wf(),
        ensures
            final(self).wf(),
            TextFileOptions::same_config(final(self), old(self)),
            old(self).is_all_qualified ==> final(self).is_all_qualified,
            old(self).qualifier is None ==> *final(self) == *old(self) && r.deep_view()
                == Seq::<Seq<char>>::empty(),
            old(self).qualifier is Some && !record@.contains(
                qualifier_or_nul(old(self).qualifier),
            ) ==> *final(self) == *old(self) && r.deep_view() == Seq::<Seq<char>>::empty(),
            old(self).qualifier is Some && record@.contains(
                qualifier_or_nul(old(self).qualifier),
            ) ==> {
                let q = qualifier_or_nul(old(self).qualifier);
                let qualifies = record_num < 10 && spec_check_all_qualified(
                    old(self).delimiter,
                    q,
                    old(self).all_qualified_pattern@,
                    record@,
                );
                let fields = if final(self).is_all_qualified {
                    spec_split(inner_of(record@), old(self).all_qualified_pattern@)
                } else {
                    spec_extract(record@, q, old(self).delimiter)
                };
                &&& final(self).all_qualified_count as int == if qualifies && old(
                    self,
                ).all_qualified_count < 10 {
                    old(self).all_qualified_count + 1
                } else {
                    old(self).all_qualified_count as int
                }
                &&& final(self).is_all_qualified == (old(self).is_all_qualified || (qualifies
                    && final(self).all_qualified_count >= 9))
                &&& r.deep_view().to_multiset() == spec_anomalies(q, fields).to_multiset()
                &&& sorted_desc_by_len(r.deep_view())
            },
    {
        let q: char;
        match self.qualifier {
            Some(c) => {
                q = c;
            },
            None => {
                let r: Vec<String> = Vec::new();
                proof {
                    assert(r.deep_view() =~= Seq::<Seq<char>>::empty());
                }
                return r;
            },
        }
        if !qualifier_in_record(&q, record.as_str()) {
            let r: Vec<String> = Vec::new();
            proof {
                assert(r.deep_view() =~= Seq::<Seq<char>>::empty());
            }
            return r;
        }
        let qualifies = record_num < 10 && check_all_qualified(
            &self.delimiter,
            &q,
            self.all_qualified_pattern.as_str(),
            record.as_str(),
        );
        if qualifies {
            if self.all_qualified_count < 10 {
                self.all_qualified_count = self.all_qualified_count + 1;
            }
            if self.all_qualified_count >= 9 {
                self.is_all_qualified = true;
            }
        }
        let checks: Vec<String> = if self.is_all_qualified {
            let rec = str_to_chars(record.as_str());
            let inner: Vec<char> = if rec.len() >= 3 {
                subvec(&rec, 1, rec.len() - 2)
            } else {
                Vec::new()
            };
            proof {
                assert(inner@ =~= inner_of(record@));
            }
            let pat = str_to_chars(self.all_qualified_pattern.as_str());
            let pieces = split_on(&inner, &pat);
            vecs_to_strings(&pieces)
        } else {
            extract_qualified_values(&q, &self.delimiter, record)
        };
        let mut kept: Vec<String> = Vec::new();
        let mut i: usize = 0;
        proof {
            assert(kept.deep_view() =~= Seq::<Seq<char>>::empty());
            assert(checks.deep_view().take(0) =~= Seq::<Seq<char>>::empty());
        }
        while i < checks.len()
            invariant
                0 <= i <= checks@.len(),
                checks@.len() == checks.deep_view().len(),
                kept.deep_view() =~= spec_anomalies(q, checks.deep_view().take(i as int)),
            decreases checks@.len() - i,
        {
            let cv = str_to_chars(checks[i].as_str());
            let ghost kept_old = kept.deep_view();
            let flagged = has_unescaped(q, &cv);
            if flagged {
                let picked = checks[i].clone();
                kept.push(picked);
                proof {
                    assert(kept.deep_view() =~= kept_old.push(checks.deep_view()[i as int]));
                }
            }
            proof {
                let pre = checks.deep_view().take(i as int);
                let cur = checks.deep_view().take(i + 1);
                assert(cur.drop_last() =~= pre);
                assert(cur.last() == checks.deep_view()[i as int]);
                assert(cv@ == checks.deep_view()[i as int]);
                assert(cur.len() == i + 1);
                lemma_anomalies_unfold(q, cur);
                if spec_has_unescaped(q, checks.deep_view()[i as int]) {
                    assert(spec_anomalies(q, cur) =~= spec_anomalies(q, pre).push(cur.last()));
                } else {
                    assert(spec_anomalies(q, pre) + Seq::<Seq<char>>::empty() =~= spec_anomalies(
                        q,
                        pre,
                    ));
                    assert(spec_anomalies(q, cur) =~= spec_anomalies(q, pre));
                }
            }
            i = i + 1;
        }
        proof {
            assert(checks.deep_view().take(checks.deep_view().len() as int) =~= checks.deep_view());
        }
        sort_by_len_desc(kept)
    }
}

} // verus!
