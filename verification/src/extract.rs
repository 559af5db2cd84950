//! Field extraction for the general (not all-qualified) mode: a single pass
//! over the record with one character of look-behind, tracking whether the
//! scan is inside a qualified (quoted) value, plus the test that flags a
//! field holding an unescaped qualifier character.

use vstd::prelude::*;

use crate::chars::{chars_to_string, str_to_chars};

verus! {

/// State of the extraction scan: the flag saying whether the scan stands
/// inside a qualified value, the field being accumulated, the side buffer of
/// unqualified characters, and the fields already completed.
pub ghost struct ScanState {
    pub in_qualified: bool,
    pub field: Seq<char>,
    pub side: Seq<char>,
    pub fields: Seq<Seq<char>>,
}

pub open spec fn scan_init() -> ScanState {
    ScanState { in_qualified: false, field: Seq::empty(), side: Seq::empty(), fields: Seq::empty() }
}

/// One step of the scan, seeing the look-behind character `prev` and the
/// current character `cur`. At the start of the record the look-behind is the
/// delimiter itself, so a record opening with a qualifier enters a qualified
/// value at once.
pub open spec fn scan_step(st: ScanState, prev: char, cur: char, q: char, d: char) -> ScanState {
    if !st.in_qualified && prev == q && cur == d {
        // A qualified value ends here while none was open: fold the side
        // buffer into the field being accumulated.
        ScanState { field: st.field + st.side, side: Seq::empty(), ..st }
    } else if !st.in_qualified && prev == d && cur == q {
        // A qualified value opens: complete the field accumulated so far, if
        // any, and discard the side buffer.
        ScanState {
            in_qualified: true,
            field: Seq::empty(),
            side: Seq::empty(),
            fields: if st.field.len() > 0 {
                st.fields.push(st.field)
            } else {
                st.fields
            },
        }
    } else {
        let st1 = if st.in_qualified && prev == q && cur == d {
            ScanState { in_qualified: false, side: Seq::empty(), ..st }
        } else {
            st
        };
        if st1.in_qualified {
            if prev == q && st1.field.len() == 0 {
                // The opening qualifier itself is not field content.
                st1
            } else {
                ScanState { field: st1.field.push(prev), ..st1 }
            }
        } else {
            ScanState { side: st1.side.push(prev), ..st1 }
        }
    }
}

/// The look-behind character for step `i`: the delimiter at the record's
/// start, else the preceding character.
pub open spec fn scan_prev(rec: Seq<char>, i: int, d: char) -> char {
    if i == 0 {
        d
    } else {
        rec[i - 1]
    }
}

/// The scan state after the first `n` steps over `rec`.
pub open spec fn scan_upto(rec: Seq<char>, q: char, d: char, n: int) -> ScanState
    decreases n,
{
    if n <= 0 {
        scan_init()
    } else {
        scan_step(scan_upto(rec, q, d, n - 1), scan_prev(rec, n - 1, d), rec[n - 1], q, d)
    }
}

/// The fields the scan extracts from `rec`: the completed fields, and the
/// field still being accumulated when the record ends, if it is not empty.
pub open spec fn spec_extract(rec: Seq<char>, q: char, d: char) -> Seq<Seq<char>> {
    let st = scan_upto(rec, q, d, rec.len() as int);
    if st.field.len() > 0 {
        st.fields.push(st.field)
    } else {
        st.fields
    }
}

/// Extracts the field values of one record in general mode: `qualifier` is
/// the quoting character and `delimiter` separates fields.
pub fn extract_qualified_values(qualifier: &char, delimiter: &char, record: &String) -> (r: Vec<
    String,
>)
    ensures
        r.deep_view() == spec_extract(record@, *qualifier, *delimiter),
{
    let q = *qualifier;
    let d = *delimiter;
    let rec = str_to_chars(record.as_str());
    let mut in_qualified = false;
    let mut field: Vec<char> = Vec::new();
    let mut side: Vec<char> = Vec::new();
    let mut fields: Vec<Vec<char>> = Vec::new();
    let mut i: usize = 0;
    proof {
        assert(fields.deep_view() =~= Seq::<Seq<char>>::empty());
    }
    while i < rec.len()
        invariant
            0 <= i <= rec@.len(),
            rec@ == record@,
            scan_upto(record@, q, d, i as int).in_qualified == in_qualified,
            scan_upto(record@, q, d, i as int).field == field@,
            scan_upto(record@, q, d, i as int).side == side@,
            scan_upto(record@, q, d, i as int).fields == fields.deep_view(),
        decreases rec@.len() - i,
    {
        let ghost st_old = scan_upto(record@, q, d, i as int);
        let prev = if i == 0 {
            d
        } else {
            rec[i - 1]
        };
        let cur = rec[i];
        proof {
            assert(scan_upto(record@, q, d, i + 1) == scan_step(st_old, prev, cur, q, d));
        }
        if !in_qualified && prev == q && cur == d {
            let ghost fields_old = fields.deep_view();
            field.append(&mut side);
            proof {
                assert(fields.deep_view() == fields_old);
            }
        } else if !in_qualified && prev == d && cur == q {
            in_qualified = true;
            if field.len() > 0 {
                let ghost fields_old = fields.deep_view();
                let done = field;
                fields.push(done);
                field = Vec::new();
                proof {
                    assert(done.deep_view() =~= done@);
                    assert(fields.deep_view() =~= fields_old.push(done@));
                }
            }
            side.clear();
        } else {
            if in_qualified && prev == q && cur == d {
                in_qualified = false;
                side.clear();
            }
            if in_qualified {
                if !(prev == q && field.len() == 0) {
                    field.push(prev);
                }
            } else {
                side.push(prev);
            }
        }
        i = i + 1;
    }
    let mut out: Vec<String> = Vec::new();
    let mut j: usize = 0;
    proof {
        assert(out.deep_view() =~= Seq::<Seq<char>>::empty());
        assert(fields.deep_view().take(0) =~= Seq::<Seq<char>>::empty());
    }
    while j < fields.len()
        invariant
            0 <= j <= fields@.len(),
            fields@.len() == fields.deep_view().len(),
            out.deep_view() =~= fields.deep_view().take(j as int),
        decreases fields@.len() - j,
    {
        let ghost out_old = out.deep_view();
        let s = chars_to_string(&fields[j]);
        out.push(s);
        proof {
            assert(fields.deep_view()[j as int] == fields[j as int]@);
            assert(out.deep_view() =~= out_old.push(s@));
            assert(fields.deep_view().take(j + 1) =~= fields.deep_view().take(j as int).push(
                fields.deep_view()[j as int],
            ));
        }
        j = j + 1;
    }
    proof {
        assert(fields.deep_view().take(fields.deep_view().len() as int) =~= fields.deep_view());
    }
    if field.len() > 0 {
        let ghost out_old = out.deep_view();
        let last = chars_to_string(&field);
        out.push(last);
        proof {
            assert(out.deep_view() =~= out_old.push(last@));
        }
    }
    out
}

/// The character of `s` at position `i`, or the null sentinel where `i` lies
/// outside `s`.
pub open spec fn char_at_or_nul(s: Seq<char>, i: int) -> char {
    if 0 <= i < s.len() {
        s[i]
    } else {
        '\0'
    }
}

/// A field holds an unescaped qualifier: some position holds the qualifier
/// character with neither neighbour (boundaries counting as the null
/// sentinel) holding it too.
pub open spec fn spec_has_unescaped(q: char, s: Seq<char>) -> bool {
    exists|i: int|
        0 <= i < s.len() && s[i] == q && char_at_or_nul(s, i - 1) != q && char_at_or_nul(s, i + 1)
            != q
}

/// Whether the field `s` holds a qualifier character that is not escaped by
/// an adjacent qualifier.
pub fn has_unescaped(q: char, s: &Vec<char>) -> (r: bool)
    ensures
        r == spec_has_unescaped(q, s@),
{
    let n = s.len();
    let mut i: usize = 0;
    while i < n
        invariant
            0 <= i <= s@.len(),
            n == s@.len(),
            forall|p: int|
                0 <= p < i ==> !(s@[p] == q && char_at_or_nul(s@, p - 1) != q && char_at_or_nul(
                    s@,
                    p + 1,
                ) != q),
        decreases n - i,
    {
        if s[i] == q {
            let before_ok = if i == 0 {
                '\0' != q
            } else {
                s[i - 1] != q
            };
            let after_ok = if i + 1 >= n {
                '\0' != q
            } else {
                s[i + 1] != q
            };
            if before_ok && after_ok {
                assert(s@[i as int] == q && char_at_or_nul(s@, i as int - 1) != q && char_at_or_nul(
                    s@,
                    i as int + 1,
                ) != q);
                return true;
            }
        }
        i = i + 1;
    }
    false
}

} // verus!
