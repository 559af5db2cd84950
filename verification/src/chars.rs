//! Character-sequence primitives shared by the record reconstructor and the
//! escape analyzer: occurrence counting, pattern searching, and splitting,
//! each specified over `Seq<char>`.

use vstd::prelude::*;

verus! {

/// Number of occurrences of the character `c` in `s`.
pub open spec fn spec_count_char(s: Seq<char>, c: char) -> nat
    decreases s.len(),
{
    if s.len() == 0 {
        0
    } else if s[0] == c {
        1 + spec_count_char(s.drop_first(), c)
    } else {
        spec_count_char(s.drop_first(), c)
    }
}

/// Counts how many characters of `s` equal `c`.
pub fn count_char(s: &Vec<char>, c: char) -> (n: usize)
    ensures
        n == spec_count_char(s@, c),
{
    let mut n: usize = 0;
    let mut i: usize = 0;
    while i < s.len()
        invariant
            0 <= i <= s@.len(),
            n == spec_count_char(s@.take(i as int), c),
            n <= i,
        decreases s@.len() - i,
    {
        proof {
            lemma_count_char_take_push(s@, c, i as int);
        }
        if s[i] == c {
            n = n + 1;
        }
        i = i + 1;
    }
    proof {
        assert(s@.take(s@.len() as int) =~= s@);
    }
    n
}

proof fn lemma_count_char_take_push(s: Seq<char>, c: char, i: int)
    requires
        0 <= i < s.len(),
    ensures
        spec_count_char(s.take(i + 1), c) == spec_count_char(s.take(i), c) + if s[i] == c {
            1nat
        } else {
            0nat
        },
    decreases i,
{
    if i == 0 {
        assert(s.take(1) =~= seq![s[0]]);
        assert(s.take(1).drop_first() =~= s.take(0));
    } else {
        assert(s.take(i + 1).drop_first() =~= s.drop_first().take(i));
        assert(s.take(i).drop_first() =~= s.drop_first().take(i - 1));
        lemma_count_char_take_push(s.drop_first(), c, i - 1);
        assert(s.take(i + 1)[0] == s[0]);
        assert(s.take(i)[0] == s[0]);
    }
}

/// The pattern `pat` occurs in `s` starting at position `i`.
pub open spec fn spec_match_at(s: Seq<char>, pat: Seq<char>, i: int) -> bool {
    0 <= i && i + pat.len() <= s.len() && s.subrange(i, i + pat.len()) == pat
}

pub proof fn lemma_match_at_shift(s: Seq<char>, pat: Seq<char>, k: int, i: int)
    requires
        0 <= k <= s.len(),
        0 <= i,
    ensures
        spec_match_at(s.skip(k), pat, i) <==> spec_match_at(s, pat, k + i),
{
    if i + pat.len() <= s.len() - k {
        assert(s.skip(k).subrange(i, i + pat.len()) =~= s.subrange(k + i, k + i + pat.len()));
    }
}

/// Position of the leftmost occurrence of `pat` in `s`, or -1 if there is none.
pub open spec fn spec_first_match(s: Seq<char>, pat: Seq<char>) -> int
    decreases s.len(),
{
    if pat.len() == 0 || s.len() < pat.len() {
        -1
    } else if spec_match_at(s, pat, 0) {
        0
    } else {
        let r = spec_first_match(s.drop_first(), pat);
        if r < 0 {
            -1
        } else {
            r + 1
        }
    }
}

pub proof fn lemma_first_match_spec(s: Seq<char>, pat: Seq<char>)
    requires
        pat.len() >= 1,
    ensures
        spec_first_match(s, pat) >= -1,
        spec_first_match(s, pat) == -1 ==> forall|i: int| !spec_match_at(s, pat, i),
        spec_first_match(s, pat) >= 0 ==> spec_match_at(s, pat, spec_first_match(s, pat)),
        spec_first_match(s, pat) >= 0 ==> forall|i: int|
            0 <= i < spec_first_match(s, pat) ==> !spec_match_at(s, pat, i),
    decreases s.len(),
{
    if s.len() < pat.len() {
        assert(forall|i: int| !spec_match_at(s, pat, i));
    } else if spec_match_at(s, pat, 0) {
    } else {
        lemma_first_match_spec(s.drop_first(), pat);
        assert(forall|i: int|
            0 <= i ==> (spec_match_at(s.drop_first(), pat, i) <==> spec_match_at(s, pat, i + 1)))
            by {
            assert forall|i: int| 0 <= i implies (spec_match_at(s.drop_first(), pat, i)
                <==> spec_match_at(s, pat, i + 1)) by {
                lemma_match_at_shift(s, pat, 1, i);
            }
        }
        let r = spec_first_match(s.drop_first(), pat);
        if r < 0 {
            assert forall|i: int| !spec_match_at(s, pat, i) by {
                if 1 <= i {
                    assert(!spec_match_at(s.drop_first(), pat, i - 1));
                }
            }
        } else {
            assert(spec_match_at(s, pat, r + 1));
            assert forall|i: int| 0 <= i < r + 1 implies !spec_match_at(s, pat, i) by {
                if 1 <= i {
                    assert(!spec_match_at(s.drop_first(), pat, i - 1));
                }
            }
        }
    }
}

/// Position of the rightmost occurrence of `pat` in `s`, or -1 if there is none.
pub open spec fn spec_last_match(s: Seq<char>, pat: Seq<char>) -> int
    decreases s.len(),
{
    if pat.len() == 0 || s.len() < pat.len() {
        -1
    } else if spec_match_at(s, pat, s.len() - pat.len()) {
        s.len() - pat.len()
    } else {
        spec_last_match(s.take(s.len() - 1), pat)
    }
}

pub proof fn lemma_last_match_spec(s: Seq<char>, pat: Seq<char>)
    requires
        pat.len() >= 1,
    ensures
        spec_last_match(s, pat) >= -1,
        spec_last_match(s, pat) == -1 ==> forall|i: int| !spec_match_at(s, pat, i),
        spec_last_match(s, pat) >= 0 ==> spec_match_at(s, pat, spec_last_match(s, pat)),
        spec_last_match(s, pat) >= 0 ==> forall|i: int|
            spec_last_match(s, pat) < i ==> !spec_match_at(s, pat, i),
    decreases s.len(),
{
    if s.len() < pat.len() {
        assert(forall|i: int| !spec_match_at(s, pat, i));
    } else if spec_match_at(s, pat, s.len() - pat.len()) {
        assert(forall|i: int| i > s.len() - pat.len() ==> !spec_match_at(s, pat, i));
    } else {
        lemma_last_match_spec(s.take(s.len() - 1), pat);
        assert(forall|i: int|
            0 <= i ==> (spec_match_at(s.take(s.len() - 1), pat, i) <==> spec_match_at(
                s,
                pat,
                i,
            ) && i + pat.len() <= s.len() - 1)) by {
            assert forall|i: int| 0 <= i implies (spec_match_at(s.take(s.len() - 1), pat, i)
                <==> spec_match_at(s, pat, i) && i + pat.len() <= s.len() - 1) by {
                if i + pat.len() <= s.len() - 1 {
                    assert(s.take(s.len() - 1).subrange(i, i + pat.len()) =~= s.subrange(
                        i,
                        i + pat.len(),
                    ));
                }
            }
        }
    }
}

/// Number of non-overlapping occurrences of `pat` in `s`, scanning from the
/// left, as `str::matches` counts them.
pub open spec fn spec_count_matches(s: Seq<char>, pat: Seq<char>) -> nat
    decreases s.len(),
{
    if pat.len() == 0 || s.len() < pat.len() {
        0
    } else if spec_match_at(s, pat, 0) {
        1 + spec_count_matches(s.skip(pat.len() as int), pat)
    } else {
        spec_count_matches(s.skip(1), pat)
    }
}

proof fn lemma_skip_skip(s: Seq<char>, a: int, b: int)
    requires
        0 <= a,
        0 <= b,
        a + b <= s.len(),
    ensures
        s.skip(a).skip(b) =~= s.skip(a + b),
{
}

/// Splitting on non-overlapping leftmost occurrences of `pat`, as
/// `str::split` does; a pattern of no characters splits nothing off.
pub open spec fn spec_split(s: Seq<char>, pat: Seq<char>) -> Seq<Seq<char>>
    decreases s.len(),
{
    let j = spec_first_match(s, pat);
    if pat.len() == 0 || j < 0 || j + pat.len() > s.len() {
        seq![s]
    } else {
        seq![s.take(j)] + spec_split(s.skip(j + pat.len()), pat)
    }
}

pub proof fn lemma_split_len(s: Seq<char>, pat: Seq<char>)
    ensures
        spec_split(s, pat).len() >= 1,
    decreases s.len(),
{
    let j = spec_first_match(s, pat);
    if !(pat.len() == 0 || j < 0 || j + pat.len() > s.len()) {
        lemma_split_len(s.skip(j + pat.len()), pat);
    }
}

/// Concatenation of `parts` with `sep` between consecutive parts.
pub open spec fn spec_join(parts: Seq<Seq<char>>, sep: Seq<char>) -> Seq<char>
    decreases parts.len(),
{
    if parts.len() == 0 {
        Seq::empty()
    } else if parts.len() == 1 {
        parts[0]
    } else {
        parts[0] + sep + spec_join(parts.drop_first(), sep)
    }
}

/// Splitting a sequence on a pattern and joining the pieces with that same
/// pattern gives the original sequence back.
pub proof fn lemma_split_join(s: Seq<char>, sep: Seq<char>)
    requires
        sep.len() >= 1,
    ensures
        spec_join(spec_split(s, sep), sep) == s,
    decreases s.len(),
{
    let j = spec_first_match(s, sep);
    lemma_first_match_spec(s, sep);
    if j < 0 || j + sep.len() > s.len() {
        assert(spec_split(s, sep) =~= seq![s]);
    } else {
        let rest = s.skip(j + sep.len());
        lemma_split_join(rest, sep);
        lemma_split_len(rest, sep);
        let parts = spec_split(s, sep);
        assert(parts == seq![s.take(j)] + spec_split(rest, sep));
        assert(parts.len() >= 2);
        assert(parts.drop_first() =~= spec_split(rest, sep));
        assert(parts[0] == s.take(j));
        assert(spec_join(parts, sep) == s.take(j) + sep + rest);
        assert(s.subrange(j, j + sep.len()) == sep);
        assert(s.take(j) + sep + rest =~= s);
    }
}

/// Whether `pat` occurs in `s` at position `i`.
pub fn match_at(s: &Vec<char>, pat: &Vec<char>, i: usize) -> (r: bool)
    ensures
        r == spec_match_at(s@, pat@, i as int),
{
    if i > s.len() || s.len() - i < pat.len() {
        return false;
    }
    let mut k: usize = 0;
    while k < pat.len()
        invariant
            0 <= k <= pat@.len(),
            i + pat@.len() <= s@.len() <= usize::MAX,
            forall|m: int| 0 <= m < k ==> s@[i + m] == pat@[m],
        decreases pat@.len() - k,
    {
        if s[i + k] != pat[k] {
            assert(s@.subrange(i as int, i + pat@.len())[k as int] != pat@[k as int]);
            return false;
        }
        k = k + 1;
    }
    assert(s@.subrange(i as int, i + pat@.len()) =~= pat@);
    true
}

/// Absolute position of the first occurrence of `pat` in `s` at or after
/// position `from`, if any.
pub fn find_first_from(s: &Vec<char>, pat: &Vec<char>, from: usize) -> (r: Option<usize>)
    requires
        pat@.len() >= 1,
        from <= s@.len(),
    ensures
        match r {
            Some(j) => from <= j && j + pat@.len() <= s@.len() && spec_first_match(
                s@.skip(from as int),
                pat@,
            ) == j - from && spec_match_at(s@, pat@, j as int),
            None => spec_first_match(s@.skip(from as int), pat@) == -1,
        },
{
    proof {
        lemma_first_match_spec(s@.skip(from as int), pat@);
    }
    if s.len() - from < pat.len() {
        return None;
    }
    let mut i: usize = from;
    while s.len() - i >= pat.len()
        invariant
            from <= i <= s@.len(),
            pat@.len() >= 1,
            forall|p: int| from <= p < i ==> !spec_match_at(s@, pat@, p),
        decreases s@.len() - i,
    {
        if match_at(s, pat, i) {
            proof {
                lemma_first_match_spec(s@.skip(from as int), pat@);
                assert forall|p: int| 0 <= p ==> (spec_match_at(s@.skip(from as int), pat@, p)
                    <==> spec_match_at(s@, pat@, from + p)) by {
                    assert forall|p: int| 0 <= p implies (spec_match_at(
                        s@.skip(from as int),
                        pat@,
                        p,
                    ) <==> spec_match_at(s@, pat@, from + p)) by {
                        lemma_match_at_shift(s@, pat@, from as int, p);
                    }
                }
                let fm = spec_first_match(s@.skip(from as int), pat@);
                assert(spec_match_at(s@.skip(from as int), pat@, i - from));
                if fm == -1 {
                    assert(!spec_match_at(s@.skip(from as int), pat@, i - from));
                }
                assert(fm >= 0);
                if fm < i - from {
                    assert(spec_match_at(s@, pat@, from + fm));
                    assert(false);
                }
                if fm > i - from {
                    assert(!spec_match_at(s@.skip(from as int), pat@, i - from));
                    assert(false);
                }
            }
            return Some(i);
        }
        i = i + 1;
    }
    proof {
        lemma_first_match_spec(s@.skip(from as int), pat@);
        let fm = spec_first_match(s@.skip(from as int), pat@);
        if fm >= 0 {
            assert(spec_match_at(s@.skip(from as int), pat@, fm));
            lemma_match_at_shift(s@, pat@, from as int, fm);
            assert(spec_match_at(s@, pat@, from + fm));
            assert(false);
        }
    }
    None
}

/// Position of the last occurrence of `pat` in `s`, if any.
pub fn find_last(s: &Vec<char>, pat: &Vec<char>) -> (r: Option<usize>)
    requires
        pat@.len() >= 1,
    ensures
        match r {
            Some(j) => j == spec_last_match(s@, pat@),
            None => spec_last_match(s@, pat@) == -1,
        },
{
    proof {
        lemma_last_match_spec(s@, pat@);
    }
    if s.len() < pat.len() {
        return None;
    }
    let mut j: usize = s.len() - pat.len() + 1;
    while j > 0
        invariant
            0 <= j <= s@.len() - pat@.len() + 1,
            pat@.len() >= 1,
            forall|p: int| j <= p ==> !spec_match_at(s@, pat@, p),
        decreases j,
    {
        j = j - 1;
        if match_at(s, pat, j) {
            proof {
                lemma_last_match_spec(s@, pat@);
                let lm = spec_last_match(s@, pat@);
                if lm == -1 {
                    assert(!spec_match_at(s@, pat@, j as int));
                }
                assert(lm >= 0);
                if lm < j {
                    assert(!spec_match_at(s@, pat@, j as int));
                    assert(false);
                }
                if lm > j {
                    assert(!spec_match_at(s@, pat@, lm));
                    assert(false);
                }
            }
            return Some(j);
        }
    }
    proof {
        let lm = spec_last_match(s@, pat@);
        if lm >= 0 {
            assert(spec_match_at(s@, pat@, lm));
            assert(false);
        }
    }
    None
}

/// Counts non-overlapping occurrences of `pat` in `s`, scanning from the left.
pub fn count_matches(s: &Vec<char>, pat: &Vec<char>) -> (n: usize)
    ensures
        n == spec_count_matches(s@, pat@),
{
    if pat.len() == 0 {
        return 0;
    }
    let total = s.len();
    let mut n: usize = 0;
    let mut i: usize = 0;
    proof {
        assert(total == s@.len());
        assert(s@.skip(0) =~= s@);
    }
    while i <= s.len() && s.len() - i >= pat.len()
        invariant
            0 <= i <= s@.len() <= usize::MAX,
            pat@.len() >= 1,
            n + spec_count_matches(s@.skip(i as int), pat@) == spec_count_matches(s@, pat@),
            n <= i,
        decreases s@.len() - i,
    {
        proof {
            assert forall|p: int| 0 <= p implies (spec_match_at(s@.skip(i as int), pat@, p)
                <==> spec_match_at(s@, pat@, i + p)) by {
                lemma_match_at_shift(s@, pat@, i as int, p);
            }
        }
        if match_at(s, pat, i) {
            proof {
                assert(spec_match_at(s@.skip(i as int), pat@, 0));
                lemma_skip_skip(s@, i as int, pat@.len() as int);
                assert(s@.skip(i as int).skip(pat@.len() as int) =~= s@.skip(
                    i + pat@.len(),
                ));
            }
            n = n + 1;
            i = i + pat.len();
        } else {
            proof {
                assert(!spec_match_at(s@.skip(i as int), pat@, 0));
                lemma_skip_skip(s@, i as int, 1);
            }
            i = i + 1;
        }
    }
    proof {
        assert(spec_count_matches(s@.skip(i as int), pat@) == 0);
    }
    n
}

/// Copies the characters of `s` from position `a` (inclusive) to `b`
/// (exclusive).
pub fn subvec(s: &Vec<char>, a: usize, b: usize) -> (r: Vec<char>)
    requires
        a <= b <= s@.len(),
    ensures
        r@ == s@.subrange(a as int, b as int),
{
    let mut r: Vec<char> = Vec::new();
    let mut i: usize = a;
    while i < b
        invariant
            a <= i <= b <= s@.len(),
            r@ =~= s@.subrange(a as int, i as int),
        decreases b - i,
    {
        r.push(s[i]);
        proof {
            assert(r@ =~= s@.subrange(a as int, i + 1));
        }
        i = i + 1;
    }
    r
}

/// Splits `s` on non-overlapping leftmost occurrences of `pat`.
pub fn split_on(s: &Vec<char>, pat: &Vec<char>) -> (r: Vec<Vec<char>>)
    requires
        pat@.len() >= 1,
    ensures
        r.deep_view() == spec_split(s@, pat@),
{
    let total = s.len();
    let mut pieces: Vec<Vec<char>> = Vec::new();
    let mut start: usize = 0;
    proof {
        assert(total == s@.len());
        assert(s@.skip(0) =~= s@);
        assert(pieces.deep_view() =~= Seq::<Seq<char>>::empty());
    }
    loop
        invariant
            0 <= start <= s@.len() <= usize::MAX,
            pat@.len() >= 1,
            spec_split(s@, pat@) =~= pieces.deep_view() + spec_split(s@.skip(start as int), pat@),
        decreases s@.len() - start,
    {
        match find_first_from(s, pat, start) {
            Some(j) => {
                let ghost old_pieces = pieces.deep_view();
                let piece = subvec(s, start, j);
                pieces.push(piece);
                proof {
                    let suffix = s@.skip(start as int);
                    let fm = spec_first_match(suffix, pat@);
                    assert(fm == j - start);
                    assert(suffix.take(fm) =~= s@.subrange(start as int, j as int));
                    lemma_skip_skip(s@, start as int, j - start + pat@.len());
                    assert(suffix.skip(fm + pat@.len()) =~= s@.skip(j + pat@.len()));
                    assert(spec_split(suffix, pat@) == seq![suffix.take(fm)] + spec_split(
                        suffix.skip(fm + pat@.len()),
                        pat@,
                    ));
                    assert(pieces.deep_view() =~= old_pieces.push(piece.deep_view()));
                    assert(piece.deep_view() == piece@);
                }
                start = j + pat.len();
            },
            None => {
                let ghost old_pieces = pieces.deep_view();
                let piece = subvec(s, start, s.len());
                pieces.push(piece);
                proof {
                    let suffix = s@.skip(start as int);
                    assert(spec_split(suffix, pat@) == seq![suffix]);
                    assert(piece@ =~= suffix);
                    assert(piece.deep_view() =~= piece@);
                    assert(pieces.deep_view() =~= old_pieces.push(piece.deep_view()));
                    assert(old_pieces + seq![suffix] =~= old_pieces.push(suffix));
                    assert(spec_split(s@, pat@) =~= pieces.deep_view());
                }
                return pieces;
            },
        }
    }
}

/// Whether `s` contains the character `c`.
pub fn contains_char(s: &Vec<char>, c: char) -> (r: bool)
    ensures
        r == s@.contains(c),
{
    let mut i: usize = 0;
    while i < s.len()
        invariant
            0 <= i <= s@.len(),
            forall|p: int| 0 <= p < i ==> s@[p] != c,
        decreases s@.len() - i,
    {
        if s[i] == c {
            return true;
        }
        i = i + 1;
    }
    false
}

/// The characters of `s`, in order, as a vector.
pub fn str_to_chars(s: &str) -> (r: Vec<char>)
    ensures
        r@ == s@,
{
    let n = s.unicode_len();
    let mut r: Vec<char> = Vec::new();
    let mut i: usize = 0;
    while i < n
        invariant
            0 <= i <= s@.len(),
            n == s@.len(),
            r@ =~= s@.take(i as int),
        decreases n - i,
    {
        r.push(s.get_char(i));
        proof {
            assert(r@ =~= s@.take(i + 1));
        }
        i = i + 1;
    }
    proof {
        assert(s@.take(s@.len() as int) =~= s@);
    }
    r
}

/// Relies on `String::push`: appends the one character `c` to the string.
#[verifier::external_body]
pub(crate) fn push_char(s: &mut String, c: char)
    ensures
        final(s)@ == old(s)@.push(c),
{
    s.push(c);
}

/// Builds a string holding exactly the characters of `v`, in order.
pub fn chars_to_string(v: &Vec<char>) -> (s: String)
    ensures
        s@ == v@,
{
    let mut s = String::new();
    let mut i: usize = 0;
    while i < v.len()
        invariant
            0 <= i <= v@.len(),
            s@ =~= v@.take(i as int),
        decreases v@.len() - i,
    {
        push_char(&mut s, v[i]);
        proof {
            assert(s@ =~= v@.take(i + 1));
        }
        i = i + 1;
    }
    proof {
        assert(v@.take(v@.len() as int) =~= v@);
    }
    s
}

/// Turns each character vector into a string, keeping order and content.
pub fn vecs_to_strings(v: &Vec<Vec<char>>) -> (r: Vec<String>)
    ensures
        r.deep_view() == v.deep_view(),
{
    let mut r: Vec<String> = Vec::new();
    let mut i: usize = 0;
    proof {
        assert(r.deep_view() =~= v.deep_view().take(0));
    }
    while i < v.len()
        invariant
            0 <= i <= v@.len(),
            v@.len() == v.deep_view().len(),
            r.deep_view() =~= v.deep_view().take(i as int),
        decreases v@.len() - i,
    {
        let ghost r_old = r.deep_view();
        let s = chars_to_string(&v[i]);
        r.push(s);
        proof {
            assert(v.deep_view()[i as int] == v[i as int]@);
            assert(r.deep_view() =~= r_old.push(s@));
            assert(v.deep_view().take(i + 1) =~= v.deep_view().take(i as int).push(
                v.deep_view()[i as int],
            ));
        }
        i = i + 1;
    }
    proof {
        assert(v.deep_view().take(v.deep_view().len() as int) =~= v.deep_view());
    }
    r
}

} // verus!
