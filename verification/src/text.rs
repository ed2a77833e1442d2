//! Character-sequence utilities shared by the analyses.
use vstd::prelude::*;

verus! {

/// `needle` occurs in `hay` starting at position `i`.
pub open spec fn occurs_at(hay: Seq<char>, needle: Seq<char>, i: int) -> bool {
    0 <= i && i + needle.len() <= hay.len() && hay.subrange(i, i + needle.len()) == needle
}

/// `needle` occurs somewhere in `hay`.
pub open spec fn seq_contains(hay: Seq<char>, needle: Seq<char>) -> bool {
    exists|i: int| occurs_at(hay, needle, i)
}

pub open spec fn seq_starts_with(s: Seq<char>, prefix: Seq<char>) -> bool {
    occurs_at(s, prefix, 0)
}

pub open spec fn seq_ends_with(s: Seq<char>, suffix: Seq<char>) -> bool {
    suffix.len() <= s.len() && occurs_at(s, suffix, s.len() - suffix.len())
}

/// The Unicode lowercase form of a character sequence, as `str::to_lowercase` computes it.
pub uninterp spec fn spec_to_lowercase(s: Seq<char>) -> Seq<char>;

/// Calls `str::to_lowercase`: Unicode lowercase mapping, a function of the characters alone.
#[verifier::external_body]
pub(crate) fn to_lowercase(s: &str) -> (res: String)
    ensures
        res@ == spec_to_lowercase(s@),
{
    s.to_lowercase()
}

/// Lexicographic order on character sequences, as `str` orders them.
pub open spec fn seq_less(a: Seq<char>, b: Seq<char>) -> bool
    decreases a.len(),
{
    if b.len() == 0 {
        false
    } else if a.len() == 0 {
        true
    } else if a[0] != b[0] {
        (a[0] as int) < (b[0] as int)
    } else {
        seq_less(a.drop_first(), b.drop_first())
    }
}

/// Whether `a` sorts strictly before `b`.
pub fn str_less(a: &str, b: &str) -> (res: bool)
    ensures
        res == seq_less(a@, b@),
{
    let na = a.unicode_len();
    let nb = b.unicode_len();
    let mut i: usize = 0;
    assert(a@.subrange(0, na as int) =~= a@);
    assert(b@.subrange(0, nb as int) =~= b@);
    while i < na && i < nb
        invariant
            na == a@.len(),
            nb == b@.len(),
            i <= na,
            i <= nb,
            a@.subrange(0, i as int) == b@.subrange(0, i as int),
            seq_less(a@, b@) == seq_less(a@.subrange(i as int, na as int), b@.subrange(i as int, nb as int)),
        decreases na - i,
    {
        let ca = a.get_char(i);
        let cb = b.get_char(i);
        let ghost sa = a@.subrange(i as int, na as int);
        let ghost sb = b@.subrange(i as int, nb as int);
        if ca != cb {
            assert(sa[0] == ca && sb[0] == cb);
            return ca < cb;
        }
        assert(sa.drop_first() =~= a@.subrange(i + 1, na as int));
        assert(sb.drop_first() =~= b@.subrange(i + 1, nb as int));
        assert(a@.subrange(0, i + 1) =~= a@.subrange(0, i as int).push(ca));
        assert(b@.subrange(0, i + 1) =~= b@.subrange(0, i as int).push(cb));
        i = i + 1;
    }
    i == na && i < nb
}

/// No sequence sorts before itself.
pub proof fn lemma_seq_less_irreflexive(a: Seq<char>)
    ensures
        !seq_less(a, a),
    decreases a.len(),
{
    if a.len() > 0 {
        lemma_seq_less_irreflexive(a.drop_first());
    }
}

/// Two sequences are equal or one sorts before the other.
pub proof fn lemma_seq_less_total(a: Seq<char>, b: Seq<char>)
    ensures
        a == b || seq_less(a, b) || seq_less(b, a),
    decreases a.len(),
{
    if a.len() == 0 && b.len() == 0 {
        assert(a =~= b);
    }
    if a.len() > 0 && b.len() > 0 && a[0] != b[0] {
        assert((a[0] as int) != (b[0] as int));
    }
    if a.len() > 0 && b.len() > 0 && a[0] == b[0] {
        let a1 = a.drop_first();
        let b1 = b.drop_first();
        lemma_seq_less_total(a1, b1);
        if a1 == b1 {
            assert(a1.len() == a.len() - 1);
            assert(b1.len() == b.len() - 1);
            assert forall|i: int| 0 <= i < a.len() implies a[i] == b[i] by {
                if i > 0 {
                    assert(a[i] == a1[i - 1]);
                    assert(b[i] == b1[i - 1]);
                }
            }
            assert(a =~= b);
        }
    }
}

/// Sorting before is transitive.
pub proof fn lemma_seq_less_trans(a: Seq<char>, b: Seq<char>, c: Seq<char>)
    requires
        seq_less(a, b),
        seq_less(b, c),
    ensures
        seq_less(a, c),
    decreases a.len(),
{
    if a.len() > 0 && b.len() > 0 && c.len() > 0 && a[0] == b[0] && b[0] == c[0] {
        lemma_seq_less_trans(a.drop_first(), b.drop_first(), c.drop_first());
    }
}


/// The character sequences of strings.
pub open spec fn views(v: Seq<String>) -> Seq<Seq<char>> {
    v.map_values(|y: String| y@)
}

/// Strictly increasing: sorted, each value once.
pub open spec fn strictly_sorted(v: Seq<Seq<char>>) -> bool {
    forall|a: int, b: int| 0 <= a < b < v.len() ==> seq_less(#[trigger] v[a], #[trigger] v[b])
}

/// Inserts `s` into a strictly sorted vector unless it is already there.
pub fn insert_sorted_unique(v: &mut Vec<String>, s: String)
    requires
        strictly_sorted(views(old(v)@)),
    ensures
        strictly_sorted(views(final(v)@)),
        forall|x: Seq<char>| #[trigger] views(final(v)@).contains(x) <==> (views(old(v)@).contains(x) || x == s@),
        final(v)@.len() <= old(v)@.len() + 1,
{
    let ghost before = views(v@);
    let mut p: usize = 0;
    while p < v.len() && str_less(v[p].as_str(), s.as_str())
        invariant
            p <= v@.len(),
            before == views(v@),
            forall|k: int| 0 <= k < p ==> seq_less(v@[k]@, s@),
        decreases v.len() - p,
    {
        p = p + 1;
    }
    if p < v.len() && crate::model::str_equal(v[p].as_str(), s.as_str()) {
        proof {
            assert(before[p as int] == s@);
        }
        return;
    }
    let ghost old_v = v@;
    v.insert(p, s);
    proof {
        let after = views(v@);
        if p < before.len() {
            lemma_seq_less_total(before[p as int], s@);
        }
        assert forall|a: int, b: int| 0 <= a < b < after.len() implies seq_less(#[trigger] after[a], #[trigger] after[b]) by {
            if a < p && b < p {
                assert(after[a] == before[a] && after[b] == before[b]);
            } else if a < p && b == p {
                assert(after[a] == before[a] && after[b] == s@);
                assert(seq_less(old_v[a]@, s@));
            } else if a < p {
                assert(after[a] == before[a] && after[b] == before[b - 1]);
                assert(seq_less(old_v[a]@, s@));
                lemma_seq_less_trans(before[a], s@, before[p as int]);
                if b - 1 > p {
                    lemma_seq_less_trans(before[a], before[p as int], before[b - 1]);
                }
            } else if a == p {
                assert(after[a] == s@ && after[b] == before[b - 1]);
                if b - 1 > p {
                    lemma_seq_less_trans(s@, before[p as int], before[b - 1]);
                }
            } else {
                assert(after[a] == before[a - 1] && after[b] == before[b - 1]);
            }
        }
        assert forall|x: Seq<char>| #[trigger] after.contains(x) <==> (before.contains(x) || x == s@) by {
            if after.contains(x) {
                let k = choose|k: int| 0 <= k < after.len() && after[k] == x;
                if k < p {
                    assert(before[k] == x);
                } else if k > p {
                    assert(before[k - 1] == x);
                }
            }
            if before.contains(x) {
                let k = choose|k: int| 0 <= k < before.len() && before[k] == x;
                if k < p {
                    assert(after[k] == x);
                } else {
                    assert(after[k + 1] == x);
                }
            }
            if x == s@ {
                assert(after[p as int] == x);
            }
        }
    }
}

/// Calls `String::from_iter` on the characters: the string made of exactly these characters.
#[verifier::external_body]
pub(crate) fn string_of(chars: &Vec<char>) -> (res: String)
    ensures
        res@ == chars@,
{
    chars.iter().collect()
}

/// The characters of a string slice, in order.
pub fn chars_of(s: &str) -> (res: Vec<char>)
    ensures
        res@ == s@,
{
    let n = s.unicode_len();
    let mut out: Vec<char> = Vec::new();
    let mut i: usize = 0;
    while i < n
        invariant
            n == s@.len(),
            i <= n,
            out@ == s@.subrange(0, i as int),
        decreases n - i,
    {
        out.push(s.get_char(i));
        i = i + 1;
    }
    out
}

/// Whether `needle` occurs at position `at` of `hay`.
pub fn matches_at(hay: &[char], needle: &[char], at: usize) -> (res: bool)
    ensures
        res == occurs_at(hay@, needle@, at as int),
{
    if at > hay.len() || needle.len() > hay.len() - at {
        return false;
    }
    let mut j: usize = 0;
    while j < needle.len()
        invariant
            at + needle.len() <= hay.len(),
            j <= needle.len(),
            forall|k: int| 0 <= k < j ==> hay@[at + k] == needle@[k],
        decreases needle.len() - j,
    {
        if hay[at + j] != needle[j] {
            assert(hay@.subrange(at as int, at + needle.len())[j as int] != needle@[j as int]);
            return false;
        }
        j = j + 1;
    }
    assert(hay@.subrange(at as int, at + needle@.len()) =~= needle@);
    true
}

/// First position at which `needle` occurs in `hay`.
pub fn find_from(hay: &[char], needle: &[char], from: usize) -> (res: Option<usize>)
    ensures
        match res {
            Some(i) => from <= i && occurs_at(hay@, needle@, i as int)
                && forall|k: int| from <= k < i ==> !occurs_at(hay@, needle@, k),
            None => forall|k: int| from <= k ==> !occurs_at(hay@, needle@, k),
        },
{
    if from > hay.len() || needle.len() > hay.len() - from {
        return None;
    }
    let last = hay.len() - needle.len();
    let mut i = from;
    while i < last
        invariant
            from <= i <= last,
            last + needle.len() == hay.len(),
            forall|k: int| from <= k < i ==> !occurs_at(hay@, needle@, k),
        decreases last - i,
    {
        if matches_at(hay, needle, i) {
            return Some(i);
        }
        i = i + 1;
    }
    if matches_at(hay, needle, last) {
        return Some(last);
    }
    None
}

pub fn contains(hay: &[char], needle: &[char]) -> (res: bool)
    ensures
        res == seq_contains(hay@, needle@),
{
    match find_from(hay, needle, 0) {
        Some(i) => true,
        None => false,
    }
}

} // verus!

verus! {

/// The Unicode `White_Space` property, which `char::is_whitespace` tests.
pub open spec fn is_ws(c: char) -> bool {
    let u = c as u32;
    (9 <= u && u <= 13) || u == 32 || u == 0x85 || u == 0xA0 || u == 0x1680 || (0x2000 <= u && u
        <= 0x200A) || u == 0x2028 || u == 0x2029 || u == 0x202F || u == 0x205F || u == 0x3000
}

pub fn is_whitespace(c: char) -> (res: bool)
    ensures
        res == is_ws(c),
{
    let u = c as u32;
    (9 <= u && u <= 13) || u == 32 || u == 0x85 || u == 0xA0 || u == 0x1680 || (0x2000 <= u && u
        <= 0x200A) || u == 0x2028 || u == 0x2029 || u == 0x202F || u == 0x205F || u == 0x3000
}

/// `s` without its leading whitespace.
pub open spec fn spec_trim_start(s: Seq<char>) -> Seq<char>
    decreases s.len(),
{
    if s.len() > 0 && is_ws(s[0]) {
        spec_trim_start(s.drop_first())
    } else {
        s
    }
}

/// `s` without its trailing whitespace.
pub open spec fn spec_trim_end(s: Seq<char>) -> Seq<char>
    decreases s.len(),
{
    if s.len() > 0 && is_ws(s.last()) {
        spec_trim_end(s.drop_last())
    } else {
        s
    }
}

/// `s` without leading and trailing whitespace, as `str::trim` gives it.
pub open spec fn spec_trim(s: Seq<char>) -> Seq<char> {
    spec_trim_end(spec_trim_start(s))
}

/// A copy of `s[from..to]`.
pub fn slice_chars(s: &[char], from: usize, to: usize) -> (res: Vec<char>)
    requires
        from <= to <= s@.len(),
    ensures
        res@ == s@.subrange(from as int, to as int),
{
    let mut out: Vec<char> = Vec::new();
    let mut i = from;
    while i < to
        invariant
            from <= i <= to,
            to <= s@.len(),
            out@ == s@.subrange(from as int, i as int),
        decreases to - i,
    {
        out.push(s[i]);
        assert(s@.subrange(from as int, i + 1) =~= s@.subrange(from as int, i as int).push(s@[i as int]));
        i = i + 1;
    }
    out
}

pub fn trim_start(s: &[char]) -> (res: Vec<char>)
    ensures
        res@ == spec_trim_start(s@),
{
    let mut i: usize = 0;
    assert(s@.subrange(0, s@.len() as int) =~= s@);
    while i < s.len() && is_whitespace(s[i])
        invariant
            i <= s@.len(),
            spec_trim_start(s@) == spec_trim_start(s@.subrange(i as int, s@.len() as int)),
        decreases s.len() - i,
    {
        assert(s@.subrange(i as int, s@.len() as int).drop_first() =~= s@.subrange(i + 1, s@.len() as int));
        i = i + 1;
    }
    slice_chars(s, i, s.len())
}

pub fn trim_end(s: &[char]) -> (res: Vec<char>)
    ensures
        res@ == spec_trim_end(s@),
{
    let mut j: usize = s.len();
    assert(s@.subrange(0, s@.len() as int) =~= s@);
    while j > 0 && is_whitespace(s[j - 1])
        invariant
            j <= s@.len(),
            spec_trim_end(s@) == spec_trim_end(s@.subrange(0, j as int)),
        decreases j,
    {
        assert(s@.subrange(0, j as int).drop_last() =~= s@.subrange(0, j - 1));
        j = j - 1;
    }
    slice_chars(s, 0, j)
}

/// Whitespace removed at both ends.
pub fn trim(s: &[char]) -> (res: Vec<char>)
    ensures
        res@ == spec_trim(s@),
{
    let a = trim_start(s);
    trim_end(&a)
}

/// Position of the first `c` in `s[from..]`, if any.
pub open spec fn index_of_from(s: Seq<char>, c: char, from: int) -> Option<int>
    decreases s.len() - from,
{
    if from >= s.len() || from < 0 {
        None
    } else if s[from] == c {
        Some(from)
    } else {
        index_of_from(s, c, from + 1)
    }
}

/// Position of the first `c` in `s`, if any.
pub open spec fn index_of(s: Seq<char>, c: char) -> Option<int> {
    index_of_from(s, c, 0)
}

pub fn find_char_from(s: &[char], c: char, from: usize) -> (res: Option<usize>)
    ensures
        match res {
            Some(i) => index_of_from(s@, c, from as int) == Some(i as int),
            None => index_of_from(s@, c, from as int) is None,
        },
{
    let mut i = from;
    while i < s.len()
        invariant
            from <= i,
            index_of_from(s@, c, from as int) == index_of_from(s@, c, i as int),
        decreases s.len() - i,
    {
        if s[i] == c {
            return Some(i);
        }
        i = i + 1;
    }
    None
}

pub fn find_char(s: &[char], c: char) -> (res: Option<usize>)
    ensures
        match res {
            Some(i) => index_of(s@, c) == Some(i as int),
            None => index_of(s@, c) is None,
        },
{
    find_char_from(s, c, 0)
}

/// `s` without one trailing carriage return.
pub open spec fn strip_cr(s: Seq<char>) -> Seq<char> {
    if s.len() > 0 && s.last() == '\r' {
        s.drop_last()
    } else {
        s
    }
}

/// The lines of `s` as `str::lines` yields them: split after each `\n`, that `\n` and a
/// `\r` just before it removed; no final empty line.
pub open spec fn spec_lines(s: Seq<char>) -> Seq<Seq<char>>
    decreases s.len(),
{
    if s.len() == 0 {
        Seq::empty()
    } else {
        match index_of(s, '\n') {
            Some(i) => {
                proof {
                    lemma_index_of_from_bounds(s, '\n', 0);
                }
                seq![strip_cr(s.subrange(0, i))] + spec_lines(s.subrange(i + 1, s.len() as int))
            },
            None => seq![s],
        }
    }
}

pub proof fn lemma_index_of_from_bounds(s: Seq<char>, c: char, from: int)
    ensures
        index_of_from(s, c, from) matches Some(i) ==> from <= i < s.len() && s[i] == c,
    decreases s.len() - from,
{
    if from >= s.len() || from < 0 {
    } else if s[from] == c {
    } else {
        lemma_index_of_from_bounds(s, c, from + 1);
    }
}

proof fn lemma_index_of_shift(s: Seq<char>, c: char, from: int)
    requires
        0 <= from <= s.len(),
    ensures
        index_of_from(s, c, from) == (match index_of(s.subrange(from, s.len() as int), c) {
            Some(i) => Some(i + from),
            None => None::<int>,
        }),
    decreases s.len() - from,
{
    let t = s.subrange(from, s.len() as int);
    lemma_index_of_shift_aux(s, c, from, 0);
}

proof fn lemma_index_of_shift_aux(s: Seq<char>, c: char, from: int, k: int)
    requires
        0 <= from <= s.len(),
        0 <= k <= s.len() - from,
    ensures
        index_of_from(s, c, from + k) == (match index_of_from(s.subrange(from, s.len() as int), c, k) {
            Some(i) => Some(i + from),
            None => None::<int>,
        }),
    decreases s.len() - from - k,
{
    if from + k < s.len() {
        lemma_index_of_shift_aux(s, c, from, k + 1);
    }
}

/// The lines of a character sequence.
pub fn split_lines(s: &[char]) -> (res: Vec<Vec<char>>)
    ensures
        res@.len() == spec_lines(s@).len(),
        forall|k: int| 0 <= k < res@.len() ==> (#[trigger] res@[k])@ == spec_lines(s@)[k],
{
    let mut out: Vec<Vec<char>> = Vec::new();
    let mut start: usize = 0;
    let ghost mut acc: Seq<Seq<char>> = Seq::empty();
    assert(s@.subrange(0, s@.len() as int) =~= s@);
    while start < s.len()
        invariant
            start <= s@.len(),
            out@.len() == acc.len(),
            forall|k: int| 0 <= k < out@.len() ==> (#[trigger] out@[k])@ == acc[k],
            acc + spec_lines(s@.subrange(start as int, s@.len() as int)) == spec_lines(s@),
        decreases s.len() - start,
    {
        let ghost rest = s@.subrange(start as int, s@.len() as int);
        proof {
            lemma_index_of_shift(s@, '\n', start as int);
            lemma_index_of_from_bounds(s@, '\n', start as int);
        }
        match find_char_from(s, '\n', start) {
            Some(i) => {
                let mut end = i;
                if end > start && s[end - 1] == '\r' {
                    end = end - 1;
                }
                let line = slice_chars(s, start, end);
                proof {
                    let piece = rest.subrange(0, i - start);
                    assert(piece =~= s@.subrange(start as int, i as int));
                    assert(rest.subrange(i - start + 1, rest.len() as int) =~= s@.subrange(i + 1, s@.len() as int));
                    if i > start && s@[i - 1] == '\r' {
                        assert(strip_cr(piece) =~= s@.subrange(start as int, i - 1));
                    } else {
                        assert(strip_cr(piece) =~= piece);
                    }
                    assert(line@ == strip_cr(piece));
                    assert(spec_lines(rest) == seq![strip_cr(piece)] + spec_lines(s@.subrange(i + 1, s@.len() as int)));
                    acc = acc.push(line@);
                    assert(acc + spec_lines(s@.subrange(i + 1, s@.len() as int)) =~= spec_lines(s@));
                }
                out.push(line);
                start = i + 1;
            },
            None => {
                let line = slice_chars(s, start, s.len());
                proof {
                    assert(spec_lines(rest) == seq![rest]);
                    acc = acc.push(line@);
                    assert(s@.subrange(s@.len() as int, s@.len() as int) =~= Seq::<char>::empty());
                    assert(acc + spec_lines(s@.subrange(s@.len() as int, s@.len() as int)) =~= spec_lines(s@));
                }
                out.push(line);
                start = s.len();
            },
        }
    }
    proof {
        assert(s@.subrange(start as int, s@.len() as int) =~= Seq::<char>::empty());
        assert(acc =~= spec_lines(s@));
    }
    out
}

/// Number of non-overlapping occurrences of `needle` in `hay[i..]`, scanning left to right.
pub open spec fn count_from(hay: Seq<char>, needle: Seq<char>, i: int) -> int
    decreases hay.len() - i,
{
    if needle.len() == 0 || i < 0 || i + needle.len() > hay.len() {
        0
    } else if occurs_at(hay, needle, i) {
        1 + count_from(hay, needle, i + needle.len())
    } else {
        count_from(hay, needle, i + 1)
    }
}

/// Number of non-overlapping occurrences, as `str::matches(..).count()` gives it.
pub fn count_occurrences(hay: &[char], needle: &[char]) -> (res: usize)
    requires
        needle@.len() > 0,
    ensures
        res == count_from(hay@, needle@, 0),
{
    let mut i: usize = 0;
    let mut count: usize = 0;
    while needle.len() <= hay.len() && i <= hay.len() - needle.len()
        invariant
            needle@.len() > 0,
            i <= hay@.len() + needle@.len(),
            count <= i,
            count + count_from(hay@, needle@, i as int) == count_from(hay@, needle@, 0),
        decreases hay.len() + needle.len() - i,
    {
        if matches_at(hay, needle, i) {
            count = count + 1;
            i = i + needle.len();
        } else {
            i = i + 1;
        }
    }
    count
}

/// Concatenation of the pieces with `sep` between consecutive ones.
pub open spec fn spec_join(pieces: Seq<Seq<char>>, sep: Seq<char>) -> Seq<char>
    decreases pieces.len(),
{
    if pieces.len() == 0 {
        Seq::empty()
    } else if pieces.len() == 1 {
        pieces[0]
    } else {
        spec_join(pieces.drop_last(), sep) + sep + pieces.last()
    }
}

/// Appends `src` to `dst`.
pub fn append_chars(dst: &mut Vec<char>, src: &[char])
    ensures
        final(dst)@ == old(dst)@ + src@,
{
    let mut i: usize = 0;
    while i < src.len()
        invariant
            i <= src@.len(),
            dst@ == old(dst)@ + src@.subrange(0, i as int),
        decreases src.len() - i,
    {
        dst.push(src[i]);
        assert(src@.subrange(0, i + 1) =~= src@.subrange(0, i as int).push(src@[i as int]));
        i = i + 1;
    }
    assert(src@.subrange(0, src@.len() as int) =~= src@);
}

/// Joins the first `n` pieces with `sep`.
pub fn join_chars(pieces: &Vec<Vec<char>>, n: usize, sep: &[char]) -> (res: Vec<char>)
    requires
        n <= pieces@.len(),
    ensures
        res@ == spec_join(pieces@.subrange(0, n as int).map_values(|p: Vec<char>| p@), sep@),
{
    let mut out: Vec<char> = Vec::new();
    let mut i: usize = 0;
    while i < n
        invariant
            i <= n <= pieces@.len(),
            out@ == spec_join(pieces@.subrange(0, i as int).map_values(|p: Vec<char>| p@), sep@),
        decreases n - i,
    {
        let ghost before = pieces@.subrange(0, i as int).map_values(|p: Vec<char>| p@);
        let ghost after = pieces@.subrange(0, i + 1).map_values(|p: Vec<char>| p@);
        if i > 0 {
            append_chars(&mut out, sep);
        }
        append_chars(&mut out, &pieces[i]);
        proof {
            assert(after.drop_last() =~= before);
            assert(after.last() == pieces@[i as int]@);
            if i == 0 {
                assert(after.len() == 1);
                assert(out@ =~= after[0]);
            }
        }
        i = i + 1;
    }
    out
}

} // verus!

verus! {

/// Decimal digits of a natural number.
pub open spec fn spec_decimal(n: nat) -> Seq<char>
    decreases n,
{
    if n < 10 {
        seq![((48 + n) as u8) as char]
    } else {
        spec_decimal(n / 10) + seq![((48 + n % 10) as u8) as char]
    }
}

/// The decimal rendering of `n`, as `usize::to_string` gives it.
pub fn decimal(n: usize) -> (res: Vec<char>)
    ensures
        res@ == spec_decimal(n as nat),
    decreases n,
{
    let digit = ((48 + n % 10) as u8) as char;
    if n < 10 {
        let mut v: Vec<char> = Vec::new();
        v.push(digit);
        v
    } else {
        let mut v = decimal(n / 10);
        v.push(digit);
        v
    }
}

/// `s` with every `from` replaced by `to`.
pub open spec fn spec_replace_char(s: Seq<char>, from: char, to: char) -> Seq<char> {
    s.map_values(|c: char| if c == from { to } else { c })
}

pub fn replace_char(s: &[char], from: char, to: char) -> (res: Vec<char>)
    ensures
        res@ == spec_replace_char(s@, from, to),
{
    let mut out: Vec<char> = Vec::new();
    let mut i: usize = 0;
    while i < s.len()
        invariant
            i <= s@.len(),
            out@ == spec_replace_char(s@.subrange(0, i as int), from, to),
        decreases s.len() - i,
    {
        out.push(if s[i] == from { to } else { s[i] });
        assert(spec_replace_char(s@.subrange(0, i + 1), from, to) =~= spec_replace_char(
            s@.subrange(0, i as int),
            from,
            to,
        ).push(if s@[i as int] == from { to } else { s@[i as int] }));
        i = i + 1;
    }
    assert(s@.subrange(0, s@.len() as int) =~= s@);
    out
}

/// Whether `s` starts with `prefix`.
pub fn starts_with(s: &[char], prefix: &[char]) -> (res: bool)
    ensures
        res == seq_starts_with(s@, prefix@),
{
    matches_at(s, prefix, 0)
}

/// Whether `s` ends with `suffix`.
pub fn ends_with(s: &[char], suffix: &[char]) -> (res: bool)
    ensures
        res == seq_ends_with(s@, suffix@),
{
    if suffix.len() > s.len() {
        return false;
    }
    matches_at(s, suffix, s.len() - suffix.len())
}

/// The string made of the characters of `a` followed by those of `b`.
pub fn concat_str(a: &str, b: &str) -> (res: String)
    ensures
        res@ == a@ + b@,
{
    let mut s = String::from_str(a);
    s.append(b);
    s
}

} // verus!

verus! {

/// The Unicode `Uppercase` property of a character, as `char::is_uppercase` tests it.
pub uninterp spec fn spec_is_uppercase(c: char) -> bool;

/// Calls `char::is_uppercase`: whether the character has the Unicode `Uppercase` property.
#[verifier::external_body]
pub(crate) fn is_uppercase(c: char) -> (res: bool)
    ensures
        res == spec_is_uppercase(c),
{
    c.is_uppercase()
}

} // verus!

verus! {

/// The Unicode `Alphabetic` or `Numeric` property, as `char::is_alphanumeric` tests it.
pub uninterp spec fn spec_is_alphanumeric(c: char) -> bool;

/// Calls `char::is_alphanumeric`: whether the character is alphabetic or numeric in Unicode.
#[verifier::external_body]
pub(crate) fn is_alphanumeric(c: char) -> (res: bool)
    ensures
        res == spec_is_alphanumeric(c),
{
    c.is_alphanumeric()
}

/// Position of the first occurrence of `needle` in `hay` at or after `i`.
pub open spec fn first_occurrence_from(hay: Seq<char>, needle: Seq<char>, i: int) -> Option<int>
    decreases hay.len() + 1 - i,
{
    if i < 0 || i + needle.len() > hay.len() {
        None
    } else if occurs_at(hay, needle, i) {
        Some(i)
    } else {
        first_occurrence_from(hay, needle, i + 1)
    }
}

/// Position of the first occurrence of `needle` in `hay`.
pub fn find_str(hay: &[char], needle: &[char]) -> (res: Option<usize>)
    ensures
        match res {
            Some(i) => first_occurrence_from(hay@, needle@, 0) == Some(i as int) && i + needle@.len() <= hay@.len(),
            None => first_occurrence_from(hay@, needle@, 0) is None,
        },
{
    if needle.len() > hay.len() {
        return None;
    }
    if needle.len() == 0 {
        assert(hay@.subrange(0, 0) =~= needle@);
        assert(occurs_at(hay@, needle@, 0));
        return Some(0);
    }
    let n = hay.len();
    let last = n - needle.len();
    let mut i: usize = 0;
    while i <= last
        invariant
            last + needle@.len() == hay@.len(),
            n == hay@.len(),
            last < n,
            needle@.len() > 0,
            i <= last + 1,
            first_occurrence_from(hay@, needle@, 0) == first_occurrence_from(hay@, needle@, i as int),
        decreases last + 1 - i,
    {
        if matches_at(hay, needle, i) {
            return Some(i);
        }
        i = i + 1;
    }
    None
}

/// `s` without `prefix`, when it starts with it.
pub open spec fn strip_prefix(s: Seq<char>, prefix: Seq<char>) -> Option<Seq<char>> {
    if seq_starts_with(s, prefix) { Some(s.subrange(prefix.len() as int, s.len() as int)) } else { None }
}

pub fn strip_prefix_exec(s: &Vec<char>, prefix: &str) -> (res: Option<Vec<char>>)
    ensures
        match res {
            Some(r) => strip_prefix(s@, prefix@) == Some(r@),
            None => strip_prefix(s@, prefix@) is None,
        },
{
    let p = chars_of(prefix);
    if starts_with(s, &p) {
        Some(slice_chars(s, p.len(), s.len()))
    } else {
        None
    }
}

} // verus!

verus! {

/// `a + b`, or `usize::MAX` when the sum does not fit.
pub fn sat_add(a: usize, b: usize) -> (res: usize)
    ensures
        res == if a + b > usize::MAX { usize::MAX as int } else { a + b },
{
    if a > usize::MAX - b { usize::MAX } else { a + b }
}

} // verus!

verus! {

/// An exact copy of a list of strings.
pub fn copy_strings(v: &Vec<String>) -> (res: Vec<String>)
    ensures
        res@ == v@,
{
    let mut out: Vec<String> = Vec::new();
    let mut k: usize = 0;
    while k < v.len()
        invariant
            k <= v@.len(),
            out@ == v@.subrange(0, k as int),
        decreases v.len() - k,
    {
        out.push(v[k].clone());
        assert(out@ =~= v@.subrange(0, k + 1));
        k = k + 1;
    }
    assert(v@.subrange(0, v@.len() as int) =~= v@);
    out
}

/// `s[i..j]` is a word of `s`: a maximal run of characters that are not whitespace, as
/// `str::split_whitespace` yields them.
pub open spec fn is_word_at(s: Seq<char>, i: int, j: int) -> bool {
    &&& 0 <= i < j <= s.len()
    &&& (i == 0 || is_ws(s[i - 1]))
    &&& (j == s.len() || is_ws(s[j]))
    &&& forall|k: int| i <= k < j ==> !is_ws(#[trigger] s[k])
}

/// Some word of `s` occurs in `hay`.
pub open spec fn some_word_in(s: Seq<char>, hay: Seq<char>) -> bool {
    exists|i: int, j: int| #[trigger] is_word_at(s, i, j) && seq_contains(hay, s.subrange(i, j))
}

proof fn lemma_word_end_unique(s: Seq<char>, i: int, j: int, b: int)
    requires
        is_word_at(s, i, j),
        is_word_at(s, i, b),
    ensures
        j == b,
{
    if j < b {
        assert(!is_ws(s[j]));
    }
    if b < j {
        assert(!is_ws(s[b]));
    }
}

/// Whether some word of `s` occurs in `hay`.
pub fn any_word_in(s: &[char], hay: &[char]) -> (res: bool)
    ensures
        res == some_word_in(s@, hay@),
{
    let n = s.len();
    let mut i: usize = 0;
    while i < n
        invariant
            n == s@.len(),
            i <= n,
            i == 0 || i == n || is_ws(s@[i - 1]) || is_ws(s@[i as int]),
            forall|a: int, b: int| 0 <= a < i && is_word_at(s@, a, b) ==> !seq_contains(hay@, s@.subrange(a, b)),
        decreases n - i,
    {
        if is_whitespace(s[i]) {
            i = i + 1;
        } else {
            let start = i;
            while i < n && !is_whitespace(s[i])
                invariant
                    n == s@.len(),
                    start <= i <= n,
                    forall|k: int| start <= k < i ==> !is_ws(#[trigger] s@[k]),
                decreases n - i,
            {
                i = i + 1;
            }
            assert(is_word_at(s@, start as int, i as int));
            let word = slice_chars(s, start, i);
            if contains(hay, &word) {
                assert(word@ =~= s@.subrange(start as int, i as int));
                return true;
            }
            assert forall|a: int, b: int| 0 <= a < i && is_word_at(s@, a, b) implies !seq_contains(hay@, s@.subrange(a, b)) by {
                if a >= start {
                    if a > start {
                        assert(!is_ws(s@[a - 1]));
                    }
                    lemma_word_end_unique(s@, a, i as int, b);
                    assert(word@ =~= s@.subrange(a, b));
                }
            }
        }
    }
    false
}

/// Whether one of the strings is `s`.
pub fn holds(v: &Vec<String>, s: &str) -> (res: bool)
    ensures
        res == views(v@).contains(s@),
{
    let mut j: usize = 0;
    while j < v.len()
        invariant
            j <= v@.len(),
            forall|i: int| 0 <= i < j ==> v@[i]@ != s@,
        decreases v.len() - j,
    {
        if crate::model::str_equal(v[j].as_str(), s) {
            assert(views(v@)[j as int] == s@);
            return true;
        }
        j = j + 1;
    }
    proof {
        if views(v@).contains(s@) {
            let i = choose|i: int| 0 <= i < views(v@).len() && views(v@)[i] == s@;
            assert(v@[i]@ == s@);
        }
    }
    false
}

/// Pushing a value adds exactly that value to what a sequence contains.
pub proof fn lemma_contains_push(s: Seq<Seq<char>>, a: Seq<char>)
    ensures
        forall|x: Seq<char>| #[trigger] s.push(a).contains(x) <==> (s.contains(x) || x == a),
{
    assert forall|x: Seq<char>| #[trigger] s.push(a).contains(x) <==> (s.contains(x) || x == a) by {
        if s.push(a).contains(x) {
            let i = choose|i: int| 0 <= i < s.push(a).len() && s.push(a)[i] == x;
            if i < s.len() {
                assert(s[i] == x);
            }
        }
        if s.contains(x) {
            let i = choose|i: int| 0 <= i < s.len() && s[i] == x;
            assert(s.push(a)[i] == x);
        }
        if x == a {
            assert(s.push(a)[s.len() as int] == x);
        }
    }
}

} // verus!
