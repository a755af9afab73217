//! Line-oriented text handling: splitting text into lines and splitting a
//! field line into its name and its value.

use vstd::prelude::*;

verus! {

/// ASCII whitespace, as trimmed from field values.
pub open spec fn is_ws(c: char) -> bool {
    c == ' ' || c == '\t' || c == '\n' || c == '\r'
}

/// The position of the first occurrence of `c`, or -1.
pub open spec fn spec_find_char(s: Seq<char>, c: char) -> int
    decreases s.len(),
{
    if s.len() == 0 {
        -1
    } else if s[0] == c {
        0
    } else {
        let r = spec_find_char(s.drop_first(), c);
        if r < 0 {
            -1
        } else {
            r + 1
        }
    }
}

/// `spec_find_char` finds the first occurrence and stays inside the text.
pub proof fn lemma_find_char(s: Seq<char>, c: char)
    ensures
        spec_find_char(s, c) < 0 ==> forall|j: int| 0 <= j < s.len() ==> s[j] != c,
        spec_find_char(s, c) >= 0 ==> {
            &&& spec_find_char(s, c) < s.len()
            &&& s[spec_find_char(s, c)] == c
            &&& forall|j: int| 0 <= j < spec_find_char(s, c) ==> s[j] != c
        },
    decreases s.len(),
{
    if s.len() > 0 && s[0] != c {
        lemma_find_char(s.drop_first(), c);
        assert forall|j: int| 1 <= j < s.len() implies s[j] == s.drop_first()[j - 1] by {}
    }
}

/// If the first occurrence of `c` stands at `i`, `spec_find_char` returns `i`.
pub proof fn lemma_find_char_at(s: Seq<char>, c: char, i: int)
    requires
        0 <= i < s.len(),
        s[i] == c,
        forall|j: int| 0 <= j < i ==> s[j] != c,
    ensures
        spec_find_char(s, c) == i,
    decreases s.len(),
{
    if i > 0 {
        assert forall|j: int| 0 <= j < i - 1 implies s.drop_first()[j] != c by {
            assert(s.drop_first()[j] == s[j + 1]);
        }
        assert(s.drop_first()[i - 1] == s[i]);
        lemma_find_char_at(s.drop_first(), c, i - 1);
    }
}

/// If `c` does not occur, `spec_find_char` returns -1.
pub proof fn lemma_find_char_none(s: Seq<char>, c: char)
    requires
        forall|j: int| 0 <= j < s.len() ==> s[j] != c,
    ensures
        spec_find_char(s, c) == -1,
    decreases s.len(),
{
    if s.len() > 0 {
        assert forall|j: int| 0 <= j < s.drop_first().len() implies s.drop_first()[j] != c by {
            assert(s.drop_first()[j] == s[j + 1]);
        }
        lemma_find_char_none(s.drop_first(), c);
    }
}

/// A line with one trailing carriage return removed.
pub open spec fn spec_strip_cr(l: Seq<char>) -> Seq<char> {
    if l.len() > 0 && l[l.len() - 1] == '\r' {
        l.drop_last()
    } else {
        l
    }
}

/// The lines of a text: split at every newline, a trailing carriage return
/// removed from each line, and no empty line after a final newline.
pub open spec fn spec_lines(s: Seq<char>) -> Seq<Seq<char>>
    decreases s.len(),
{
    if s.len() == 0 {
        Seq::<Seq<char>>::empty()
    } else {
        let i = spec_find_char(s, '\n');
        if 0 <= i < s.len() {
            seq![spec_strip_cr(s.take(i))] + spec_lines(s.skip(i + 1))
        } else {
            seq![spec_strip_cr(s)]
        }
    }
}

/// Finds the first occurrence of `c` at or after `pos`.
pub fn find_char_from(v: &Vec<char>, pos: usize, c: char) -> (r: Option<usize>)
    requires
        pos <= v@.len(),
    ensures
        match r {
            Some(j) => {
                &&& pos <= j < v@.len()
                &&& v@[j as int] == c
                &&& forall|k: int| pos <= k < j ==> v@[k] != c
            },
            None => forall|k: int| pos <= k < v@.len() ==> v@[k] != c,
        },
{
    let mut i: usize = pos;
    while i < v.len()
        invariant
            pos <= i <= v@.len(),
            forall|k: int| pos <= k < i ==> v@[k] != c,
        decreases v@.len() - i,
    {
        if v[i] == c {
            return Some(i);
        }
        i = i + 1;
    }
    None
}

/// Copies the characters of `v` between `from` and `to`.
pub fn subrange_chars(v: &Vec<char>, from: usize, to: usize) -> (r: Vec<char>)
    requires
        from <= to <= v@.len(),
    ensures
        r@ == v@.subrange(from as int, to as int),
{
    vstd::slice::slice_to_vec(vstd::slice::slice_subrange(v.as_slice(), from, to))
}

/// Removes one trailing carriage return, if the line ends with one.
pub fn strip_cr(l: &mut Vec<char>)
    ensures
        final(l)@ == spec_strip_cr(old(l)@),
{
    if l.len() > 0 {
        if l[l.len() - 1] == '\r' {
            l.pop();
            proof {
                assert(l@ =~= old(l)@.drop_last());
            }
        }
    }
}

/// Splits a text into its lines.
pub fn split_lines(v: &Vec<char>) -> (r: Vec<Vec<char>>)
    ensures
        r.deep_view() == spec_lines(v@),
{
    let mut r: Vec<Vec<char>> = Vec::new();
    let mut pos: usize = 0;
    proof {
        assert(v@.skip(0) =~= v@);
        assert(r.deep_view() =~~= Seq::<Seq<char>>::empty());
        assert(r.deep_view() + spec_lines(v@.skip(0)) =~~= spec_lines(v@));
    }
    while pos < v.len()
        invariant
            pos <= v@.len(),
            r.deep_view() + spec_lines(v@.skip(pos as int)) == spec_lines(v@),
        decreases v@.len() - pos,
    {
        let ghost suffix = v@.skip(pos as int);
        match find_char_from(v, pos, '\n') {
            Some(j) => {
                let mut line = subrange_chars(v, pos, j);
                strip_cr(&mut line);
                let ghost dv0 = r.deep_view();
                r.push(line);
                proof {
                    assert forall|m: int| 0 <= m < suffix.len() implies suffix[m] == v@[pos
                        + m] by {}
                    lemma_find_char_at(suffix, '\n', j - pos);
                    assert(suffix.take(j - pos) =~= v@.subrange(pos as int, j as int));
                    assert(suffix.skip(j - pos + 1) =~= v@.skip(j + 1));
                    assert(r.deep_view() =~~= dv0 + seq![line@]);
                }
                pos = j + 1;
                proof {
                    assert(r.deep_view() + spec_lines(v@.skip(pos as int)) =~~= spec_lines(v@));
                }
            },
            None => {
                let mut line = subrange_chars(v, pos, v.len());
                strip_cr(&mut line);
                let ghost dv0 = r.deep_view();
                r.push(line);
                proof {
                    assert forall|m: int| 0 <= m < suffix.len() implies suffix[m] == v@[pos
                        + m] by {}
                    lemma_find_char_none(suffix, '\n');
                    assert(suffix =~= v@.subrange(pos as int, v@.len() as int));
                    assert(r.deep_view() =~~= dv0 + seq![line@]);
                }
                pos = v.len();
                proof {
                    assert(v@.skip(pos as int) =~= Seq::<char>::empty());
                    assert(r.deep_view() + spec_lines(v@.skip(pos as int)) =~~= spec_lines(v@));
                }
            },
        }
    }
    proof {
        assert(v@.skip(pos as int) =~= Seq::<char>::empty());
        assert(r.deep_view() =~~= spec_lines(v@));
    }
    r
}

/// No split line carries a newline: each line stops at the first newline
/// of the remaining text.
pub proof fn lemma_lines_no_newline(s: Seq<char>)
    ensures
        forall|k: int|
            0 <= k < spec_lines(s).len() ==> !(#[trigger] spec_lines(s)[k]).contains('\n'),
    decreases s.len(),
{
    if s.len() > 0 {
        let i = spec_find_char(s, '\n');
        lemma_find_char(s, '\n');
        if 0 <= i < s.len() {
            let head = spec_strip_cr(s.take(i));
            assert(!head.contains('\n')) by {
                if head.contains('\n') {
                    let w = choose|w: int| 0 <= w < head.len() && head[w] == '\n';
                    assert(s.take(i)[w] == s[w]);
                    assert(false);
                }
            }
            lemma_lines_no_newline(s.skip(i + 1));
            assert forall|k: int|
                0 <= k < spec_lines(s).len() implies !(#[trigger] spec_lines(s)[k]).contains(
                '\n',
            ) by {
                if k > 0 {
                    assert(spec_lines(s)[k] == spec_lines(s.skip(i + 1))[k - 1]);
                }
            }
        } else {
            let head = spec_strip_cr(s);
            assert(!head.contains('\n')) by {
                if head.contains('\n') {
                    let w = choose|w: int| 0 <= w < head.len() && head[w] == '\n';
                    assert(s[w] == '\n');
                    assert(false);
                }
            }
        }
    }
}

/// The position of the first `": "` separator, or -1.
pub open spec fn spec_find_colon_space(s: Seq<char>) -> int
    decreases s.len(),
{
    if s.len() < 2 {
        -1
    } else if s[0] == ':' && s[1] == ' ' {
        0
    } else {
        let r = spec_find_colon_space(s.drop_first());
        if r < 0 {
            -1
        } else {
            r + 1
        }
    }
}

/// `spec_find_colon_space` finds the first separator.
pub proof fn lemma_find_colon_space(s: Seq<char>)
    ensures
        spec_find_colon_space(s) < 0 ==> forall|j: int|
            0 <= j < s.len() - 1 ==> !(#[trigger] s[j] == ':' && s[j + 1] == ' '),
        spec_find_colon_space(s) >= 0 ==> {
            &&& spec_find_colon_space(s) < s.len() - 1
            &&& s[spec_find_colon_space(s)] == ':'
            &&& s[spec_find_colon_space(s) + 1] == ' '
            &&& forall|j: int|
                0 <= j < spec_find_colon_space(s) ==> !(#[trigger] s[j] == ':' && s[j + 1] == ' ')
        },
    decreases s.len(),
{
    if s.len() >= 2 && !(s[0] == ':' && s[1] == ' ') {
        lemma_find_colon_space(s.drop_first());
        assert forall|j: int| 1 <= j < s.len() implies s[j] == s.drop_first()[j - 1] by {}
    }
}

/// If the first `": "` stands at `i`, `spec_find_colon_space` returns `i`.
pub proof fn lemma_find_colon_space_at(s: Seq<char>, i: int)
    requires
        0 <= i < s.len() - 1,
        s[i] == ':',
        s[i + 1] == ' ',
        forall|j: int| 0 <= j < i ==> !(#[trigger] s[j] == ':' && s[j + 1] == ' '),
    ensures
        spec_find_colon_space(s) == i,
    decreases s.len(),
{
    if i > 0 {
        assert forall|j: int|
            0 <= j < i - 1 implies !(#[trigger] s.drop_first()[j] == ':' && s.drop_first()[j + 1]
            == ' ') by {
            assert(s.drop_first()[j] == s[j + 1]);
            assert(s.drop_first()[j + 1] == s[j + 2]);
        }
        assert(s.drop_first()[i - 1] == s[i]);
        assert(s.drop_first()[i] == s[i + 1]);
        lemma_find_colon_space_at(s.drop_first(), i - 1);
    }
}

/// Splits a control line at the first `": "`: the name stands before it, the
/// value after it, neither trimmed.
pub open spec fn spec_split_control_line(l: Seq<char>) -> Option<(Seq<char>, Seq<char>)> {
    let i = spec_find_colon_space(l);
    if i < 0 {
        None
    } else {
        Some((l.take(i), l.skip(i + 2)))
    }
}

/// Splits a control line at the first `": "`.
pub fn split_control_line(l: &Vec<char>) -> (r: Option<(Vec<char>, Vec<char>)>)
    ensures
        match r {
            Some(kv) => spec_split_control_line(l@) == Some((kv.0@, kv.1@)),
            None => spec_split_control_line(l@) is None,
        },
{
    let mut i: usize = 0;
    while i < l.len() && i + 1 < l.len()
        invariant
            i <= l@.len(),
            forall|j: int| 0 <= j < i ==> !(#[trigger] l@[j] == ':' && l@[j + 1] == ' '),
        decreases l@.len() - i,
    {
        if l[i] == ':' && l[i + 1] == ' ' {
            proof {
                lemma_find_colon_space_at(l@, i as int);
            }
            let k = subrange_chars(l, 0, i);
            let v = subrange_chars(l, i + 2, l.len());
            proof {
                assert(l@.take(i as int) =~= l@.subrange(0, i as int));
                assert(l@.skip(i + 2) =~= l@.subrange(i + 2, l@.len() as int));
            }
            return Some((k, v));
        }
        i = i + 1;
    }
    proof {
        lemma_find_colon_space(l@);
        if spec_find_colon_space(l@) >= 0 {
            assert(false);
        }
    }
    None
}

/// The text with leading whitespace removed.
pub open spec fn spec_trim_start(s: Seq<char>) -> Seq<char>
    decreases s.len(),
{
    if s.len() > 0 && is_ws(s[0]) {
        spec_trim_start(s.drop_first())
    } else {
        s
    }
}

/// The text with trailing whitespace removed.
pub open spec fn spec_trim_end(s: Seq<char>) -> Seq<char>
    decreases s.len(),
{
    if s.len() > 0 && is_ws(s[s.len() - 1]) {
        spec_trim_end(s.drop_last())
    } else {
        s
    }
}

/// The text with leading and trailing whitespace removed.
pub open spec fn spec_trim(s: Seq<char>) -> Seq<char> {
    spec_trim_end(spec_trim_start(s))
}

/// Dropping leading whitespace reaches the first non-whitespace position.
pub proof fn lemma_trim_start_at(s: Seq<char>, a: int)
    requires
        0 <= a <= s.len(),
        forall|j: int| 0 <= j < a ==> is_ws(s[j]),
        a < s.len() ==> !is_ws(s[a]),
    ensures
        spec_trim_start(s) == s.skip(a),
    decreases a,
{
    if a == 0 {
        assert(s.skip(0) =~= s);
    } else {
        assert forall|j: int| 0 <= j < a - 1 implies is_ws(s.drop_first()[j]) by {
            assert(s.drop_first()[j] == s[j + 1]);
        }
        if a < s.len() {
            assert(s.drop_first()[a - 1] == s[a]);
        }
        lemma_trim_start_at(s.drop_first(), a - 1);
        assert(s.drop_first().skip(a - 1) =~= s.skip(a));
    }
}

/// Dropping trailing whitespace reaches the last non-whitespace position.
pub proof fn lemma_trim_end_at(s: Seq<char>, b: int)
    requires
        0 <= b <= s.len(),
        forall|j: int| b <= j < s.len() ==> is_ws(s[j]),
        b > 0 ==> !is_ws(s[b - 1]),
    ensures
        spec_trim_end(s) == s.take(b),
    decreases s.len() - b,
{
    if b == s.len() {
        assert(s.take(b) =~= s);
    } else {
        assert forall|j: int| b <= j < s.drop_last().len() implies is_ws(s.drop_last()[j]) by {}
        lemma_trim_end_at(s.drop_last(), b);
        assert(s.drop_last().take(b) =~= s.take(b));
    }
}

/// Removes leading and trailing whitespace.
pub fn trim_chars(v: &Vec<char>) -> (r: Vec<char>)
    ensures
        r@ == spec_trim(v@),
{
    let mut a: usize = 0;
    while a < v.len() && is_ws_exec(v[a])
        invariant
            a <= v@.len(),
            forall|j: int| 0 <= j < a ==> is_ws(v@[j]),
        decreases v@.len() - a,
    {
        a = a + 1;
    }
    proof {
        lemma_trim_start_at(v@, a as int);
    }
    let mut b: usize = v.len();
    while b > a && is_ws_exec(v[b - 1])
        invariant
            a <= b <= v@.len(),
            forall|j: int| b <= j < v@.len() ==> is_ws(v@[j]),
        decreases b,
    {
        b = b - 1;
    }
    let r = subrange_chars(v, a, b);
    proof {
        let st = spec_trim_start(v@);
        assert forall|j: int| b - a <= j < st.len() implies is_ws(st[j]) by {
            assert(st[j] == v@[a + j]);
        }
        if b > a {
            assert(st[b - a - 1] == v@[b - 1]);
        }
        lemma_trim_end_at(st, b - a);
        assert(st.take(b - a) =~= v@.subrange(a as int, b as int));
    }
    r
}

/// Whitespace test on one character.
pub fn is_ws_exec(c: char) -> (r: bool)
    ensures
        r == is_ws(c),
{
    c == ' ' || c == '\t' || c == '\n' || c == '\r'
}

} // verus!
